use xds_code::sniff::{is_binary, SAMPLE_SIZE};

#[test]
fn text_is_not_binary() {
    assert!(!is_binary(b"fn main() {\n\tprintln!(\"hi\");\r\n}\n"));
    assert!(!is_binary("d\u{e9}j\u{e0} vu \u{4e16}\u{754c}".as_bytes()));
    assert!(!is_binary(&[7, 8, 9, 10, 11, 12, 13]));
}

#[test]
fn empty_content_is_not_binary() {
    assert!(!is_binary(b""));
}

#[test]
fn a_zero_byte_makes_content_binary() {
    assert!(is_binary(b"text\0text"));
    assert!(is_binary(&[0]));
    let mut bytes = vec![b'a'; 600];
    bytes[511] = 0;
    assert!(is_binary(&bytes));
}

#[test]
fn only_the_first_bytes_are_looked_at() {
    assert_eq!(SAMPLE_SIZE, 512);
    let mut bytes = vec![b'a'; 600];
    bytes[512] = 0;
    assert!(!is_binary(&bytes));
    for byte in bytes[512..].iter_mut() {
        *byte = 1;
    }
    assert!(!is_binary(&bytes));
}

#[test]
fn more_than_three_tenths_unprintable_is_binary() {
    let sample = |unprintable: usize, length: usize| {
        let mut bytes = vec![b'a'; length];
        for byte in bytes[..unprintable].iter_mut() {
            *byte = 1;
        }
        bytes
    };
    assert!(!is_binary(&sample(3, 10)));
    assert!(is_binary(&sample(4, 10)));
    assert!(!is_binary(&sample(30, 100)));
    assert!(is_binary(&sample(31, 100)));
    assert!(!is_binary(&sample(153, 512)));
    assert!(is_binary(&sample(154, 512)));
    assert!(!is_binary(&sample(153, 2000)));
    assert!(is_binary(&sample(154, 2000)));
    assert!(is_binary(&sample(1, 1)));
    assert!(is_binary(&sample(1, 3)));
    assert!(!is_binary(&sample(1, 4)));
}

#[test]
fn the_unprintable_bytes_are_those_below_seven_and_from_fourteen_to_thirty_one() {
    for byte in 1..=255u8 {
        let unprintable = byte < 7 || (byte > 13 && byte < 32);
        assert_eq!(is_binary(&[byte]), unprintable);
    }
}

#[test]
fn the_rule_agrees_with_the_ratio_in_single_precision() {
    for length in 1..=512usize {
        for unprintable in 0..=length {
            let mut bytes = vec![b'a'; length];
            for byte in bytes[..unprintable].iter_mut() {
                *byte = 1;
            }
            let ratio = unprintable as f32 / length as f32;
            assert_eq!(is_binary(&bytes), ratio > 0.3);
        }
    }
}
