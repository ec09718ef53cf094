//! Telling binary content from text by a look at its first bytes.

use vstd::prelude::*;
use vstd::slice::*;

verus! {

/// How many bytes from the start of the content are looked at.
pub const SAMPLE_SIZE: usize = 512;

/// The bytes of `bytes` that are looked at: the first `SAMPLE_SIZE`, or all of
/// them if there are fewer.
pub open spec fn sample_of(bytes: Seq<u8>) -> Seq<u8> {
    if bytes.len() <= SAMPLE_SIZE {
        bytes
    } else {
        bytes.take(SAMPLE_SIZE as int)
    }
}

/// Whether `byte` is a control character that text does not hold: one below
/// the bell, or one between carriage return and blank.
pub open spec fn is_unprintable(byte: u8) -> bool {
    byte < 7 || (13 < byte && byte < 32)
}

/// How many bytes of `bytes` are unprintable.
pub open spec fn unprintable_in(bytes: Seq<u8>) -> nat
    decreases bytes.len(),
{
    if bytes.len() == 0 {
        0
    } else if is_unprintable(bytes.last()) {
        unprintable_in(bytes.drop_last()) + 1
    } else {
        unprintable_in(bytes.drop_last())
    }
}

/// Whether content that starts with `bytes` counts as binary: its sample
/// holds a zero byte, or more than three tenths of the sample are
/// unprintable.
pub open spec fn looks_binary(bytes: Seq<u8>) -> bool {
    let sample = sample_of(bytes);
    sample.contains(0u8) || 10 * unprintable_in(sample) > 3 * sample.len()
}

/// Says whether content that starts with `bytes` counts as binary.
pub fn is_binary(bytes: &[u8]) -> (binary: bool)
    ensures
        binary == looks_binary(bytes@),
{
    let length = if bytes.len() <= SAMPLE_SIZE {
        bytes.len()
    } else {
        SAMPLE_SIZE
    };
    let ghost sample = sample_of(bytes@);
    let mut unprintable: usize = 0;
    let mut has_zero = false;
    let mut i: usize = 0;
    while i < length
        invariant
            i <= length <= SAMPLE_SIZE,
            length == sample.len(),
            sample == sample_of(bytes@),
            unprintable == unprintable_in(sample.take(i as int)),
            unprintable <= i,
            has_zero == sample.take(i as int).contains(0u8),
        decreases length - i,
    {
        let byte = bytes[i];
        proof {
            let before = sample.take(i as int);
            let after = sample.take(i + 1);
            assert(after.drop_last() =~= before);
            assert(after.last() == byte);
            if before.contains(0u8) {
                let k = choose|k: int| 0 <= k < before.len() && before[k] == 0u8;
                assert(after[k] == 0u8);
            }
            if after.contains(0u8) && byte != 0 {
                let k = choose|k: int| 0 <= k < after.len() && after[k] == 0u8;
                assert(before[k] == 0u8);
            }
            if byte == 0 {
                assert(after[i as int] == 0u8);
            }
        }
        if byte == 0 {
            has_zero = true;
        }
        if byte < 7 || (13 < byte && byte < 32) {
            unprintable += 1;
        }
        i += 1;
    }
    proof {
        assert(sample.take(length as int) =~= sample);
    }
    has_zero || 10 * unprintable > 3 * length
}

} // verus!
