use xds_code::streamer::{OutputStreamer, ReadEvent, StreamKind};

fn feed(streamer: &mut OutputStreamer, bytes: &[u8]) -> Vec<String> {
    let step = streamer.on_read(ReadEvent::Data(bytes.to_vec()));
    assert!(step.keep_reading);
    for line in &step.lines {
        assert_eq!(line.stream, streamer.stream());
    }
    step.lines.into_iter().map(|line| line.text).collect()
}

fn strings(texts: &[&str]) -> Vec<String> {
    texts.iter().map(|text| text.to_string()).collect()
}

#[test]
fn lines_come_out_in_the_order_written() {
    let mut streamer = OutputStreamer::new(StreamKind::Stdout);
    assert_eq!(feed(&mut streamer, b"a\nb\n"), strings(&["a", "b"]));
}

#[test]
fn chunking_does_not_change_the_lines() {
    let written = b"first line\nsecond\n\nfourth\n";
    let mut whole = OutputStreamer::new(StreamKind::Stdout);
    let expected = feed(&mut whole, written);
    assert_eq!(expected, strings(&["first line", "second", "", "fourth"]));
    for cut in 0..=written.len() {
        let mut streamer = OutputStreamer::new(StreamKind::Stdout);
        let mut lines = feed(&mut streamer, &written[..cut]);
        lines.extend(feed(&mut streamer, &written[cut..]));
        assert_eq!(lines, expected);
    }
    let mut bytewise = OutputStreamer::new(StreamKind::Stdout);
    let mut lines = Vec::new();
    for byte in written.iter() {
        lines.extend(feed(&mut bytewise, &[*byte]));
    }
    assert_eq!(lines, expected);
}

#[test]
fn a_line_is_held_back_until_its_newline_arrives() {
    let mut streamer = OutputStreamer::new(StreamKind::Stderr);
    assert_eq!(feed(&mut streamer, b"par"), strings(&[]));
    assert_eq!(feed(&mut streamer, b"tial"), strings(&[]));
    assert_eq!(feed(&mut streamer, b"\nnext"), strings(&["partial"]));
    assert_eq!(feed(&mut streamer, b"\n"), strings(&["next"]));
}

#[test]
fn an_unfinished_last_line_is_dropped_at_the_end() {
    let mut streamer = OutputStreamer::new(StreamKind::Stdout);
    assert_eq!(feed(&mut streamer, b"done\nnot done"), strings(&["done"]));
    let step = streamer.on_read(ReadEvent::EndOfStream);
    assert!(step.lines.is_empty());
    assert!(!step.keep_reading);
    assert!(!streamer.is_open());
}

#[test]
fn a_read_error_ends_the_stream_silently() {
    let mut streamer = OutputStreamer::new(StreamKind::Stdout);
    assert_eq!(feed(&mut streamer, b"one\ntw"), strings(&["one"]));
    let step = streamer.on_read(ReadEvent::Failed);
    assert!(step.lines.is_empty());
    assert!(!step.keep_reading);
    assert!(!streamer.is_open());
}

#[test]
fn a_closed_streamer_delivers_nothing() {
    let mut streamer = OutputStreamer::new(StreamKind::Stdout);
    streamer.on_read(ReadEvent::EndOfStream);
    let step = streamer.on_read(ReadEvent::Data(b"late\n".to_vec()));
    assert!(step.lines.is_empty());
    assert!(!step.keep_reading);
    let step = streamer.on_read(ReadEvent::EndOfStream);
    assert!(step.lines.is_empty());
    assert!(!step.keep_reading);
}

#[test]
fn a_carriage_return_before_the_newline_is_taken_off() {
    let mut streamer = OutputStreamer::new(StreamKind::Stdout);
    assert_eq!(
        feed(&mut streamer, b"dos\r\nunix\nin\rside\n\r\r\n\r\n"),
        strings(&["dos", "unix", "in\rside", "\r", ""])
    );
}

#[test]
fn a_carriage_return_split_from_its_newline_is_taken_off() {
    let mut streamer = OutputStreamer::new(StreamKind::Stdout);
    assert_eq!(feed(&mut streamer, b"dos\r"), strings(&[]));
    assert_eq!(feed(&mut streamer, b"\n"), strings(&["dos"]));
}

#[test]
fn text_is_decoded_as_utf8() {
    let mut streamer = OutputStreamer::new(StreamKind::Stdout);
    let written = "h\u{e9}llo w\u{f6}rld \u{4e16}\u{754c} \u{1f600}\n";
    assert_eq!(
        feed(&mut streamer, written.as_bytes()),
        strings(&["h\u{e9}llo w\u{f6}rld \u{4e16}\u{754c} \u{1f600}"])
    );
}

#[test]
fn a_character_cut_by_a_chunk_border_is_put_together() {
    let mut streamer = OutputStreamer::new(StreamKind::Stdout);
    let written = "\u{4e16}\n".as_bytes();
    assert_eq!(feed(&mut streamer, &written[..2]), strings(&[]));
    assert_eq!(feed(&mut streamer, &written[2..]), strings(&["\u{4e16}"]));
}

#[test]
fn a_line_that_is_not_utf8_is_left_out() {
    let mut streamer = OutputStreamer::new(StreamKind::Stdout);
    assert_eq!(
        feed(&mut streamer, b"good\n\xff\xfe bad\nalso good\n"),
        strings(&["good", "also good"])
    );
}

#[test]
fn empty_data_changes_nothing() {
    let mut streamer = OutputStreamer::new(StreamKind::Stdout);
    assert_eq!(feed(&mut streamer, b"ab"), strings(&[]));
    assert_eq!(feed(&mut streamer, b""), strings(&[]));
    assert_eq!(feed(&mut streamer, b"c\n"), strings(&["abc"]));
}

#[test]
fn a_new_streamer_is_open_and_knows_its_stream() {
    let out = OutputStreamer::new(StreamKind::Stdout);
    let err = OutputStreamer::new(StreamKind::Stderr);
    assert!(out.is_open());
    assert!(err.is_open());
    assert_eq!(out.stream(), StreamKind::Stdout);
    assert_eq!(err.stream(), StreamKind::Stderr);
}

#[test]
fn bytes_that_are_no_text_give_no_line() {
    let not_text: [&[u8]; 9] = [
        b"\x80",
        b"\xc0\x80",
        b"\xc1\xbf",
        b"\xe0\x80\x80",
        b"\xed\xa0\x80",
        b"\xf0\x80\x80\x80",
        b"\xf4\x90\x80\x80",
        b"\xe4\xb8",
        b"abc\xf5",
    ];
    for bytes in not_text.iter() {
        let mut streamer = OutputStreamer::new(StreamKind::Stdout);
        let mut written = bytes.to_vec();
        written.extend_from_slice(b"\nok\n");
        assert_eq!(feed(&mut streamer, &written), strings(&["ok"]));
    }
    let text: [&[u8]; 4] = [b"\x7f", b"\xc2\x80", b"\xed\x9f\xbf", b"\xf4\x8f\xbf\xbf"];
    for bytes in text.iter() {
        let mut streamer = OutputStreamer::new(StreamKind::Stdout);
        let mut written = bytes.to_vec();
        written.push(b'\n');
        let expected = String::from_utf8(bytes.to_vec()).unwrap();
        assert_eq!(feed(&mut streamer, &written), vec![expected]);
    }
}
