use testbed::bed::stream::{
    find_delimiters, strip_carriage_returns, take_line, LineDecoder, LiveLine,
};

#[test]
fn carriage_returns_do_not_reach_the_file() {
    assert_eq!(strip_carriage_returns(b"a\r\nb\rc\n\r"), b"a\nbc\n".to_vec());
    assert_eq!(strip_carriage_returns(b""), Vec::<u8>::new());
    assert_eq!(strip_carriage_returns(b"\r\r"), Vec::<u8>::new());
}

#[test]
fn live_line_shows_the_line_begun_last() {
    let mut line = LiveLine::new();
    line.feed(b"10%");
    assert_eq!(line.text(), "10%");
    line.feed(b"\r20%");
    assert_eq!(line.text(), "20%");
    line.feed(b"\r");
    assert_eq!(line.text(), "20%");
    assert!(line.clear);
    line.feed(b"");
    line.feed(b"\n\ndone\nnext li");
    assert_eq!(line.text(), "next li");
    line.feed(b"ne");
    assert_eq!(line.text(), "next line");
    line.feed("é".as_bytes());
    assert_eq!(line.text(), "next lineé");
}

#[test]
fn delimiters_are_found_with_the_line_after_them() {
    assert_eq!(find_delimiters(b"abc"), None);
    assert_eq!(find_delimiters(b""), None);
    assert_eq!(find_delimiters(b"ab\ncd\ref"), Some((2, 5)));
    assert_eq!(find_delimiters(b"ab\rcd"), Some((2, 5)));
    assert_eq!(find_delimiters(b"\n"), Some((0, 1)));
    assert_eq!(find_delimiters(b"\r\n"), Some((0, 1)));
}

#[test]
fn a_line_is_taken_up_to_its_delimiter() {
    let mut buf = b"x".to_vec();
    assert_eq!(take_line(b"abc", &mut buf), (false, 3));
    assert_eq!(buf, b"xabc".to_vec());
    assert_eq!(take_line(b"de\nfg\nhi", &mut buf), (true, 5));
    assert_eq!(buf, b"xabcde".to_vec());
    assert_eq!(take_line(b"", &mut buf), (false, 0));
}

#[test]
fn decoder_shows_each_line_that_has_ended() {
    let mut decoder = LineDecoder::new();
    assert_eq!(decoder.feed(b"partial"), Vec::<String>::new());
    assert_eq!(decoder.feed(b" line\nnext"), vec!["partial line"]);
    assert_eq!(decoder.bytes, b"\nnext".to_vec());
    assert_eq!(decoder.feed(b"\n"), vec!["next"]);
    assert_eq!(decoder.feed(b"a\rb\rc\r"), vec!["c"]);
    assert_eq!(decoder.bytes, b"\r".to_vec());
}

#[test]
fn decoder_keeps_a_character_that_a_chunk_stops_short_in() {
    let text = "größe\n".as_bytes();
    let mut decoder = LineDecoder::new();
    assert_eq!(decoder.feed(&text[..3]), Vec::<String>::new());
    assert_eq!(decoder.bytes, text[..3].to_vec());
    assert_eq!(decoder.feed(&text[3..5]), Vec::<String>::new());
    assert_eq!(decoder.feed(&text[5..]), vec!["größe"]);
    assert_eq!(decoder.bytes, b"\n".to_vec());
}

#[test]
fn decoder_drops_bytes_that_are_no_text() {
    let mut decoder = LineDecoder::new();
    assert_eq!(decoder.feed(b"ok\n\xffrest"), vec!["ok"]);
    assert_eq!(decoder.bytes, b"rest".to_vec());
    assert_eq!(decoder.feed(b"\n"), vec!["rest"]);
}

#[test]
fn live_line_shows_a_mark_in_place_of_bytes_that_are_no_text() {
    let mut line = LiveLine::new();
    line.feed(b"a\xffb");
    assert_eq!(line.bytes, b"a\xffb".to_vec());
    assert_eq!(line.text(), "a\u{FFFD}b");
    line.feed(&"é".as_bytes()[..1]);
    assert_eq!(line.text(), "a\u{FFFD}b\u{FFFD}");
}
