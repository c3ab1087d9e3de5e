use json_array_stream::cursor::{is_ascii_whitespace, ByteCursor};
use json_array_stream::walker::{collect_elements, iter_json_array, ArrayError, ArrayWalker, Malformed, Phase};
use serde_json::Value;

fn json(text: &str) -> Value {
    serde_json::from_str(text).unwrap()
}

fn walker_over(text: &str) -> ArrayWalker {
    iter_json_array(text.as_bytes().to_vec())
}

fn expect_element(w: &mut ArrayWalker, expected: &str) {
    match w.next() {
        Some(Ok(v)) => assert_eq!(v, json(expected)),
        other => panic!("expected an element, got {:?}", other),
    }
}

fn expect_end_forever(w: &mut ArrayWalker) {
    for _ in 0..3 {
        assert!(w.next().is_none());
    }
}

#[test]
fn empty_arrays_yield_nothing() {
    for text in ["[]", "[ ]", "  [\n\t ]", "\r\n[\u{c}\u{c}]  "] {
        let mut w = walker_over(text);
        expect_end_forever(&mut w);
    }
}

#[test]
fn single_element_equals_its_decode() {
    let mut w = walker_over("[{\"a\":1}]");
    expect_element(&mut w, "{\"a\":1}");
    expect_end_forever(&mut w);
}

#[test]
fn two_elements_in_order() {
    let mut w = walker_over("[{\"a\":1},{\"a\":2}]");
    expect_element(&mut w, "{\"a\":1}");
    expect_element(&mut w, "{\"a\":2}");
    expect_end_forever(&mut w);
}

#[test]
fn whitespace_around_separators() {
    let mut w = walker_over(" [ {\"a\" : 1} ,\n {\"b\":[1, 2]}\t, \"x\" , 7 , true ]");
    expect_element(&mut w, "{\"a\":1}");
    expect_element(&mut w, "{\"b\":[1,2]}");
    expect_element(&mut w, "\"x\"");
    expect_element(&mut w, "7");
    expect_element(&mut w, "true");
    expect_end_forever(&mut w);
}

#[test]
fn numbers_next_to_commas() {
    let mut w = walker_over("[1,22,-3.5]");
    expect_element(&mut w, "1");
    expect_element(&mut w, "22");
    expect_element(&mut w, "-3.5");
    expect_end_forever(&mut w);
}

#[test]
fn missing_brackets_is_malformed() {
    let mut w = walker_over("{\"a\":1}");
    assert!(matches!(
        w.next(),
        Some(Err(ArrayError::MalformedInput(Malformed::MissingOpeningBracket)))
    ));
    expect_end_forever(&mut w);
}

#[test]
fn missing_closing_bracket_is_unexpected_end() {
    let mut w = walker_over("[{\"a\":1}");
    expect_element(&mut w, "{\"a\":1}");
    assert!(matches!(w.next(), Some(Err(ArrayError::UnexpectedEnd))));
    expect_end_forever(&mut w);
}

#[test]
fn missing_comma_is_malformed() {
    let mut w = walker_over("[{\"a\":1} {\"a\":2}]");
    expect_element(&mut w, "{\"a\":1}");
    assert!(matches!(
        w.next(),
        Some(Err(ArrayError::MalformedInput(Malformed::ExpectedCommaOrClosingBracket)))
    ));
    expect_end_forever(&mut w);
}

#[test]
fn bad_element_is_decode_error() {
    let mut w = walker_over("[{\"bad json");
    assert!(matches!(w.next(), Some(Err(ArrayError::ElementDecodeError(_)))));
    expect_end_forever(&mut w);
}

#[test]
fn trailing_comma_is_decode_error() {
    let mut w = walker_over("[1,]");
    expect_element(&mut w, "1");
    assert!(matches!(w.next(), Some(Err(ArrayError::ElementDecodeError(_)))));
    expect_end_forever(&mut w);
}

#[test]
fn source_ending_after_comma_is_unexpected_end() {
    let mut w = walker_over("[1, \n");
    expect_element(&mut w, "1");
    assert!(matches!(w.next(), Some(Err(ArrayError::UnexpectedEnd))));
    expect_end_forever(&mut w);
}

#[test]
fn empty_or_blank_source_is_unexpected_end() {
    for text in ["", "   ", "[", "[  \n"] {
        let mut w = walker_over(text);
        assert!(matches!(w.next(), Some(Err(ArrayError::UnexpectedEnd))));
        expect_end_forever(&mut w);
    }
}

#[test]
fn nothing_after_closing_bracket_is_read() {
    let mut w = walker_over("[1] trailing");
    expect_element(&mut w, "1");
    expect_end_forever(&mut w);
}

#[test]
fn collect_gathers_all_elements() {
    let got = collect_elements(b"[ {\"a\":1}, {\"a\":2}, [] ]".to_vec()).unwrap();
    assert_eq!(got, vec![json("{\"a\":1}"), json("{\"a\":2}"), json("[]")]);
    assert_eq!(collect_elements(b"[]".to_vec()).unwrap(), Vec::<Value>::new());
}

#[test]
fn collect_many_elements_in_order() {
    let n = 1000;
    let text = format!(
        "[{}]",
        (0..n).map(|i| format!("{{\"i\":{}}}", i)).collect::<Vec<_>>().join(", ")
    );
    let got = collect_elements(text.into_bytes()).unwrap();
    assert_eq!(got.len(), n);
    for (i, v) in got.iter().enumerate() {
        assert_eq!(v["i"], Value::from(i));
    }
}

#[test]
fn collect_stops_at_first_error() {
    assert!(matches!(
        collect_elements(b"[1 2]".to_vec()),
        Err(ArrayError::MalformedInput(Malformed::ExpectedCommaOrClosingBracket))
    ));
    assert!(matches!(collect_elements(b"[1,".to_vec()), Err(ArrayError::UnexpectedEnd)));
    assert!(matches!(collect_elements(b"[tru]".to_vec()), Err(ArrayError::ElementDecodeError(_))));
    assert!(matches!(
        collect_elements(b"1".to_vec()),
        Err(ArrayError::MalformedInput(Malformed::MissingOpeningBracket))
    ));
}

#[test]
fn cursor_skips_ascii_whitespace() {
    let mut c = ByteCursor::new(b" \t\n\x0c\rab  ".to_vec());
    assert_eq!(c.read_skipping_whitespace(), Some(b'a'));
    assert_eq!(c.pos(), 6);
    assert_eq!(c.read_skipping_whitespace(), Some(b'b'));
    assert_eq!(c.read_skipping_whitespace(), None);
    assert_eq!(c.pos(), 9);
    assert_eq!(c.read_skipping_whitespace(), None);
}

#[test]
fn ascii_whitespace_bytes() {
    for b in [b' ', b'\t', b'\n', b'\r', 0x0c] {
        assert!(is_ascii_whitespace(b));
    }
    for b in [b'a', b'[', 0x0b, 0x00, 0xa0] {
        assert!(!is_ascii_whitespace(b));
    }
}

#[test]
fn phases_and_positions_follow_the_walk() {
    let mut w = walker_over(" [ 1 , {\"k\":2} ] ");
    assert_eq!(w.current_phase(), Phase::NotStarted);
    assert_eq!(w.bytes_read(), 0);
    expect_element(&mut w, "1");
    assert_eq!(w.current_phase(), Phase::AwaitingElementOrEnd);
    assert_eq!(w.bytes_read(), 4);
    expect_element(&mut w, "{\"k\":2}");
    assert_eq!(w.current_phase(), Phase::AwaitingElementOrEnd);
    assert_eq!(w.bytes_read(), 14);
    assert!(w.next().is_none());
    assert_eq!(w.current_phase(), Phase::Finished);
    assert_eq!(w.bytes_read(), 16);
}

#[test]
fn error_moves_to_finished() {
    let mut w = walker_over("x");
    assert!(w.next().is_some());
    assert_eq!(w.current_phase(), Phase::Finished);
    assert_eq!(w.bytes_read(), 1);
    expect_end_forever(&mut w);
}
