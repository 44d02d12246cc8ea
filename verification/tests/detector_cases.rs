use text_reader::Detector;
use text_reader::TextReader;

fn state(reader: &TextReader) -> (usize, usize, usize) {
    (reader.position(), reader.line(), reader.cursor())
}

fn advance(reader: &mut TextReader, count: usize) {
    for _ in 0..count {
        assert!(reader.next().is_some());
    }
}

#[test]
fn match_moves_the_reader_past_the_pattern() {
    let mut reader = TextReader::new("abcdef");
    advance(&mut reader, 1);
    assert!(reader.detector().next_text("bcd").yes());
    assert_eq!((4, 1, 4), state(&reader));
    assert_eq!(Some('e'), reader.next());
}

#[test]
fn mismatch_leaves_the_reader_where_it_stood() {
    let mut reader = TextReader::new("abcdef");
    advance(&mut reader, 1);
    assert!(!reader.detector().next_text("bcx").yes());
    assert_eq!((1, 1, 1), state(&reader));
    assert!(!reader.detector().next_text("x").yes());
    assert_eq!((1, 1, 1), state(&reader));
    assert_eq!(Some('b'), reader.next());
}

#[test]
fn match_over_every_prefix_of_the_rest() {
    let text = "ab\ncd\n\ne";
    let chars: Vec<char> = text.chars().collect();
    for from in 0..=chars.len() {
        for to in from..=chars.len() {
            let pattern: String = chars[from..to].iter().collect();
            let mut reader = TextReader::new(text);
            advance(&mut reader, from);
            assert!(reader.detector().next_text(&pattern).yes());
            assert_eq!(to, reader.position());
            let mut walked = TextReader::new(text);
            advance(&mut walked, to);
            assert_eq!(state(&walked), state(&reader));
        }
    }
}

#[test]
fn mismatch_restores_line_and_column_over_newlines() {
    let text = "ab\ncd\n\ne";
    let patterns = ["ab\ncx", "b\ncd\n\nx", "\ncd\n\nef", "\n\ne!", "cd\n\n\n"];
    for from in 0..=8 {
        for pattern in patterns {
            let mut reader = TextReader::new(text);
            advance(&mut reader, from);
            let before = state(&reader);
            assert!(!reader.detector().next_text(pattern).yes());
            assert_eq!(before, state(&reader));
        }
    }
}

#[test]
fn match_may_end_with_the_text() {
    let mut reader = TextReader::new("ab\ncd");
    advance(&mut reader, 3);
    assert!(reader.detector().next_text("cd").yes());
    assert_eq!((5, 2, 2), state(&reader));
    assert!(!reader.has_next());

    let mut whole = TextReader::new("ab\ncd");
    assert!(whole.detector().next_text("ab\ncd").yes());
    assert_eq!((5, 2, 2), state(&whole));
}

#[test]
fn pattern_longer_than_the_rest_fails() {
    let mut reader = TextReader::new("ab\ncd");
    advance(&mut reader, 3);
    assert!(!reader.detector().next_text("cde").yes());
    assert_eq!((3, 2, 0), state(&reader));
    advance(&mut reader, 2);
    assert!(!reader.detector().next_char('x').yes());
    assert_eq!((5, 2, 2), state(&reader));
}

#[test]
fn empty_pattern_matches_everywhere() {
    let mut reader = TextReader::new("a\n");
    for _ in 0..3 {
        let before = state(&reader);
        assert!(reader.detector().yes());
        assert_eq!(before, state(&reader));
        assert!(!reader.detector().no());
        assert_eq!(before, state(&reader));
        reader.next();
    }
    let mut empty = TextReader::new("");
    assert!(empty.detector().yes());
    assert_eq!((0, 1, 0), state(&empty));
}

#[test]
fn no_is_yes_negated() {
    let mut reader = TextReader::new("abc");
    assert!(reader.detector().next_text("abd").no());
    assert_eq!((0, 1, 0), state(&reader));
    assert!(!reader.detector().next_text("ab").no());
    assert_eq!((2, 1, 2), state(&reader));
}

#[test]
fn next_char_and_next_text_add_up() {
    let mut reader = TextReader::new("a\nbcd");
    let mut detector = Detector::new(&mut reader);
    detector.next_char('a').next_char('\n').next_text("bc").next_char('d');
    assert_eq!(vec!['a', '\n', 'b', 'c', 'd'], detector.compares);
    assert_eq!(0, detector.last_len);
    assert!(detector.yes());
    assert_eq!(5, detector.last_len);
    assert_eq!((5, 2, 3), state(&reader));
}

#[test]
fn next_text_takes_characters_not_bytes() {
    let mut reader = TextReader::new("華文\ndef");
    let mut detector = reader.detector();
    assert!(detector.next_text("華文\n").yes());
    assert_eq!(3, detector.last_len);
    assert_eq!((3, 2, 0), state(&reader));
}

#[test]
fn rollback_undoes_a_match() {
    let mut reader = TextReader::new("ab\ncd");
    advance(&mut reader, 1);
    let mut detector = reader.detector();
    assert!(detector.next_text("b\nc").yes());
    detector.rollback();
    assert_eq!((1, 1, 1), state(&reader));
    assert_eq!(Some('b'), reader.next());
    assert_eq!(Some('\n'), reader.next());
    assert_eq!(Some('c'), reader.next());
}

#[test]
fn rollback_without_a_match_does_nothing() {
    let mut reader = TextReader::new("abc");
    advance(&mut reader, 2);
    let mut detector = reader.detector();
    detector.rollback();
    assert!(detector.next_text("x").no());
    detector.rollback();
    assert_eq!(0, detector.last_len);
    assert_eq!((2, 1, 2), state(&reader));
}

#[test]
fn rollback_stops_at_the_start() {
    let mut reader = TextReader::new("a\nbc");
    advance(&mut reader, 1);
    let mut detector = reader.detector();
    assert!(detector.next_text("\nb").yes());
    detector.rollback().rollback();
    assert_eq!((0, 1, 0), state(&reader));
}

#[test]
fn failed_probe_keeps_the_length_of_the_match_before() {
    let mut reader = TextReader::new("abab");
    let mut detector = reader.detector();
    assert!(detector.next_text("ab").yes());
    assert_eq!(2, detector.last_len);
    assert!(detector.next_char('x').no());
    assert_eq!(2, detector.last_len);
    detector.rollback();
    assert_eq!((0, 1, 0), state(&reader));
}

#[test]
fn probed_text_can_be_read_again() {
    let text = r#"
{"type": "typeA", "name": "Earth", "continent": ["Asia", "Europe"]}
  "#;
    let mut reader = TextReader::new(text);
    let mut rets = Vec::new();
    while reader.has_next() {
        match reader.next() {
            Some('"') => {
                let mut detector = reader.detector();
                rets.push('"');
                if detector.next_text("type").yes() {
                    detector.rollback();
                    rets.push('t');
                }
            }
            Some(ch) => rets.push(ch),
            None => {}
        }
    }
    let ret = rets.iter().collect::<String>();
    assert_eq!(
        "\n{\"ttype\": \"ttypeA\", \"name\": \"Earth\", \"continent\": [\"Asia\", \"Europe\"]}\n  ",
        ret
    );
}

#[test]
fn probe_without_rollback_consumes_the_match() {
    let mut reader = TextReader::new("\"typeA\"");
    let mut rets = Vec::new();
    while reader.has_next() {
        match reader.next() {
            Some('"') => {
                rets.push('"');
                if reader.detector().next_text("type").yes() {
                    rets.push('t');
                }
            }
            Some(ch) => rets.push(ch),
            None => {}
        }
    }
    assert_eq!("\"tA\"", rets.iter().collect::<String>());
}
