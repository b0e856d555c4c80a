use prettyget::stream::{commit, process_acc, LineSplitter};

fn texts(v: &[prettyget::stream::OutputLine]) -> Vec<(String, bool)> {
    v.iter().map(|l| (l.text.clone(), l.transient)).collect()
}

#[test]
fn lines_and_progress_updates() {
    let mut acc: Vec<char> = "one\ntwo\r\n  50%\rthree".chars().collect();
    let out = process_acc(&mut acc, false);
    assert_eq!(
        texts(&out),
        vec![("one".to_string(), false), ("two".to_string(), false), ("  50%".to_string(), true)]
    );
    assert_eq!(acc.iter().collect::<String>(), "three");
    let out = process_acc(&mut acc, true);
    assert_eq!(texts(&out), vec![("three".to_string(), false)]);
    assert!(acc.is_empty());
}

#[test]
fn trailing_carriage_return_waits_for_more() {
    let mut acc: Vec<char> = "abc\r".chars().collect();
    assert!(process_acc(&mut acc, false).is_empty());
    assert_eq!(acc.len(), 4);
    let out = process_acc(&mut acc, true);
    assert_eq!(texts(&out), vec![("abc".to_string(), true)]);
}

#[test]
fn chunks_split_inside_crlf_give_the_same_lines() {
    let mut s = LineSplitter::new();
    let a = s.feed(b"first\r");
    assert!(a.is_empty());
    let b = s.feed(b"\nsecond\n");
    assert_eq!(texts(&b), vec![("first".to_string(), false), ("second".to_string(), false)]);
    assert!(s.finish().is_empty());

    let mut whole = LineSplitter::new();
    let w = whole.feed(b"first\r\nsecond\n");
    assert_eq!(texts(&w), texts(&b));
}

#[test]
fn blank_and_colour_only_lines_are_not_shown() {
    let raw: Vec<char> = "\u{1b}[32m  \u{1b}[0m".chars().collect();
    assert!(commit(&raw, false).is_none());
    let raw: Vec<char> = "\u{1b}[32mDone\u{1b}[0m   ".chars().collect();
    let l = commit(&raw, true).unwrap();
    assert_eq!(l.text, "Done");
    assert!(l.transient);
    let raw: Vec<char> = "  indented  ".chars().collect();
    assert_eq!(commit(&raw, false).unwrap().text, "  indented");
}

#[test]
fn finish_flushes_last_line() {
    let mut s = LineSplitter::new();
    assert!(s.feed(b"no newline").is_empty());
    let out = s.finish();
    assert_eq!(texts(&out), vec![("no newline".to_string(), false)]);
}

#[test]
fn only_line_breaks_are_lost() {
    let input = "a1\r\nb2\rc3\n\nd4\re5";
    let mut acc: Vec<char> = input.chars().collect();
    let mut out = process_acc(&mut acc, false);
    let pending: String = acc.iter().collect();
    assert_eq!(pending, "e5");
    out.extend(process_acc(&mut acc, true));
    let joined: String = out.iter().map(|l| l.text.clone()).collect();
    let expected: String = input.chars().filter(|c| *c != '\r' && *c != '\n').collect();
    assert_eq!(joined, expected);
    assert!(out.iter().all(|l| !l.text.contains('\r') && !l.text.contains('\n')));
}

#[test]
fn any_byte_chunking_gives_the_same_lines() {
    let whole = "añb\r\n50% ✓\rdone 😀\nlast";
    let mut one = LineSplitter::new();
    let mut expected = texts(&one.feed(whole.as_bytes()));
    expected.extend(texts(&one.finish()));
    let cuts: Vec<usize> = whole.char_indices().map(|(i, _)| i).collect();
    for step in 1..5 {
        let mut s = LineSplitter::new();
        let mut got = Vec::new();
        let mut start = 0;
        for k in (step..cuts.len()).step_by(step) {
            got.extend(texts(&s.feed(whole[start..cuts[k]].as_bytes())));
            start = cuts[k];
        }
        got.extend(texts(&s.feed(whole[start..].as_bytes())));
        got.extend(texts(&s.finish()));
        assert_eq!(got, expected);
    }
}
