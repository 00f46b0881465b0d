use cssparser::{merge, ParserCursor, Span, Spanned, SpannedResult};

fn cursor(src: &str) -> ParserCursor<char> {
    ParserCursor::new(src.chars().collect())
}

#[test]
fn peek_does_not_consume_and_next_does() {
    let mut c = cursor("ab");
    assert_eq!(c.peek().unwrap().node, 'a');
    assert_eq!(c.position(), 0);
    let got = c.next().unwrap();
    assert_eq!(got.node, 'a');
    assert_eq!(got.span, Span { start: 0, end: 1 });
    assert_eq!(c.position(), 1);
    assert_eq!(c.next().unwrap().node, 'b');
    assert!(c.next().is_none());
    assert!(c.is_eof());
}

#[test]
fn take_consumes_exactly_n_or_nothing() {
    let mut c = cursor("hello");
    let got = c.take(3).unwrap();
    assert_eq!(got.node, vec!['h', 'e', 'l']);
    assert_eq!(got.span, Span { start: 0, end: 3 });
    assert_eq!(c.position(), 3);
    assert!(c.take(5).is_none());
    assert_eq!(c.position(), 3);
    assert_eq!(c.take(2).unwrap().node, vec!['l', 'o']);
}

#[test]
fn take_while_stops_at_first_rejection() {
    let mut c = cursor("aaab");
    let got = c.take_while(|ch: char, _seen: &Vec<char>| ch == 'a');
    assert_eq!(got.node, vec!['a', 'a', 'a']);
    assert_eq!(got.span, Span { start: 0, end: 3 });
    assert_eq!(c.position(), 3);
}

#[test]
fn take_while_predicate_sees_the_matched_run() {
    // Stop after three elements: the predicate reads the run so far.
    let mut c = cursor("xxxxxx");
    let got = c.take_while(|_ch: char, seen: &Vec<char>| seen.len() < 3);
    assert_eq!(got.node.len(), 3);
    assert_eq!(c.position(), 3);
}

#[test]
fn take_until_stops_at_first_acceptance() {
    let mut c = cursor("abc;def");
    let got = c.take_until(|ch: char, _seen: &Vec<char>| ch == ';');
    assert_eq!(got.node, vec!['a', 'b', 'c']);
    assert_eq!(c.position(), 3);
    assert_eq!(c.peek().unwrap().node, ';');
}

#[test]
fn peek_while_never_moves_the_cursor() {
    let c = cursor("aab");
    let got = c.peek_while(|ch: char, _seen: &Vec<char>| ch == 'a');
    assert_eq!(got.node, vec!['a', 'a']);
    assert_eq!(c.position(), 0);
    let got = c.peek_until(|ch: char, _seen: &Vec<char>| ch == 'b');
    assert_eq!(got.node, vec!['a', 'a']);
    assert_eq!(c.position(), 0);
}

#[test]
fn scanners_never_read_past_the_end() {
    let mut c = cursor("aa");
    let got = c.take_while(|_ch: char, _seen: &Vec<char>| true);
    assert_eq!(got.span, Span { start: 0, end: 2 });
    assert!(c.is_eof());
}

#[test]
fn set_position_restores_an_exact_position() {
    let mut c = cursor("abcd");
    c.advance(3);
    assert_eq!(c.position(), 3);
    c.set_position(1);
    assert_eq!(c.next().unwrap().node, 'b');
}

#[test]
fn span_is_one_element_at_the_current_position() {
    let mut c = cursor("ab");
    assert_eq!(c.span(), Span { start: 0, end: 1 });
    c.advance(2);
    // Past the end of input: the legal end-of-file placeholder.
    assert_eq!(c.span(), Span { start: 2, end: 3 });
}

#[test]
fn catch_parse_rolls_back_on_failure_only() {
    let c = cursor("abc");
    let (c, r) = c.catch_parse(|mut inner: ParserCursor<char>| {
        inner.advance(2);
        let out: SpannedResult<(), ()> = Err(Spanned::new((), Span { start: 0, end: 1 }));
        (inner, out)
    });
    assert!(r.is_err());
    assert_eq!(c.position(), 0);
    let (c, r) = c.catch_parse(|mut inner: ParserCursor<char>| {
        inner.advance(2);
        let out: SpannedResult<(), ()> = Ok(Spanned::new((), Span { start: 0, end: 2 }));
        (inner, out)
    });
    assert!(r.is_ok());
    assert_eq!(c.position(), 2);
}

#[test]
fn try_parse_rolls_back_on_no_match() {
    let c = cursor("abc");
    let (c, r) = c.try_parse(|mut inner: ParserCursor<char>| {
        inner.advance(1);
        let out: Option<Spanned<()>> = None;
        (inner, out)
    });
    assert!(r.is_none());
    assert_eq!(c.position(), 0);
    let (c, r) = c.try_parse(|mut inner: ParserCursor<char>| {
        inner.advance(1);
        (inner, Some(Spanned::new((), Span { start: 0, end: 1 })))
    });
    assert!(r.is_some());
    assert_eq!(c.position(), 1);
}

#[test]
fn merge_covers_both_spans_in_either_order() {
    let a = Span { start: 2, end: 5 };
    let b = Span { start: 1, end: 3 };
    assert_eq!(merge(&a, &b), Span { start: 1, end: 5 });
    assert_eq!(merge(&b, &a), Span { start: 1, end: 5 });
}

#[test]
fn spanned_map_keeps_the_span() {
    let sp = Spanned::new(21u32, Span { start: 3, end: 7 });
    let got = sp.map(|v| v * 2);
    assert_eq!(got.node, 42);
    assert_eq!(got.span, Span { start: 3, end: 7 });
}

#[test]
fn spanned_map_span_keeps_the_value() {
    let sp = Spanned::new('x', Span { start: 3, end: 7 });
    let got = sp.map_span(|s| Span { start: s.start + 1, end: s.end + 1 });
    assert_eq!(got.node, 'x');
    assert_eq!(got.span, Span { start: 4, end: 8 });
}

#[test]
fn spanned_merge_with_span_widens() {
    let sp = Spanned::new((), Span { start: 4, end: 6 });
    let got = sp.merge_with_span(Span { start: 1, end: 5 });
    assert_eq!(got.span, Span { start: 1, end: 6 });
}

#[test]
fn spanned_merge_pairs_values_under_covering_span() {
    let a = Spanned::new(1u8, Span { start: 0, end: 2 });
    let b = Spanned::new('b', Span { start: 5, end: 6 });
    let got = a.merge(b);
    assert_eq!(got.node, (1u8, 'b'));
    assert_eq!(got.span, Span { start: 0, end: 6 });
}
