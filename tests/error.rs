use yarte_codegen::error::{
    order_by_start, window, Config, Detail, Emitter, EmitterConfig, Empty, ErrorMessage, KiError,
    LexError, Span, Window,
};

#[test]
fn detail_texts() {
    assert_eq!(Detail::empty().to_string(), "Empty");
    assert_eq!(Detail::uncompleted().to_string(), "Uncompleted");
    assert_eq!(Detail::path().to_string(), "Path");
    assert_eq!(Detail::whitespace().to_string(), "Whitespace");
    assert_eq!(Detail::str("bar").to_string(), "bar");
    assert_eq!(Detail::char('ñ').to_string(), "ñ");
    assert_eq!(Detail::string("foó".to_string()).to_string(), "foó");
    assert_eq!(Empty::str("x").to_string(), "Empty");
}

#[test]
fn lex_errors_keep_message_and_span() {
    let m = ErrorMessage::from_lex(LexError::Next(Empty, Span { lo: 10, hi: 14 }));
    assert_eq!(m.span, Span { lo: 10, hi: 14 });
    assert_eq!(m.message, Empty);
    let f = ErrorMessage::from_lex(LexError::Fail(Detail::char('a'), Span { lo: 5, hi: 19 }));
    assert_eq!(f.span.hi, 19);
    assert_eq!(f.message.to_string(), "a");
}

#[test]
fn sources_by_path() {
    let who = EmitterConfig {
        sources: vec![
            ("foo.hbs".to_string(), "foó bañ tuú foú".to_string()),
            ("bar.hbs".to_string(), "bar".to_string()),
            ("foo.hbs".to_string(), "second".to_string()),
        ],
        config: Config { color: false, prefix: None },
    };
    assert_eq!(who.get("foo.hbs"), Some("foó bañ tuú foú"));
    assert_eq!(who.get("bar.hbs"), Some("bar"));
    assert_eq!(who.get("baz.hbs"), None);
    assert_eq!(who.get("foo.hb"), None);
    assert!(!who.config().color);
}

fn chars_of(s: &str) -> Vec<char> {
    s.chars().collect()
}

#[test]
fn window_of_a_span_on_one_line() {
    let src = "foó bañ tuú foú";
    let text = chars_of(src);
    let (lo, hi) = (src[..10].chars().count(), src[..14].chars().count());
    assert_eq!((lo, hi), (8, 11));
    let w = window(&text, lo, hi);
    assert_eq!(w, Window { start: 0, end: 15, line: 1, lo: 8, hi: 11 });
}

#[test]
fn window_of_a_span_over_lines() {
    let src = "foó bañ \ntuú\n foú";
    let text = chars_of(src);
    let (lo, hi) = (src[..5].chars().count(), src[..19].chars().count());
    let w = window(&text, lo, hi);
    assert_eq!(w, Window { start: 0, end: 17, line: 1, lo: 4, hi: 16 });
    let w = window(&text, 10, 11);
    assert_eq!(w, Window { start: 9, end: 12, line: 2, lo: 1, hi: 2 });
    let w = window(&text, 13, 17);
    assert_eq!(w, Window { start: 13, end: 17, line: 3, lo: 0, hi: 4 });
}

#[test]
fn window_of_an_empty_text() {
    assert_eq!(window(&vec![], 0, 0), Window { start: 0, end: 0, line: 1, lo: 0, hi: 0 });
}

#[test]
fn errors_are_ordered_by_start() {
    let spans = vec![
        Span { lo: 9, hi: 10 },
        Span { lo: 2, hi: 3 },
        Span { lo: 9, hi: 12 },
        Span { lo: 0, hi: 1 },
        Span { lo: 2, hi: 2 },
    ];
    assert_eq!(order_by_start(&spans), vec![3, 1, 4, 0, 2]);
    assert_eq!(order_by_start(&vec![]), Vec::<usize>::new());
}

#[test]
fn lex_error_converts_through_from() {
    let m: ErrorMessage<Detail> = LexError::Fail(Detail::path(), Span { lo: 1, hi: 2 }).into();
    assert_eq!(m.span, Span { lo: 1, hi: 2 });
    assert_eq!(m.message.to_string(), "Path");
    let n = ErrorMessage::from(LexError::Next(Empty, Span { lo: 3, hi: 4 }));
    assert_eq!(n.span.lo, 3);
}
