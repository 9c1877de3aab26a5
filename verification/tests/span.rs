use lox::span::Span;

#[test]
fn span_new_and_getters() {
    let span = Span::new(3, 10, 4);
    assert_eq!(span.line(), 3);
    assert_eq!(span.offset(), 10);
    assert_eq!(span.len(), 4);
    assert_eq!(Span::from_triple((3, 10, 4)), span);
}
