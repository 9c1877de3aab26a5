use lox::interner::StringInterner;
use std::sync::Arc;

#[test]
fn test_new_interner() {
    let interner = StringInterner::new();
    assert_eq!(interner.len(), 0);
    assert!(interner.is_empty());
}

#[test]
fn test_default_interner() {
    let interner = StringInterner::default();
    assert_eq!(interner.len(), 0);
    assert!(interner.is_empty());
}

#[test]
fn test_intern_single_string() {
    let mut interner = StringInterner::new();
    let result = interner.intern("hello");

    assert_eq!(result.as_ref(), "hello");
    assert_eq!(interner.len(), 1);
    assert!(!interner.is_empty());
}

#[test]
fn test_intern_duplicate_strings() {
    let mut interner = StringInterner::new();
    let first = interner.intern("hello");
    let second = interner.intern("hello");

    assert_eq!(first, second);
    assert_eq!(Arc::as_ptr(&first), Arc::as_ptr(&second));
    assert_eq!(interner.len(), 1);
}

#[test]
fn test_intern_multiple_different_strings() {
    let mut interner = StringInterner::new();
    let hello = interner.intern("hello");
    let world = interner.intern("world");
    let foo = interner.intern("foo");

    assert_eq!(hello.as_ref(), "hello");
    assert_eq!(world.as_ref(), "world");
    assert_eq!(foo.as_ref(), "foo");
    assert_eq!(interner.len(), 3);
    assert!(!interner.is_empty());
}

#[test]
fn test_intern_string_method() {
    let mut interner = StringInterner::new();
    let owned_string = "hello".to_string();
    let result = interner.intern_string(owned_string);

    assert_eq!(result.as_ref(), "hello");
    assert_eq!(interner.len(), 1);
}

#[test]
fn test_intern_string_vs_intern_consistency() {
    let mut interner = StringInterner::new();
    let from_str = interner.intern("hello");
    let from_string = interner.intern_string("hello".to_string());

    assert_eq!(from_str, from_string);
    assert_eq!(Arc::as_ptr(&from_str), Arc::as_ptr(&from_string));
    assert_eq!(interner.len(), 1);
}

#[test]
fn test_clear_interner() {
    let mut interner = StringInterner::new();
    interner.intern("hello");
    interner.intern("world");

    assert_eq!(interner.len(), 2);
    assert!(!interner.is_empty());

    interner.clear();

    assert_eq!(interner.len(), 0);
    assert!(interner.is_empty());
}

#[test]
fn test_intern_empty_string() {
    let mut interner = StringInterner::new();
    let empty = interner.intern("");

    assert_eq!(empty.as_ref(), "");
    assert_eq!(interner.len(), 1);
}

#[test]
fn test_intern_unicode_strings() {
    let mut interner = StringInterner::new();
    let emoji = interner.intern("🦀");
    let chinese = interner.intern("你好");
    let accented = interner.intern("café");

    assert_eq!(emoji.as_ref(), "🦀");
    assert_eq!(chinese.as_ref(), "你好");
    assert_eq!(accented.as_ref(), "café");
    assert_eq!(interner.len(), 3);
}

#[test]
fn test_clone_interner() {
    let mut interner1 = StringInterner::new();
    interner1.intern("hello");
    interner1.intern("world");

    let interner2 = interner1.clone();

    assert_eq!(interner1.len(), interner2.len());
    assert_eq!(interner1.len(), 2);

    let mut interner3 = interner2.clone();
    interner3.intern("new");

    assert_eq!(interner1.len(), 2);
    assert_eq!(interner2.len(), 2);
    assert_eq!(interner3.len(), 3);
}

#[test]
fn test_debug_format() {
    let mut interner = StringInterner::new();
    interner.intern("test");

    let debug_str = format!("{:?}", interner);
    assert!(debug_str.contains("StringInterner"));
}

#[test]
fn test_intern_long_string() {
    let mut interner = StringInterner::new();
    let long_string = "a".repeat(1000);
    let result = interner.intern(&long_string);

    assert_eq!(result.len(), 1000);
    assert_eq!(interner.len(), 1);

    let result2 = interner.intern(&long_string);
    assert_eq!(Arc::as_ptr(&result), Arc::as_ptr(&result2));
    assert_eq!(interner.len(), 1);
}

#[test]
fn test_intern_whitespace_strings() {
    let mut interner = StringInterner::new();
    let space = interner.intern(" ");
    let tab = interner.intern("\t");
    let newline = interner.intern("\n");
    let multiple_spaces = interner.intern("   ");

    assert_eq!(space.as_ref(), " ");
    assert_eq!(tab.as_ref(), "\t");
    assert_eq!(newline.as_ref(), "\n");
    assert_eq!(multiple_spaces.as_ref(), "   ");
    assert_eq!(interner.len(), 4);
}

#[test]
fn intern_law_same_text_same_count() {
    let mut interner = StringInterner::new();
    interner.intern("a");
    let before = interner.len();
    interner.intern("a");
    assert_eq!(interner.len(), before);
    interner.intern("b");
    assert_eq!(interner.len(), before + 1);
}

#[test]
fn len_counts_texts_interned_since_last_clear() {
    let mut interner = StringInterner::new();
    interner.intern("a");
    interner.intern("b");
    interner.intern("a");
    assert_eq!(interner.len(), 2);
    let mut copy = interner.clone();
    interner.clear();
    interner.intern("c");
    interner.intern_string("c".to_string());
    assert_eq!(interner.len(), 1);
    copy.intern("d");
    assert_eq!(copy.len(), 3);
    assert_eq!(interner.len(), 1);
}
