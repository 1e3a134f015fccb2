use petrify::skip::contains_sub;
use petrify::translator::CallStack;

#[test]
fn stack_push_pop_peek() {
    let mut s: CallStack<usize> = CallStack::new();
    assert!(s.is_empty());
    assert_eq!(s.peek(), None);
    assert_eq!(s.pop(), None);
    s.push(3);
    s.push(7);
    assert!(!s.is_empty());
    assert_eq!(s.peek(), Some(&7));
    assert!(s.contains(3));
    assert!(s.contains(7));
    assert!(!s.contains(4));
    assert_eq!(s.pop(), Some(7));
    assert_eq!(s.peek(), Some(&3));
    assert_eq!(s.pop(), Some(3));
    assert!(s.is_empty());
}

#[test]
fn substring_search() {
    let hay = "std::rt::begin_panic_fmt::<i32>".as_bytes().to_vec();
    assert!(contains_sub(&hay, "std::rt::begin_panic_fmt".as_bytes()));
    assert!(contains_sub(&hay, "".as_bytes()));
    assert!(contains_sub(&hay, "<i32>".as_bytes()));
    assert!(!contains_sub(&hay, "std::panicking::panicking".as_bytes()));
    let short = "ab".as_bytes().to_vec();
    assert!(!contains_sub(&short, "abc".as_bytes()));
    assert!(contains_sub(&short, "ab".as_bytes()));
}
