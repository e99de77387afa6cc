use logo_fractal::scope::Scope;
use logo_fractal::text::same_text;

#[test]
fn empty_scope_binds_nothing() {
    let s: Scope<i32> = Scope::new();
    assert_eq!(s.get("x"), None);
}

#[test]
fn read_after_bind() {
    let mut s = Scope::new();
    s.insert("size".to_string(), 10);
    s.insert("sign".to_string(), -1);
    assert_eq!(s.get("size"), Some(&10));
    assert_eq!(s.get("sign"), Some(&-1));
    s.insert("size".to_string(), 5);
    assert_eq!(s.get("size"), Some(&5));
    assert_eq!(s.get("sign"), Some(&-1));
    assert_eq!(s.get("repcount"), None);
}

#[test]
fn clone_is_independent() {
    let mut s = Scope::new();
    s.insert("a".to_string(), 1);
    let mut t = s.clone();
    t.insert("a".to_string(), 2);
    t.insert("b".to_string(), 3);
    assert_eq!(s.get("a"), Some(&1));
    assert_eq!(s.get("b"), None);
    assert_eq!(t.get("a"), Some(&2));
    assert_eq!(t.get("b"), Some(&3));
}

#[test]
fn bind_all_binds_parameters_in_order() {
    let mut s = Scope::new();
    s.insert("x".to_string(), 0);
    s.insert("y".to_string(), 7);
    let names = vec!["x".to_string(), "z".to_string(), "x".to_string()];
    s.bind_all(&names, vec![1, 2, 3]);
    assert_eq!(s.get("x"), Some(&3));
    assert_eq!(s.get("z"), Some(&2));
    assert_eq!(s.get("y"), Some(&7));
}

#[test]
fn from_pairs_keeps_last_value_of_a_name() {
    let s = Scope::from_pairs(vec![
        ("star".to_string(), 1),
        ("tree".to_string(), 2),
        ("star".to_string(), 3),
    ]);
    assert_eq!(s.get("star"), Some(&3));
    assert_eq!(s.get("tree"), Some(&2));
    assert_eq!(s.get("fern"), None);
}

#[test]
fn same_text_compares_characters() {
    assert!(same_text("fd", "fd"));
    assert!(!same_text("fd", "f"));
    assert!(!same_text("fd", "fe"));
    assert!(same_text("", ""));
    assert!(!same_text("za\u{17c}", "zaz"));
}
