use rift_bus::sorted::{insert_sorted_distinct, lex_order};

fn chars(s: &str) -> Vec<char> {
    s.chars().collect()
}

#[test]
fn insert_keeps_sorted_and_distinct() {
    let mut v: Vec<String> = Vec::new();
    for s in ["pty", "fs", "hook", "fs", "agent", "pty"] {
        insert_sorted_distinct(&mut v, &chars(s));
    }
    assert_eq!(v, vec!["agent", "fs", "hook", "pty"]);
}

#[test]
fn lex_order_is_by_code_point_then_length() {
    assert!(lex_order(&chars("a"), &chars("b")) < 0);
    assert!(lex_order(&chars("b"), &chars("a")) > 0);
    assert_eq!(lex_order(&chars("same"), &chars("same")), 0);
    assert!(lex_order(&chars("ab"), &chars("abc")) < 0);
    assert!(lex_order(&chars("Z"), &chars("a")) < 0);
}
