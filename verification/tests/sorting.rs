use ditto::coverage::sort_by_length_then_text;
use ditto::text::{sort_by_text, str_less_than, text_before_exec};

#[test]
fn it_orders_texts_by_character() {
    assert!(str_less_than(&"a".to_string(), &"b".to_string()));
    assert!(str_less_than(&"a".to_string(), &"ab".to_string()));
    assert!(!str_less_than(&"ab".to_string(), &"a".to_string()));
    assert!(!str_less_than(&"a".to_string(), &"a".to_string()));
    assert!(str_less_than(&"B".to_string(), &"a".to_string()));
    assert!(text_before_exec(true, "z", "aa"));
    assert!(!text_before_exec(false, "z", "aa"));
}

#[test]
fn it_sorts_by_text() {
    let mut v: Vec<String> = ["foo", "bar", "Baz", "ba", "foo"].iter().map(|s| s.to_string()).collect();
    sort_by_text(false, &mut v);
    assert_eq!(v, vec!["Baz", "ba", "bar", "foo", "foo"]);
}

#[test]
fn it_sorts_by_length_then_text() {
    let mut v: Vec<String> = ["Just(_)", "None", "Ok(_)", "Err(_)"].iter().map(|s| s.to_string()).collect();
    sort_by_length_then_text(&mut v);
    assert_eq!(v, vec!["None", "Ok(_)", "Err(_)", "Just(_)"]);
}
