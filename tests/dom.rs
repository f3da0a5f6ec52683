use novel_dl::dom::{attribute, holds_token, same_chars, select_first, Attr, Node, Selector};
use novel_dl::fetch::{fetch_index_page, Reply};

#[test]
fn class_selector_matches_one_word_of_the_class_list() {
    assert!(holds_token("novel-item main", "novel-item"));
    assert!(holds_token("a\tnovel-item", "novel-item"));
    assert!(!holds_token("novel-items", "novel-item"));
    assert!(!holds_token("", "x"));
    assert!(!holds_token("x", ""));
}

#[test]
fn attributes_are_found_by_name() {
    let attrs = vec![
        Attr { namespace: String::new(), name: "href".to_string(), value: "/a".to_string() },
        Attr { namespace: "http://www.w3.org/1999/xlink".to_string(), name: "id".to_string(), value: "x".to_string() },
        Attr { namespace: String::new(), name: "title".to_string(), value: "T".to_string() },
    ];
    assert_eq!(attribute(&attrs, "title").map(|s| s.as_str()), Some("T"));
    assert_eq!(attribute(&attrs, "id"), None);
    assert!(same_chars("abc", "abc"));
    assert!(!same_chars("abc", "abd"));
}

#[test]
fn parsed_document_is_searched_in_document_order() {
    let html = "<div id=\"a\"><span class=\"k\">first</span></div><span class=\"k\">second</span>".to_string();
    let doc = match fetch_index_page(Reply::Answered { status: 200, body: Some(html) }) {
        Ok(Some(doc)) => doc,
        _ => panic!("parse failed"),
    };
    match select_first(&doc, &Selector::Class("k")) {
        Some(Node::Element { children, .. }) => match &children[0] {
            Node::Text { text } => assert_eq!(text.iter().collect::<String>(), "first"),
            _ => panic!("expected text"),
        },
        _ => panic!("expected an element"),
    }
    assert!(select_first(&doc, &Selector::Id("a")).is_some());
    assert!(select_first(&doc, &Selector::Id("b")).is_none());
    assert!(select_first(&doc, &Selector::Tag("span")).is_some());
}
