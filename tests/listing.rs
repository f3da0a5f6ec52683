use novel_dl::dom::Node;
use novel_dl::fetch::{fetch_index_page, FetchError, Reply};
use novel_dl::listing::{ChapterList, InitError, Step};

fn entries(items: &[(&str, &str)]) -> String {
    let mut s = String::new();
    for (title, href) in items {
        s.push_str(&format!("\n<li class=\"chapter\"><a title=\"{}\" href=\"{}\"><span>x</span></a></li>", title, href));
    }
    s
}

fn listing_page(items: &[(&str, &str)]) -> String {
    format!(
        "<!DOCTYPE html><html><body><div class=\"novel-item main\"><h1><a title=\"My Novel\" href=\"/novel/my\">My Novel</a></h1></div>\n<ul class=\"chapter-list\">{}\n</ul></body></html>",
        entries(items)
    )
}

fn page(html: String) -> Result<Option<Node>, FetchError> {
    fetch_index_page(Reply::Answered { status: 200, body: Some(html) })
}

fn missing() -> Result<Option<Node>, FetchError> {
    fetch_index_page(Reply::Answered { status: 404, body: None })
}

fn titles(list: &[novel_dl::render::Chapter]) -> Vec<(String, String)> {
    list.iter().map(|c| (c.title.clone(), c.url.clone())).collect()
}

fn open(first: &str) -> ChapterList {
    match ChapterList::new("my-novel".to_string(), page(first.to_string())) {
        Ok(list) => list,
        Err(e) => panic!("open failed: {:?}", e),
    }
}

#[test]
fn listing_yields_every_entry_of_every_page_in_order() {
    let mut list = open(&listing_page(&[("C1", "/c1"), ("C2", "/c2")]));
    assert_eq!(list.proper_title, "My Novel");
    let later = vec![
        page(listing_page(&[("C3", "/c3"), ("C4", "/c4"), ("C5", "/c5")])),
        page(listing_page(&[("C6", "/c6")])),
        missing(),
    ];
    let got = titles(&list.iter.drain(later));
    let want: Vec<(String, String)> = (1..=6).map(|i| (format!("C{}", i), format!("/c{}", i))).collect();
    assert_eq!(got, want);
}

#[test]
fn iterator_asks_for_the_next_page_then_ends_on_missing() {
    let mut list = open(&listing_page(&[("C1", "/c1")]));
    match list.iter.advance() {
        Step::Chapter(c) => assert_eq!(c.title, "C1"),
        _ => panic!("expected a chapter"),
    }
    match list.iter.advance() {
        Step::NeedPage(n) => assert_eq!(n, 2),
        _ => panic!("expected a page request"),
    }
    list.iter.receive_page(missing());
    assert!(matches!(list.iter.advance(), Step::End));
    assert!(matches!(list.iter.advance(), Step::End));
}

#[test]
fn reopening_reproduces_the_same_listing() {
    let first = listing_page(&[("C1", "/c1"), ("C2", "/c2")]);
    let second = listing_page(&[("C3", "/c3")]);
    let mut a = open(&first);
    let ra = titles(&a.iter.drain(vec![page(second.clone())]));
    let mut b = open(&first);
    let rb = titles(&b.iter.drain(vec![page(second.clone())]));
    assert_eq!(ra.len(), 3);
    assert_eq!(ra, rb);
    assert_eq!(a.proper_title, b.proper_title);
}

#[test]
fn link_without_href_ends_the_listing() {
    let html = "<html><body><div class=\"novel-item\"><a title=\"N\">N</a></div><ul class=\"chapter-list\"><li><a title=\"C1\" href=\"/c1\">1</a></li><li><a title=\"C2\">2</a></li><li><a title=\"C3\" href=\"/c3\">3</a></li></ul></body></html>";
    let mut list = open(html);
    let got = titles(&list.iter.drain(vec![page(listing_page(&[("C9", "/c9")]))]));
    assert_eq!(got, vec![("C1".to_string(), "/c1".to_string())]);
}

#[test]
fn entries_without_links_are_skipped() {
    let html = "<html><body><div class=\"novel-item\"><a title=\"N\">N</a></div><ul class=\"chapter-list\"><li>no link</li><li><a title=\"C1\" href=\"/c1\">1</a></li></ul></body></html>";
    let mut list = open(html);
    let got = titles(&list.iter.drain(vec![]));
    assert_eq!(got, vec![("C1".to_string(), "/c1".to_string())]);
}

#[test]
fn failed_later_page_ends_the_listing() {
    let mut list = open(&listing_page(&[("C1", "/c1")]));
    let later = vec![
        fetch_index_page(Reply::Answered { status: 500, body: None }),
        page(listing_page(&[("C2", "/c2")])),
    ];
    assert_eq!(titles(&list.iter.drain(later)).len(), 1);
}

#[test]
fn later_page_without_chapter_list_ends_the_listing() {
    let mut list = open(&listing_page(&[("C1", "/c1")]));
    let later = vec![page("<html><body><p>nothing</p></body></html>".to_string())];
    assert_eq!(titles(&list.iter.drain(later)).len(), 1);
}

#[test]
fn missing_first_page_is_unavailable() {
    let r = ChapterList::new("x".to_string(), missing());
    assert!(matches!(r, Err(InitError::PageUnavailable(None))));
    let r = ChapterList::new("x".to_string(), fetch_index_page(Reply::Unreachable));
    assert!(matches!(r, Err(InitError::PageUnavailable(Some(FetchError::Unreachable)))));
}

#[test]
fn missing_title_parts_are_named() {
    let no_container = "<html><body><ul class=\"chapter-list\"></ul></body></html>";
    let no_anchor = "<html><body><div class=\"novel-item\"><span>x</span></div><ul class=\"chapter-list\"></ul></body></html>";
    let no_attr = "<html><body><div class=\"novel-item\"><a href=\"/n\">x</a></div><ul class=\"chapter-list\"></ul></body></html>";
    let no_list = "<html><body><div class=\"novel-item\"><a title=\"N\">x</a></div></body></html>";
    let r = |h: &str| ChapterList::new("x".to_string(), page(h.to_string())).err();
    assert_eq!(r(no_container), Some(InitError::TitleContainerMissing));
    assert_eq!(r(no_anchor), Some(InitError::TitleAnchorMissing));
    assert_eq!(r(no_attr), Some(InitError::TitleAttributeMissing));
    assert_eq!(r(no_list), Some(InitError::ChapterListContainerMissing));
}

#[test]
fn index_replies_are_classified() {
    assert!(matches!(missing(), Ok(None)));
    assert!(matches!(fetch_index_page(Reply::Answered { status: 503, body: None }), Err(FetchError::UnexpectedStatus(503))));
    assert!(matches!(fetch_index_page(Reply::Answered { status: 200, body: None }), Err(FetchError::InvalidBody)));
    assert!(matches!(fetch_index_page(Reply::Unreachable), Err(FetchError::Unreachable)));
    assert!(matches!(page("<p>x</p>".to_string()), Ok(Some(_))));
}

#[test]
fn link_with_empty_title_or_href_ends_the_listing() {
    let html = "<html><body><div class=\"novel-item\"><a title=\"N\">N</a></div><ul class=\"chapter-list\"><li><a title=\"C1\" href=\"/c1\">1</a></li><li><a title=\"\" href=\"/c2\">2</a></li><li><a title=\"C3\" href=\"/c3\">3</a></li></ul></body></html>";
    let mut list = open(html);
    assert_eq!(titles(&list.iter.drain(vec![])).len(), 1);
    let html = "<html><body><div class=\"novel-item\"><a title=\"N\">N</a></div><ul class=\"chapter-list\"><li><a title=\"C1\" href=\"\">1</a></li></ul></body></html>";
    let mut list = open(html);
    assert_eq!(titles(&list.iter.drain(vec![])).len(), 0);
}

#[test]
fn listing_keeps_the_novel_identifier() {
    let list = open(&listing_page(&[("C1", "/c1")]));
    assert_eq!(list.iter.novel_id(), "my-novel");
}
