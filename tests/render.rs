use novel_dl::fetch::{fetch_index_page, Reply};
use novel_dl::render::{document_head, Chapter, WriteError};

fn chapter() -> Chapter {
    Chapter { title: "Chapter 1".to_string(), url: "/novel/x/chapter-1".to_string() }
}

fn page(body: &str) -> String {
    format!("<!DOCTYPE html><html><head><title>t</title></head><body><div id=\"chapter-container\">{}</div></body></html>", body)
}

fn ok_reply(html: String) -> Reply {
    Reply::Answered { status: 200, body: Some(html) }
}

#[test]
fn strong_emphasis_is_spaced_as_markdown() {
    let out = chapter().write_chapter(ok_reply(page("<p>Hello <strong>world</strong>!</p>")));
    match out {
        Ok(text) => assert_eq!(text, "## Chapter 1\n\nHello **world** !\n\n"),
        Err(_) => panic!("render failed"),
    }
}

#[test]
fn emphasis_is_wrapped_in_single_stars() {
    let out = chapter().write_chapter(ok_reply(page("<p>A <em> quiet </em> night</p>")));
    match out {
        Ok(text) => assert_eq!(text, "## Chapter 1\n\nA *quiet* night\n\n"),
        Err(_) => panic!("render failed"),
    }
}

#[test]
fn whitespace_only_text_contributes_nothing() {
    let out = chapter().write_chapter(ok_reply(page("<p> \u{3000}\t</p><p>x<em>\u{3000}</em><strong> </strong></p>")));
    match out {
        Ok(text) => assert_eq!(text, "## Chapter 1\n\n\n\nx\n\n"),
        Err(_) => panic!("render failed"),
    }
}

#[test]
fn full_width_space_is_trimmed() {
    let out = chapter().write_chapter(ok_reply(page("<p>\u{3000}\u{3000}Text\u{3000}</p>")));
    match out {
        Ok(text) => assert_eq!(text, "## Chapter 1\n\nText\n\n"),
        Err(_) => panic!("render failed"),
    }
}

#[test]
fn other_markup_is_ignored() {
    let html = page("<h1>Heading</h1><p>One<img src=\"a.png\"><span>skip</span></p><table><tr><td>t</td></tr></table><p>Two</p>");
    match chapter().write_chapter(ok_reply(html)) {
        Ok(text) => assert_eq!(text, "## Chapter 1\n\nOne\n\nTwo\n\n"),
        Err(_) => panic!("render failed"),
    }
}

#[test]
fn missing_body_is_a_protocol_error() {
    let html = "<html><body><div id=\"other\"><p>x</p></div></body></html>".to_string();
    match chapter().write_chapter(ok_reply(html)) {
        Err(WriteError::Protocol(m)) => assert_eq!(m, "/novel/x/chapter-1: Unable to find body #chapter-container"),
        _ => panic!("expected a protocol error"),
    }
}

#[test]
fn failed_status_is_an_http_error() {
    match chapter().write_chapter(Reply::Answered { status: 503, body: None }) {
        Err(WriteError::Http(m)) => assert_eq!(m, "/novel/x/chapter-1: Request failed with code: 503"),
        _ => panic!("expected an http error"),
    }
}

#[test]
fn unreachable_site_is_an_http_error() {
    match chapter().write_chapter(Reply::Unreachable) {
        Err(WriteError::Http(m)) => assert_eq!(m, "www.webnovelpub.com is unreachable"),
        _ => panic!("expected an http error"),
    }
}

#[test]
fn unreadable_body_is_an_http_error() {
    match chapter().write_chapter(Reply::Answered { status: 200, body: None }) {
        Err(WriteError::Http(m)) => assert_eq!(m, "/novel/x/chapter-1: Request got an invalid body"),
        _ => panic!("expected an http error"),
    }
}

#[test]
fn render_page_reads_the_parsed_document() {
    let doc = match fetch_index_page(ok_reply(page("<p><strong>Bold</strong></p>"))) {
        Ok(Some(doc)) => doc,
        _ => panic!("parse failed"),
    };
    match chapter().render_page(&doc) {
        Ok(text) => assert_eq!(text, "## Chapter 1\n\n **Bold** \n\n"),
        Err(_) => panic!("render failed"),
    }
}

#[test]
fn paragraph_tag_case_is_ignored() {
    let doc = novel_dl::dom::Node::Element {
        name: "div".to_string(),
        attrs: vec![novel_dl::dom::Attr { namespace: String::new(), name: "id".to_string(), value: "chapter-container".to_string() }],
        children: vec![novel_dl::dom::Node::Element {
            name: "P".to_string(),
            attrs: vec![],
            children: vec![novel_dl::dom::Node::Text { text: " hi ".chars().collect() }],
        }],
    };
    match chapter().render_page(&doc) {
        Ok(text) => assert_eq!(text, "## Chapter 1\n\nhi\n\n"),
        Err(_) => panic!("render failed"),
    }
}

#[test]
fn document_head_links_to_the_novel() {
    assert_eq!(
        document_head("My Novel", "my-novel-1"),
        "# My Novel\n\nOriginal: https://www.webnovelpub.com/novel/my-novel-1\n\n"
    );
}
