use novel_dl::text::{construct_file_path, file_name, file_name_char};
use novel_dl::fetch::{chapter_url, index_url};

#[test]
fn title_is_sanitized_for_the_file_name() {
    assert_eq!(file_name("The Great Novel: Part I"), "The_Great_Novel_Part_I.md");
}

#[test]
fn file_name_keeps_non_ascii_letters() {
    assert_eq!(file_name("Überfall! 2"), "Überfall_2.md");
}

#[test]
fn file_path_is_in_the_directory() {
    assert_eq!(construct_file_path(".", "A-B c"), "./AB_c.md");
}

#[test]
fn file_path_adds_no_separator_where_none_is_needed() {
    assert_eq!(construct_file_path("", "Name"), "Name.md");
    assert_eq!(construct_file_path("out/", "Name"), "out/Name.md");
    assert_eq!(construct_file_path("out", "Name"), "out/Name.md");
}

#[test]
fn listing_address_has_the_page_number() {
    assert_eq!(index_url("the-novel-1", 1), "https://www.webnovelpub.com/novel/the-novel-1/chapters/page-1");
    assert_eq!(index_url("n", 120), "https://www.webnovelpub.com/novel/n/chapters/page-120");
    assert_eq!(index_url("n", 0), "https://www.webnovelpub.com/novel/n/chapters/page-0");
}

#[test]
fn chapter_address_is_on_the_site() {
    assert_eq!(chapter_url("/novel/n/chapter-3"), "https://www.webnovelpub.com/novel/n/chapter-3");
}

#[test]
fn title_characters_are_kept_replaced_or_dropped() {
    assert_eq!(file_name_char('a', true, false), Some('a'));
    assert_eq!(file_name_char(' ', false, true), Some('_'));
    assert_eq!(file_name_char(':', false, false), None);
}
