use wikipedia2jpdb::filtering::{clean_texts, filter_ascii, filter_noise, filter_other, is_ignored};
use wikipedia2jpdb::json::Json;
use wikipedia2jpdb::wikipage::WikiPage;

fn s(t: &str) -> Json {
    Json::String(t.to_string())
}

fn obj(entries: Vec<(&str, Json)>) -> Json {
    Json::Object(entries.into_iter().map(|(k, v)| (k.to_string(), v)).collect())
}

fn linked_answer(list: &str) -> Json {
    obj(vec![(
        "query",
        obj(vec![(
            "pages",
            obj(vec![(
                "42",
                obj(vec![
                    ("title", s("自転車")),
                    (list, Json::Array(vec![obj(vec![("title", s("車輪"))]), obj(vec![("title", s("ペダル"))])])),
                ]),
            )]),
        )]),
    )])
}

#[test]
fn neighbors_read_links_of_first_page() {
    let pages = WikiPage::neighbors_from_response(&linked_answer("links")).unwrap();
    assert_eq!(pages, vec![WikiPage("車輪".to_string()), WikiPage("ペダル".to_string())]);
    assert_eq!(WikiPage::neighbors_from_response(&linked_answer("linkshere")), None);
}

#[test]
fn linkshere_read_backlinks_of_first_page() {
    let pages = WikiPage::linkshere_from_response(&linked_answer("linkshere")).unwrap();
    assert_eq!(pages.len(), 2);
    assert_eq!(pages[1], WikiPage("ペダル".to_string()));
}

#[test]
fn linked_pages_need_a_first_page_and_titles() {
    let empty = obj(vec![("query", obj(vec![("pages", obj(vec![]))]))]);
    assert_eq!(WikiPage::neighbors_from_response(&empty), None);
    let untitled = obj(vec![(
        "query",
        obj(vec![("pages", obj(vec![("1", obj(vec![("links", Json::Array(vec![obj(vec![])]))]))]))]),
    )]);
    assert_eq!(WikiPage::neighbors_from_response(&untitled), None);
}

#[test]
fn parsed_text_reads_parse_text() {
    let res = obj(vec![("parse", obj(vec![("title", s("x")), ("text", s("<div>本文</div>"))]))]);
    assert_eq!(WikiPage::parsed_text(&res), Some("<div>本文</div>"));
    assert_eq!(WikiPage::parsed_text(&obj(vec![("error", s("missing"))])), None);
}

#[test]
fn filter_ascii_cuts_ascii_runs() {
    assert_eq!(filter_ascii("abc日本123語 "), "日本語");
    assert_eq!(filter_ascii(""), "");
}

#[test]
fn filter_other_cuts_punctuation_runs() {
    assert_eq!(filter_other("日本、語。（注）『本』"), "日本語注本");
    // As the class is written, the digits 0-4, 7, 8 and `F` are cut too.
    assert_eq!(filter_other("0123456789F"), "569");
    assert_eq!(filter_other("\u{3005}\u{3041}"), "\u{3005}\u{3041}");
}

#[test]
fn filter_noise_cuts_both() {
    assert_eq!(filter_noise("Hello, 世界。 (world)"), "世界");
    assert_eq!(filter_noise("^"), "");
}

#[test]
fn ignored_entries_are_recognised() {
    for e in ["\n", "", "\n\n", " ", "（", "）", "^", " - "] {
        assert!(is_ignored(e), "{e:?}");
    }
    assert!(!is_ignored("日本"));
    assert!(!is_ignored("  "));
}

#[test]
fn clean_texts_drops_empty_fragments() {
    let texts = vec!["Hello 日本語".to_string(), "、".to_string(), "（".to_string(), "宇宙".to_string()];
    assert_eq!(clean_texts(&texts), vec!["日本語".to_string(), "宇宙".to_string()]);
    assert_eq!(clean_texts(&vec![]), Vec::<String>::new());
}

#[test]
fn contents_from_html_reads_first_div() {
    let html = "<div class=\"mw\"><p>Hello 日本語</p><p>、</p><p>宇宙です</p></div><div>二つ目</div>";
    assert_eq!(
        WikiPage::contents_from_html(html),
        Some(vec!["日本語".to_string(), "宇宙です".to_string()])
    );
}

#[test]
fn contents_from_html_without_div_is_an_error() {
    assert_eq!(WikiPage::contents_from_html("<p>本文</p>"), None);
}

#[test]
fn noise_free_text_has_no_ascii() {
    for t in ["abc日本ｘ123語", "Hello, world!", "『宇宙』と\u{A0}space", ""] {
        let cleaned = filter_noise(t);
        assert!(cleaned.chars().all(|c| !c.is_ascii()), "{cleaned:?}");
        assert!(cleaned.chars().all(|c| t.contains(c)));
    }
}

#[test]
fn filter_other_cuts_exactly_its_class() {
    assert_eq!(filter_other("a\u{A0}b\u{201C}c\nd e"), "abcde");
    assert_eq!(filter_other("「日本」\u{3000}"), "「日本」\u{3000}");
}

#[test]
fn filter_noise_twice_is_filter_noise_once() {
    for t in ["Hello, 世界。 (world)", "『宇宙』と\u{A0}space", "abc", ""] {
        let once = filter_noise(t);
        assert_eq!(filter_noise(&once), once);
    }
}

#[test]
fn filter_noise_of_a_concatenation() {
    let (a, b) = ("日本 Japan、", "語 (go)。宇宙");
    assert_eq!(filter_noise(&format!("{a}{b}")), filter_noise(a) + &filter_noise(b));
    assert_eq!(filter_noise(&format!("{a}{b}")), "日本語宇宙");
}

#[test]
fn cleaned_fragments_are_left_as_they_are() {
    let texts = vec!["Hello 日本語".to_string(), " - ".to_string(), "宇宙 です。".to_string()];
    let kept = clean_texts(&texts);
    assert_eq!(kept, vec!["日本語".to_string(), "宇宙です".to_string()]);
    for k in &kept {
        assert!(!k.is_empty());
        assert!(!is_ignored(k));
        assert_eq!(&filter_noise(k), k);
    }
}
