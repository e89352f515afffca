use wikipedia2jpdb::category::Category;
use wikipedia2jpdb::json::{Json, JsonNumber};
use wikipedia2jpdb::wikipage::WikiPage;
use wikipedia2jpdb::Queriable;

fn s(t: &str) -> Json {
    Json::String(t.to_string())
}

fn obj(entries: Vec<(&str, Json)>) -> Json {
    Json::Object(entries.into_iter().map(|(k, v)| (k.to_string(), v)).collect())
}

fn num(n: u64) -> Json {
    Json::Number(JsonNumber::PosInt(n))
}

#[test]
fn from_full_takes_the_title_after_the_prefix() {
    let c = Category::from_full("Category:天文学");
    assert_eq!(c, Category(0, 0, "天文学".to_string()));
}

#[test]
fn from_full_uses_the_first_prefix() {
    let c = Category::from_full("xCategory:A Category:B");
    assert_eq!(c.2, "A Category:B");
}

#[test]
fn try_from_full_without_prefix_is_none() {
    assert_eq!(Category::try_from_full("天文学"), None);
    assert_eq!(Category::try_from_full("Category"), None);
    assert_eq!(Category::try_from_full("Category:"), Some(Category(0, 0, String::new())));
}

#[test]
fn full_title_round_trip() {
    let c = Category(4, 2, "宇宙".to_string());
    assert_eq!(c.full_title(), "Category:宇宙");
    assert_eq!(Category::from_full(&c.full_title()).2, "宇宙");
    let p = WikiPage("自転車".to_string());
    assert_eq!(p.full_title(), "自転車");
}

#[test]
fn display_text_of_category_and_page() {
    let c = Category(5, 3, "天文学".to_string());
    assert_eq!(c.display_text(), "天文学 (3 subcats, 5 pages)");
    let c = Category(1234567890, 0, "X".to_string());
    assert_eq!(c.display_text(), "X (0 subcats, 1234567890 pages)");
    assert_eq!(WikiPage("自転車".to_string()).display_text(), "自転車");
}

#[test]
fn pages_keep_articles_with_titles() {
    let res = obj(vec![(
        "query",
        obj(vec![(
            "categorymembers",
            Json::Array(vec![
                obj(vec![("ns", num(0)), ("title", s("惑星"))]),
                obj(vec![("ns", num(100)), ("title", s("Portal:天文学"))]),
                obj(vec![("ns", num(0))]),
                obj(vec![("title", s("無名"))]),
                obj(vec![("ns", num(0)), ("title", s("恒星"))]),
            ]),
        )]),
    )]);
    let pages = Category::pages_from_response(&res).unwrap();
    assert_eq!(pages, vec![WikiPage("惑星".to_string()), WikiPage("恒星".to_string())]);
}

#[test]
fn pages_without_member_list_is_none() {
    let res = obj(vec![("query", obj(vec![]))]);
    assert_eq!(Category::pages_from_response(&res), None);
    assert_eq!(Category::pages_from_response(&Json::Null), None);
}

#[test]
fn subcategories_read_titles() {
    let res = obj(vec![(
        "query",
        obj(vec![(
            "categorymembers",
            Json::Array(vec![
                obj(vec![("title", s("Category:天体"))]),
                obj(vec![("ns", num(14))]),
                obj(vec![("title", s("Category:宇宙論"))]),
            ]),
        )]),
    )]);
    let cats = Category::subcategories_from_response(&res).unwrap();
    assert_eq!(
        cats,
        vec![Category(0, 0, "天体".to_string()), Category(0, 0, "宇宙論".to_string())]
    );
}

#[test]
fn subcategories_of_empty_answer_are_none_found() {
    assert_eq!(Category::subcategories_from_response(&obj(vec![])), Some(vec![]));
}

#[test]
fn subcategories_with_a_bad_title_is_none() {
    let res = obj(vec![(
        "query",
        obj(vec![("categorymembers", Json::Array(vec![obj(vec![("title", s("天体"))])]))]),
    )]);
    assert_eq!(Category::subcategories_from_response(&res), None);
}

#[test]
fn parents_skip_hidden_categories() {
    let res = obj(vec![(
        "query",
        obj(vec![(
            "pages",
            obj(vec![
                (
                    "123",
                    obj(vec![(
                        "categories",
                        Json::Array(vec![
                            obj(vec![("ns", num(14)), ("title", s("Category:自然科学"))]),
                            obj(vec![("hidden", s("")), ("title", s("Category:隠し"))]),
                        ]),
                    )]),
                ),
                (
                    "456",
                    obj(vec![(
                        "categories",
                        Json::Array(vec![obj(vec![("title", s("Category:天文学"))])]),
                    )]),
                ),
            ]),
        )]),
    )]);
    let cats = Category::parents_from_response(&res).unwrap();
    assert_eq!(
        cats,
        vec![Category(0, 0, "自然科学".to_string()), Category(0, 0, "天文学".to_string())]
    );
}

#[test]
fn parents_need_category_lists() {
    let res = obj(vec![("query", obj(vec![("pages", obj(vec![("1", obj(vec![]))]))]))]);
    assert_eq!(Category::parents_from_response(&res), None);
    assert_eq!(Category::parents_from_response(&obj(vec![])), None);
}

#[test]
fn info_reads_counts_and_titles() {
    let page = |title: &str, pages: u64, subcats: u64| {
        obj(vec![
            ("title", s(title)),
            ("categoryinfo", obj(vec![("pages", num(pages)), ("subcats", num(subcats)), ("size", num(9))])),
        ])
    };
    let res = obj(vec![(
        "query",
        obj(vec![("pages", obj(vec![("-1", page("Category:天文学", 12, 3)), ("7", page("Category:宇宙", 0, 1))]))]),
    )]);
    let cats = Category::info_from_response(&res).unwrap();
    assert_eq!(
        cats,
        vec![Category(12, 3, "天文学".to_string()), Category(0, 1, "宇宙".to_string())]
    );
}

#[test]
fn info_without_pages_is_empty_and_incomplete_is_none() {
    assert_eq!(Category::info_from_response(&obj(vec![])), Some(vec![]));
    let res = obj(vec![(
        "query",
        obj(vec![("pages", obj(vec![("1", obj(vec![("title", s("Category:X"))]))]))]),
    )]);
    assert_eq!(Category::info_from_response(&res), None);
}

#[test]
fn test_sub() {
    let params = wikipedia2jpdb::requests::subcategories_params("Category:天文学");
    assert_eq!(params[4], ("cmtitle".to_string(), "Category:天文学".to_string()));
    let res = obj(vec![(
        "query",
        obj(vec![(
            "categorymembers",
            Json::Array(vec![
                obj(vec![("pageid", num(1)), ("ns", num(14)), ("title", s("Category:天文学者"))]),
                obj(vec![("pageid", num(2)), ("ns", num(14)), ("title", s("Category:天体"))]),
            ]),
        )]),
    )]);
    let cats = Category::subcategories_from_response(&res).unwrap();
    assert_eq!(cats, vec![Category(0, 0, "天文学者".to_string()), Category(0, 0, "天体".to_string())]);
}

#[test]
fn test_supercategories() {
    let params = wikipedia2jpdb::requests::parent_categories_params("Category:天文学");
    assert_eq!(params[3], ("titles".to_string(), "Category:天文学".to_string()));
    let res = obj(vec![(
        "query",
        obj(vec![(
            "pages",
            obj(vec![(
                "88",
                obj(vec![
                    ("title", s("Category:天文学")),
                    (
                        "categories",
                        Json::Array(vec![
                            obj(vec![("ns", num(14)), ("title", s("Category:自然科学"))]),
                            obj(vec![("ns", num(14)), ("hidden", s("")), ("title", s("Category:ウィキデータ"))]),
                        ]),
                    ),
                ]),
            )]),
        )]),
    )]);
    let cats = Category::parents_from_response(&res).unwrap();
    assert_eq!(cats, vec![Category(0, 0, "自然科学".to_string())]);
}
