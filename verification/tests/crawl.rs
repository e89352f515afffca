use wikipedia2jpdb::category::Category;
use wikipedia2jpdb::crawl::{
    deeper_decision, flatten_texts, info_batches, join_titles, pack_texts, start_point, Deeper,
    Execution, StartPoint,
};
use wikipedia2jpdb::requests::{
    info_params, linkshere_params, neighbors_params, page_contents_params, pages_params,
    parent_categories_params, subcategories_params,
};
use wikipedia2jpdb::wikipage::WikiPage;

fn cat(t: &str) -> Category {
    Category(0, 0, t.to_string())
}

fn pairs(ps: &[(String, String)]) -> Vec<(&str, &str)> {
    ps.iter().map(|(k, v)| (k.as_str(), v.as_str())).collect()
}

#[test]
fn join_titles_joins_full_titles() {
    assert_eq!(join_titles(&[cat("天文学"), cat("宇宙")]), "Category:天文学|Category:宇宙");
    assert_eq!(join_titles(&[cat("A")]), "Category:A");
    assert_eq!(join_titles(&[]), "");
}

#[test]
fn info_batches_hold_twenty_titles_each() {
    let stack: Vec<Category> = (0..45).map(|i| cat(&format!("C{i}"))).collect();
    let batches = info_batches(&stack);
    assert_eq!(batches.len(), 3);
    assert_eq!(batches[0], join_titles(&stack[0..20]));
    assert_eq!(batches[2], join_titles(&stack[40..45]));
    assert_eq!(batches.join("|"), join_titles(&stack));
    assert_eq!(info_batches(&[]).len(), 0);
    assert_eq!(info_batches(&stack[0..20]).len(), 1);
}

#[test]
fn request_parameters() {
    assert_eq!(
        pairs(&pages_params("Category:天文学")),
        vec![("action", "query"), ("list", "categorymembers"), ("cmtype", "page"), ("cmtitle", "Category:天文学")]
    );
    assert_eq!(
        pairs(&parent_categories_params("X")),
        vec![("action", "query"), ("prop", "categories"), ("clprop", "hidden"), ("titles", "X")]
    );
    assert_eq!(
        pairs(&subcategories_params("X")),
        vec![("action", "query"), ("list", "categorymembers"), ("cmtype", "subcat"), ("cllimit", "500"), ("cmtitle", "X")]
    );
    assert_eq!(
        pairs(&info_params("X")),
        vec![("action", "query"), ("prop", "categoryinfo"), ("climit", "500"), ("titles", "X")]
    );
    assert_eq!(
        pairs(&page_contents_params("P")),
        vec![("action", "parse"), ("prop", "text"), ("formatversion", "2"), ("page", "P")]
    );
    assert_eq!(
        pairs(&neighbors_params("P")),
        vec![("action", "query"), ("prop", "links"), ("pllimit", "max"), ("plnamespace", "0"), ("titles", "P")]
    );
    assert_eq!(
        pairs(&linkshere_params("P")),
        vec![("action", "query"), ("prop", "linkshere"), ("lhnamespace", "0"), ("titles", "P")]
    );
}

#[test]
fn start_point_by_title() {
    match start_point("Category:天文学") {
        StartPoint::Category(c) => assert_eq!(c, cat("天文学")),
        other => panic!("{other:?}"),
    }
    match start_point("自転車") {
        StartPoint::Page(p) => assert_eq!(p, WikiPage("自転車".to_string())),
        other => panic!("{other:?}"),
    }
}

#[test]
fn deeper_decision_by_answer() {
    assert_eq!(deeper_decision(Some("No")), Deeper::Stop);
    assert_eq!(deeper_decision(Some("Yes")), Deeper::Descend);
    assert_eq!(deeper_decision(Some("no")), Deeper::Descend);
    assert_eq!(deeper_decision(None), Deeper::DescendAfterPromptError);
}

#[test]
fn pack_texts_joins_under_the_limit() {
    let t = |x: &str| x.to_string();
    assert_eq!(pack_texts(vec![t("a"), t("b"), t("c")], 3), vec![t("ab"), t("c")]);
    assert_eq!(pack_texts(vec![t("a"), t("b"), t("c")], 4), vec![t("abc")]);
    // Bytes are counted, not characters: "あ" takes three.
    assert_eq!(pack_texts(vec![t("あ"), t("い")], 6), vec![t("あ"), t("い")]);
    assert_eq!(pack_texts(vec![t("あ"), t("い")], 7), vec![t("あい")]);
    assert_eq!(pack_texts(vec![t("toolong"), t("x")], 3), vec![t("toolong"), t("x")]);
    assert_eq!(pack_texts(vec![], 10), Vec::<String>::new());
}

#[test]
fn pack_texts_keeps_all_text() {
    let texts: Vec<String> = (0..50).map(|i| "語".repeat(i % 7 + 1)).collect();
    let packed = pack_texts(texts.clone(), 40);
    assert_eq!(packed.concat(), texts.concat());
    for chunk in &packed {
        assert!(chunk.len() < 40 || texts.contains(chunk));
    }
}

#[test]
fn flatten_texts_keeps_page_order() {
    let t = |x: &str| x.to_string();
    let pages = vec![vec![t("a"), t("b")], vec![], vec![t("c")]];
    assert_eq!(flatten_texts(&pages), vec![t("a"), t("b"), t("c")]);
}

#[test]
fn round_settles_every_offered_category() {
    let mut e = Execution::new();
    e.pick(cat("root"));
    let info = vec![cat("root"), cat("A"), cat("B"), cat("C")];
    let offered = e.fresh_categories(&info);
    assert_eq!(offered, vec![cat("A"), cat("B"), cat("C")]);
    e.record_selection(&offered, vec![cat("A"), cat("C")]);
    assert_eq!(e.selection_list(), &vec![cat("A"), cat("C")]);
    assert_eq!(e.picked_list(), &vec![cat("root"), cat("A"), cat("C")]);
    let again = e.fresh_categories(&vec![cat("A"), cat("B"), cat("D")]);
    assert_eq!(again, vec![cat("D")]);
}

#[test]
fn round_keeps_picked_and_passed_over_apart() {
    let mut e = Execution::new();
    e.pick(cat("root"));
    let offered = e.fresh_categories(&vec![cat("A"), cat("B")]);
    e.record_selection(&offered, vec![cat("B")]);
    let offered = e.fresh_categories(&vec![cat("A"), cat("B"), cat("C"), cat("D")]);
    assert_eq!(offered, vec![cat("C"), cat("D")]);
    e.record_selection(&offered, vec![]);
    assert_eq!(e.picked_list(), &vec![cat("root"), cat("B")]);
    for c in [cat("A"), cat("B"), cat("C"), cat("D")] {
        assert_eq!(e.fresh_categories(&vec![c]), vec![]);
    }
}

#[test]
fn batches_split_after_whole_batches() {
    let a: Vec<Category> = (0..20).map(|i| cat(&format!("A{i}"))).collect();
    let b: Vec<Category> = (0..7).map(|i| cat(&format!("B{i}"))).collect();
    let ab: Vec<Category> = a.iter().chain(b.iter()).map(|c| c.duplicate()).collect();
    let mut expected = info_batches(&a);
    expected.extend(info_batches(&b));
    assert_eq!(info_batches(&ab), expected);
    assert_eq!(info_batches(&ab).len(), 2);
}

#[test]
fn execution_pages_are_kept_once() {
    let mut e = Execution::new();
    let p = |x: &str| WikiPage(x.to_string());
    e.choose_pages(vec![p("a"), p("b"), p("a")]);
    assert_eq!(e.chosen_page_list(), &vec![p("a"), p("b")]);
    e.add_found_pages(vec![p("c"), p("c")]);
    e.add_found_pages(vec![p("d"), p("c")]);
    assert_eq!(e.found_page_list(), &vec![p("c"), p("d")]);
}

#[test]
fn execution_stack_rounds() {
    let mut e = Execution::new();
    e.extend_stack(vec![cat("A")]);
    e.extend_stack(vec![cat("B")]);
    assert_eq!(e.stack_list(), &vec![cat("A"), cat("B")]);
    assert!(e.replace_stack(vec![cat("C")]));
    assert_eq!(e.stack_list(), &vec![cat("C")]);
    assert!(!e.replace_stack(vec![]));
}
