//! Wikipedia categories: their titles, and the categories and pages read
//! back from the answers of the wiki API.
use vstd::prelude::*;
use crate::json::{array_of, field, field_of, i64_of, object_of, str_of, u64_of, Json};
use crate::text::{
    chars_of, contains_seq, decimal, find, find_spec, is_first_occurrence,
    lemma_first_occurrence_unique, occurs_at, push_decimal, push_str, string_of,
};
use crate::wikipage::{page_titles, WikiPage};
use crate::Queriable;

verus! {

/// A category: the number of pages in it, the number of its subcategories,
/// and its title without the `Category:` prefix.
#[derive(Debug, Eq, PartialEq, Hash)]
pub struct Category(pub u64, pub u64, pub String);

impl View for Category {
    type V = (u64, u64, Seq<char>);

    open spec fn view(&self) -> (u64, u64, Seq<char>) {
        (self.0, self.1, self.2@)
    }
}

/// The prefix that marks a category title.
pub open spec fn category_marker() -> Seq<char> {
    seq!['C', 'a', 't', 'e', 'g', 'o', 'r', 'y', ':']
}

/// The title that follows the first `Category:` in `full`, if there is one.
pub open spec fn title_after_marker(full: Seq<char>) -> Option<Seq<char>> {
    match find_spec(full, category_marker()) {
        Some(i) => Some(full.skip(i + category_marker().len())),
        None => None,
    }
}

fn marker_chars() -> (v: Vec<char>)
    ensures
        v@ == category_marker(),
{
    let v = vec!['C', 'a', 't', 'e', 'g', 'o', 'r', 'y', ':'];
    assert(v@ =~= category_marker());
    v
}

impl Category {
    /// Clones the category field by field.
    pub fn duplicate(&self) -> (res: Category)
        ensures
            res@ == self@,
    {
        Category(self.0, self.1, self.2.clone())
    }

    /// The category named by the first `Category:` in `full`, with no
    /// counts; `None` when `full` holds no `Category:`.
    pub fn try_from_full(full: &str) -> (res: Option<Category>)
        ensures
            match title_after_marker(full@) {
                Some(t) => res matches Some(c) && c@ == (0u64, 0u64, t),
                None => res is None,
            },
            res is None <==> !contains_seq(full@, category_marker()),
    {
        let chars = chars_of(full);
        let marker = marker_chars();
        match find(&chars, &marker) {
            Some(i) => {
                assert(marker@.len() == 9);
                assert(occurs_at(chars@, marker@, i as int));
                let n = chars.len();
                assert(i + 9 <= n);
                let title = string_of(&chars, i + 9, n);
                assert(chars@.subrange(i + 9, chars@.len() as int) =~= full@.skip(i + 9));
                Some(Category(0, 0, title))
            },
            None => None,
        }
    }

    /// The category named by the first `Category:` in `full`, with no counts.
    /// `full` must contain `Category:`.
    pub fn from_full(full: &str) -> (res: Category)
        requires
            contains_seq(full@, category_marker()),
        ensures
            title_after_marker(full@) == Some(res.2@),
            res.0 == 0,
            res.1 == 0,
    {
        match Category::try_from_full(full) {
            Some(c) => c,
            None => {
                proof {
                    assert(false);
                }
                Category(0, 0, String::new())
            },
        }
    }

    /// The line shown for the category: `title (n subcats, m pages)`.
    pub fn display_text(&self) -> (res: String)
        ensures
            res@ == self.2@ + " ("@ + decimal(self.1 as nat) + " subcats, "@ + decimal(
                self.0 as nat,
            ) + " pages)"@,
    {
        let mut res = self.2.clone();
        push_str(&mut res, " (");
        push_decimal(&mut res, self.1);
        push_str(&mut res, " subcats, ");
        push_decimal(&mut res, self.0);
        push_str(&mut res, " pages)");
        res
    }
}


/// The categories of a sequence, as values.
pub open spec fn category_views(cs: Seq<Category>) -> Seq<(u64, u64, Seq<char>)> {
    cs.map_values(|c: Category| c@)
}

/// The members listed under `query.categorymembers` of an answer.
pub open spec fn category_members(res: Json) -> Option<Seq<Json>> {
    array_of(field(field(Some(res), "query"@), "categorymembers"@))
}

/// The pages listed under `query.pages` of an answer.
pub open spec fn query_pages(res: Json) -> Option<Seq<(String, Json)>> {
    object_of(field(field(Some(res), "query"@), "pages"@))
}

/// A member in the article namespace (`ns` equal to 0).
pub open spec fn is_article(m: Json) -> bool {
    i64_of(field(Some(m), "ns"@)) == Some(0i64)
}

/// The titles of the members that are articles and have a title.
pub open spec fn article_titles(ms: Seq<Json>) -> Seq<Seq<char>>
    decreases ms.len(),
{
    if ms.len() == 0 {
        seq![]
    } else {
        let rest = article_titles(ms.drop_last());
        match str_of(field(Some(ms.last()), "title"@)) {
            Some(t) => if is_article(ms.last()) {
                rest.push(t)
            } else {
                rest
            },
            None => rest,
        }
    }
}

/// The category named by a title, with no counts.
pub open spec fn named_category(title: Seq<char>) -> Option<(u64, u64, Seq<char>)> {
    match title_after_marker(title) {
        Some(name) => Some((0u64, 0u64, name)),
        None => None,
    }
}

/// The categories named by the titled members; members without a title are
/// passed over, and a title that names no category spoils the whole list.
pub open spec fn member_categories(ms: Seq<Json>) -> Option<Seq<(u64, u64, Seq<char>)>>
    decreases ms.len(),
{
    if ms.len() == 0 {
        Some(seq![])
    } else {
        match member_categories(ms.drop_last()) {
            Some(rest) => match str_of(field(Some(ms.last()), "title"@)) {
                Some(t) => match named_category(t) {
                    Some(c) => Some(rest.push(c)),
                    None => None,
                },
                None => Some(rest),
            },
            None => None,
        }
    }
}

/// The subcategories in an answer: none when it lists no members.
pub open spec fn subcategories_of(res: Json) -> Option<Seq<(u64, u64, Seq<char>)>> {
    match category_members(res) {
        Some(ms) => member_categories(ms),
        None => Some(seq![]),
    }
}

/// The categories named by the entries that are not hidden; every such
/// entry must carry a title that names a category.
pub open spec fn visible_categories(cats: Seq<Json>) -> Option<Seq<(u64, u64, Seq<char>)>>
    decreases cats.len(),
{
    if cats.len() == 0 {
        Some(seq![])
    } else {
        match visible_categories(cats.drop_last()) {
            Some(rest) => if str_of(field(Some(cats.last()), "hidden"@)) is Some {
                Some(rest)
            } else {
                match str_of(field(Some(cats.last()), "title"@)) {
                    Some(t) => match named_category(t) {
                        Some(c) => Some(rest.push(c)),
                        None => None,
                    },
                    None => None,
                }
            },
            None => None,
        }
    }
}

/// The visible categories of every page, page after page; every page must
/// list its categories.
pub open spec fn parents_of_pages(pages: Seq<(String, Json)>) -> Option<
    Seq<(u64, u64, Seq<char>)>,
>
    decreases pages.len(),
{
    if pages.len() == 0 {
        Some(seq![])
    } else {
        match parents_of_pages(pages.drop_last()) {
            Some(rest) => match array_of(field(Some(pages.last().1), "categories"@)) {
                Some(cats) => match visible_categories(cats) {
                    Some(cs) => Some(rest + cs),
                    None => None,
                },
                None => None,
            },
            None => None,
        }
    }
}

/// The parent categories in an answer about `prop=categories`.
pub open spec fn parent_categories_of(res: Json) -> Option<Seq<(u64, u64, Seq<char>)>> {
    match query_pages(res) {
        Some(pages) => parents_of_pages(pages),
        None => None,
    }
}

/// The category described by one page of an answer about `prop=categoryinfo`.
pub open spec fn info_entry(page: Json) -> Option<(u64, u64, Seq<char>)> {
    let info = field(Some(page), "categoryinfo"@);
    match (u64_of(field(info, "pages"@)), u64_of(field(info, "subcats"@)), str_of(
        field(Some(page), "title"@),
    )) {
        (Some(pages), Some(subcats), Some(t)) => match title_after_marker(t) {
            Some(name) => Some((pages, subcats, name)),
            None => None,
        },
        _ => None,
    }
}

/// The categories described by the pages, in order; each must be complete.
pub open spec fn info_entries(pages: Seq<(String, Json)>) -> Option<Seq<(u64, u64, Seq<char>)>>
    decreases pages.len(),
{
    if pages.len() == 0 {
        Some(seq![])
    } else {
        match (info_entries(pages.drop_last()), info_entry(pages.last().1)) {
            (Some(rest), Some(c)) => Some(rest.push(c)),
            _ => None,
        }
    }
}

/// The categories described by an answer: none when it lists no pages.
pub open spec fn category_info_of(res: Json) -> Option<Seq<(u64, u64, Seq<char>)>> {
    match query_pages(res) {
        Some(pages) => info_entries(pages),
        None => Some(seq![]),
    }
}

impl Queriable for Category {
    open spec fn spec_full_title(&self) -> Seq<char> {
        category_marker() + self.2@
    }

    fn full_title(&self) -> (res: String) {
        let mut res = String::new();
        push_str(&mut res, "Category:");
        proof {
            reveal_strlit("Category:");
            assert("Category:"@ =~= category_marker());
        }
        push_str(&mut res, self.2.as_str());
        res
    }
}


/// The `title` of a JSON value, if it has one.
fn title_of(v: &Json) -> (res: Option<&str>)
    ensures
        match str_of(field(Some(*v), "title"@)) {
            Some(t) => res matches Some(s) && s@ == t,
            None => res is None,
        },
{
    match v.get("title") {
        Some(t) => t.as_str(),
        None => None,
    }
}

/// A member in the article namespace.
fn is_article_member(m: &Json) -> (res: bool)
    ensures
        res == is_article(*m),
{
    match m.get("ns") {
        Some(ns) => match ns.as_i64() {
            Some(n) => n == 0,
            None => false,
        },
        None => false,
    }
}

proof fn lemma_member_categories_prefix(ms: Seq<Json>, n: int)
    requires
        0 < n <= ms.len(),
        member_categories(ms.take(n)) is None,
    ensures
        member_categories(ms) is None,
    decreases ms.len() - n,
{
    if n < ms.len() {
        assert(ms.take(n + 1).drop_last() =~= ms.take(n));
        lemma_member_categories_prefix(ms, n + 1);
    } else {
        assert(ms.take(n) =~= ms);
    }
}

proof fn lemma_visible_categories_prefix(cs: Seq<Json>, n: int)
    requires
        0 < n <= cs.len(),
        visible_categories(cs.take(n)) is None,
    ensures
        visible_categories(cs) is None,
    decreases cs.len() - n,
{
    if n < cs.len() {
        assert(cs.take(n + 1).drop_last() =~= cs.take(n));
        lemma_visible_categories_prefix(cs, n + 1);
    } else {
        assert(cs.take(n) =~= cs);
    }
}

proof fn lemma_parents_of_pages_prefix(ps: Seq<(String, Json)>, n: int)
    requires
        0 < n <= ps.len(),
        parents_of_pages(ps.take(n)) is None,
    ensures
        parents_of_pages(ps) is None,
    decreases ps.len() - n,
{
    if n < ps.len() {
        assert(ps.take(n + 1).drop_last() =~= ps.take(n));
        lemma_parents_of_pages_prefix(ps, n + 1);
    } else {
        assert(ps.take(n) =~= ps);
    }
}

proof fn lemma_info_entries_prefix(ps: Seq<(String, Json)>, n: int)
    requires
        0 < n <= ps.len(),
        info_entries(ps.take(n)) is None,
    ensures
        info_entries(ps) is None,
    decreases ps.len() - n,
{
    if n < ps.len() {
        assert(ps.take(n + 1).drop_last() =~= ps.take(n));
        lemma_info_entries_prefix(ps, n + 1);
    } else {
        assert(ps.take(n) =~= ps);
    }
}

impl Category {
    /// The articles among the members: those in namespace 0 that have a title.
    pub fn article_pages(members: &Vec<Json>) -> (out: Vec<WikiPage>)
        ensures
            page_titles(out@) == article_titles(members@),
    {
        let mut out: Vec<WikiPage> = Vec::new();
        let mut i: usize = 0;
        while i < members.len()
            invariant
                i <= members@.len(),
                page_titles(out@) == article_titles(members@.take(i as int)),
            decreases members@.len() - i,
        {
            assert(members@.take(i + 1).drop_last() =~= members@.take(i as int));
            let m = &members[i];
            match title_of(m) {
                Some(t) => {
                    if is_article_member(m) {
                        out.push(WikiPage(t.to_owned()));
                        assert(page_titles(out@) =~= page_titles(out@.drop_last()).push(t@));
                    }
                },
                None => {},
            }
            i = i + 1;
        }
        assert(members@.take(i as int) =~= members@);
        out
    }

    /// The article pages of a category, read from an answer about
    /// `list=categorymembers`; `None` when the answer lists no members.
    /// Such an answer is broken: the command-line program stops on it.
    pub fn pages_from_response(res: &Json) -> (out: Option<Vec<WikiPage>>)
        ensures
            match category_members(*res) {
                Some(ms) => out matches Some(v) && page_titles(v@) == article_titles(ms),
                None => out is None,
            },
    {
        let members = match field_of(field_of(Some(res), "query"), "categorymembers") {
            Some(m) => m.as_array(),
            None => None,
        };
        match members {
            Some(ms) => Some(Category::article_pages(ms)),
            None => None,
        }
    }

    /// The categories named by the titled members; `None` when a title names
    /// no category.
    pub fn member_categories(members: &Vec<Json>) -> (out: Option<Vec<Category>>)
        ensures
            match member_categories(members@) {
                Some(cs) => out matches Some(v) && category_views(v@) == cs,
                None => out is None,
            },
    {
        let mut out: Vec<Category> = Vec::new();
        let mut i: usize = 0;
        while i < members.len()
            invariant
                i <= members@.len(),
                member_categories(members@.take(i as int)) == Some(category_views(out@)),
            decreases members@.len() - i,
        {
            assert(members@.take(i + 1).drop_last() =~= members@.take(i as int));
            match title_of(&members[i]) {
                Some(t) => match Category::try_from_full(t) {
                    Some(c) => {
                        out.push(c);
                        assert(category_views(out@) =~= category_views(out@.drop_last()).push(
                            c@,
                        ));
                    },
                    None => {
                        proof {
                            lemma_member_categories_prefix(members@, (i + 1) as int);
                        }
                        return None;
                    },
                },
                None => {},
            }
            i = i + 1;
        }
        assert(members@.take(i as int) =~= members@);
        Some(out)
    }

    /// The subcategories read from an answer about `list=categorymembers`
    /// with `cmtype=subcat`: none when it lists no members, `None` when a
    /// title names no category (the command-line program stops on that).
    pub fn subcategories_from_response(res: &Json) -> (out: Option<Vec<Category>>)
        ensures
            match subcategories_of(*res) {
                Some(cs) => out matches Some(v) && category_views(v@) == cs,
                None => out is None,
            },
    {
        let members = match field_of(field_of(Some(res), "query"), "categorymembers") {
            Some(m) => m.as_array(),
            None => None,
        };
        match members {
            Some(ms) => Category::member_categories(ms),
            None => Some(Vec::new()),
        }
    }

    /// The categories named by the entries that are not hidden; `None` when
    /// such an entry has no title or its title names no category.
    pub fn visible_categories(cats: &Vec<Json>) -> (out: Option<Vec<Category>>)
        ensures
            match visible_categories(cats@) {
                Some(cs) => out matches Some(v) && category_views(v@) == cs,
                None => out is None,
            },
    {
        let mut out: Vec<Category> = Vec::new();
        let mut i: usize = 0;
        while i < cats.len()
            invariant
                i <= cats@.len(),
                visible_categories(cats@.take(i as int)) == Some(category_views(out@)),
            decreases cats@.len() - i,
        {
            assert(cats@.take(i + 1).drop_last() =~= cats@.take(i as int));
            let c = &cats[i];
            let hidden = match c.get("hidden") {
                Some(h) => h.as_str().is_some(),
                None => false,
            };
            if !hidden {
                let named = match title_of(c) {
                    Some(t) => Category::try_from_full(t),
                    None => None,
                };
                match named {
                    Some(cat) => {
                        out.push(cat);
                        assert(category_views(out@) =~= category_views(out@.drop_last()).push(
                            cat@,
                        ));
                    },
                    None => {
                        proof {
                            lemma_visible_categories_prefix(cats@, (i + 1) as int);
                        }
                        return None;
                    },
                }
            }
            i = i + 1;
        }
        assert(cats@.take(i as int) =~= cats@);
        Some(out)
    }

    /// The parent categories read from an answer about `prop=categories`:
    /// the visible categories of every page, page after page. `None` when
    /// the answer lists no pages, a page lists no categories, or a visible
    /// category has no title naming a category. Such an answer is broken:
    /// the command-line program stops on it.
    pub fn parents_from_response(res: &Json) -> (out: Option<Vec<Category>>)
        ensures
            match parent_categories_of(*res) {
                Some(cs) => out matches Some(v) && category_views(v@) == cs,
                None => out is None,
            },
    {
        let pages = match field_of(field_of(Some(res), "query"), "pages") {
            Some(p) => p.as_object(),
            None => None,
        };
        let pages = match pages {
            Some(p) => p,
            None => return None,
        };
        let mut out: Vec<Category> = Vec::new();
        let mut i: usize = 0;
        while i < pages.len()
            invariant
                i <= pages@.len(),
                query_pages(*res) == Some(pages@),
                parents_of_pages(pages@.take(i as int)) == Some(category_views(out@)),
            decreases pages@.len() - i,
        {
            assert(pages@.take(i + 1).drop_last() =~= pages@.take(i as int));
            let cats = match pages[i].1.get("categories") {
                Some(c) => c.as_array(),
                None => None,
            };
            let found = match cats {
                Some(cs) => Category::visible_categories(cs),
                None => None,
            };
            match found {
                Some(mut cs) => {
                    let ghost before = out@;
                    let ghost added = cs@;
                    out.append(&mut cs);
                    assert(category_views(out@) =~= category_views(before) + category_views(
                        added,
                    ));
                },
                None => {
                    proof {
                        lemma_parents_of_pages_prefix(pages@, (i + 1) as int);
                    }
                    return None;
                },
            }
            i = i + 1;
        }
        assert(pages@.take(i as int) =~= pages@);
        Some(out)
    }

    /// The category described by one page of an answer about
    /// `prop=categoryinfo`: its counts and the title after `Category:`.
    fn info_entry(page: &Json) -> (out: Option<Category>)
        ensures
            match info_entry(*page) {
                Some(c) => out matches Some(v) && v@ == c,
                None => out is None,
            },
    {
        let info = page.get("categoryinfo");
        let pages = match field_of(info, "pages") {
            Some(n) => n.as_u64(),
            None => None,
        };
        let subcats = match field_of(info, "subcats") {
            Some(n) => n.as_u64(),
            None => None,
        };
        match (pages, subcats, title_of(page)) {
            (Some(p), Some(s), Some(t)) => match Category::try_from_full(t) {
                Some(c) => Some(Category(p, s, c.2)),
                None => None,
            },
            _ => None,
        }
    }

    /// The categories described by an answer about `prop=categoryinfo`, one
    /// per page: none when it lists no pages, `None` when a page lacks a
    /// count or a title naming a category. Such an answer is broken: the
    /// command-line program stops on it.
    pub fn info_from_response(res: &Json) -> (out: Option<Vec<Category>>)
        ensures
            match category_info_of(*res) {
                Some(cs) => out matches Some(v) && category_views(v@) == cs,
                None => out is None,
            },
    {
        let pages = match field_of(field_of(Some(res), "query"), "pages") {
            Some(p) => p.as_object(),
            None => None,
        };
        let pages = match pages {
            Some(p) => p,
            None => return Some(Vec::new()),
        };
        let mut out: Vec<Category> = Vec::new();
        let mut i: usize = 0;
        while i < pages.len()
            invariant
                i <= pages@.len(),
                query_pages(*res) == Some(pages@),
                info_entries(pages@.take(i as int)) == Some(category_views(out@)),
            decreases pages@.len() - i,
        {
            assert(pages@.take(i + 1).drop_last() =~= pages@.take(i as int));
            match Category::info_entry(&pages[i].1) {
                Some(c) => {
                    let ghost cv = c@;
                    out.push(c);
                    assert(category_views(out@) =~= category_views(out@.drop_last()).push(cv));
                },
                None => {
                    proof {
                        lemma_info_entries_prefix(pages@, (i + 1) as int);
                    }
                    return None;
                },
            }
            i = i + 1;
        }
        assert(pages@.take(i as int) =~= pages@);
        Some(out)
    }
}


/// Each category entry is read on its own: the parents of two lists of
/// entries one after the other are the parents of each, one after the
/// other (and `None` as soon as one list spoils).
pub proof fn lemma_visible_categories_concat(a: Seq<Json>, b: Seq<Json>)
    ensures
        visible_categories(a + b) == match (visible_categories(a), visible_categories(b)) {
            (Some(x), Some(y)) => Some(x + y),
            _ => None::<Seq<(u64, u64, Seq<char>)>>,
        },
    decreases b.len(),
{
    if b.len() == 0 {
        assert(a + b =~= a);
        if let Some(x) = visible_categories(a) {
            assert(x + seq![] =~= x);
        }
    } else {
        lemma_visible_categories_concat(a, b.drop_last());
        assert((a + b).drop_last() =~= a + b.drop_last());
        assert((a + b).last() == b.last());
        match (visible_categories(a), visible_categories(b.drop_last())) {
            (Some(x), Some(y)) => {
                if str_of(field(Some(b.last()), "title"@)) is Some {
                    let t = str_of(field(Some(b.last()), "title"@))->0;
                    if let Some(c) = named_category(t) {
                        assert(x + y.push(c) =~= (x + y).push(c));
                    }
                }
            },
            _ => {},
        }
    }
}

/// One entry: a hidden entry gives no parent; any other entry gives the
/// category its title names, and spoils the list when it has no title
/// naming a category.
pub proof fn lemma_visible_categories_single(e: Json)
    ensures
        visible_categories(seq![e]) == if str_of(field(Some(e), "hidden"@)) is Some {
            Some(Seq::<(u64, u64, Seq<char>)>::empty())
        } else {
            match str_of(field(Some(e), "title"@)) {
                Some(t) => match title_after_marker(t) {
                    Some(name) => Some(seq![(0u64, 0u64, name)]),
                    None => None,
                },
                None => None,
            }
        },
{
    let empty = Seq::<Json>::empty();
    assert(seq![e].drop_last() =~= empty);
    assert(seq![e].last() == e);
    assert(visible_categories(empty) == Some(Seq::<(u64, u64, Seq<char>)>::empty()));
    if let Some(t) = str_of(field(Some(e), "title"@)) {
        if let Some(name) = title_after_marker(t) {
            assert(Seq::<(u64, u64, Seq<char>)>::empty().push((0u64, 0u64, name)) =~= seq![(0u64, 0u64, name)]);
        }
    }
}

/// An answer about `prop=categoryinfo` gives one category per page, in
/// order, whatever its counts: the `k`-th category carries the counts and
/// title of the `k`-th page; and it gives none at all exactly when some
/// page lacks a count or a title naming a category.
pub proof fn lemma_info_entries_per_page(pages: Seq<(String, Json)>)
    ensures
        info_entries(pages) is None <==> exists|k: int|
            0 <= k < pages.len() && (#[trigger] info_entry(pages[k].1)) is None,
        info_entries(pages) matches Some(v) ==> {
            &&& v.len() == pages.len()
            &&& forall|k: int| 0 <= k < pages.len() ==> Some(#[trigger] v[k]) == info_entry(pages[k].1)
        },
    decreases pages.len(),
{
    if pages.len() > 0 {
        let rest = pages.drop_last();
        lemma_info_entries_per_page(rest);
        assert forall|k: int| 0 <= k < rest.len() implies #[trigger] rest[k] == pages[k] by {}
        if info_entries(pages) is None {
            if info_entries(rest) is None {
                let k = choose|k: int| 0 <= k < rest.len() && (#[trigger] info_entry(rest[k].1)) is None;
                assert(rest[k] == pages[k]);
            } else {
                assert(info_entry(pages[pages.len() - 1].1) is None);
            }
        } else {
            assert forall|k: int| 0 <= k < pages.len() implies (#[trigger] info_entry(pages[k].1)) is Some by {
                if k < rest.len() {
                    assert(rest[k] == pages[k]);
                    if info_entry(pages[k].1) is None {
                        assert(info_entry(rest[k].1) is None);
                    }
                }
            }
        }
    }
}

/// Members are read one by one: the articles of two lists of members one
/// after the other are the articles of each, one after the other.
pub proof fn lemma_article_titles_concat(a: Seq<Json>, b: Seq<Json>)
    ensures
        article_titles(a + b) == article_titles(a) + article_titles(b),
    decreases b.len(),
{
    if b.len() == 0 {
        assert(a + b =~= a);
        assert(article_titles(a) + article_titles(b) =~= article_titles(a));
    } else {
        lemma_article_titles_concat(a, b.drop_last());
        assert((a + b).drop_last() =~= a + b.drop_last());
        assert((a + b).last() == b.last());
        if let Some(t) = str_of(field(Some(b.last()), "title"@)) {
            assert(article_titles(a) + article_titles(b.drop_last()).push(t) =~= (article_titles(a)
                + article_titles(b.drop_last())).push(t));
        }
    }
}

/// One member is an article exactly when it has a title and its `ns` is
/// the integer 0: any other namespace gives no page.
pub proof fn lemma_article_titles_single(m: Json)
    ensures
        article_titles(seq![m]) == match str_of(field(Some(m), "title"@)) {
            Some(t) => if i64_of(field(Some(m), "ns"@)) == Some(0i64) {
                seq![t]
            } else {
                Seq::<Seq<char>>::empty()
            },
            None => Seq::<Seq<char>>::empty(),
        },
{
    let empty = Seq::<Json>::empty();
    assert(seq![m].drop_last() =~= empty);
    assert(seq![m].last() == m);
    assert(article_titles(empty) == Seq::<Seq<char>>::empty());
    if let Some(t) = str_of(field(Some(m), "title"@)) {
        assert(Seq::<Seq<char>>::empty().push(t) =~= seq![t]);
    }
}

/// Reading a category back from its full title gives its title: the first
/// `Category:` of `Category:` followed by a title is the prefix itself.
pub proof fn lemma_full_title_round_trip(c: Category)
    ensures
        title_after_marker(c.spec_full_title()) == Some(c.2@),
        contains_seq(c.spec_full_title(), category_marker()),
{
    let s = c.spec_full_title();
    let m = category_marker();
    assert(s.subrange(0, m.len() as int) =~= m);
    assert(occurs_at(s, m, 0));
    assert(is_first_occurrence(s, m, 0));
    let k = choose|k: int| #[trigger] is_first_occurrence(s, m, k);
    lemma_first_occurrence_unique(s, m, 0, k);
    assert(s.skip(m.len() as int) =~= c.2@);
}

} // verus!
