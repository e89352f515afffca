//! Wiki pages: their titles, and the pages read from the answers about links.
use vstd::prelude::*;
use crate::json::{array_of, entry_of, entry_value, field, field_of, object_of, str_of, Json};
use crate::filtering::{clean_texts, cleaned, kept_fragment, text_views};
use crate::Queriable;

verus! {

/// A wiki page, named by its full title.
#[derive(Debug, Eq, PartialEq, Hash, Default)]
pub struct WikiPage(pub String);

impl View for WikiPage {
    type V = Seq<char>;

    open spec fn view(&self) -> Seq<char> {
        self.0@
    }
}

/// The titles of a sequence of pages.
pub open spec fn page_titles(pages: Seq<WikiPage>) -> Seq<Seq<char>> {
    pages.map_values(|p: WikiPage| p@)
}

/// The members of the first page listed under `query.pages` of an answer.
pub open spec fn first_page_of(res: Json) -> Option<Seq<(String, Json)>> {
    match object_of(field(field(Some(res), "query"@), "pages"@)) {
        Some(pages) => if pages.len() > 0 {
            object_of(Some(pages[0].1))
        } else {
            None
        },
        None => None,
    }
}

/// The `title` of every item, or `None` when one of them has none.
pub open spec fn item_titles(items: Seq<Json>) -> Option<Seq<Seq<char>>>
    decreases items.len(),
{
    if items.len() == 0 {
        Some(seq![])
    } else {
        match (item_titles(items.drop_last()), str_of(field(Some(items.last()), "title"@))) {
            (Some(rest), Some(t)) => Some(rest.push(t)),
            _ => None,
        }
    }
}

/// The titles listed under `list` of the first page of an answer; `None`
/// when the answer lacks them.
pub open spec fn linked_titles(res: Json, list: Seq<char>) -> Option<Seq<Seq<char>>> {
    match first_page_of(res) {
        Some(page) => match array_of(entry_value(page, list)) {
            Some(items) => item_titles(items),
            None => None,
        },
        None => None,
    }
}

/// The page text (`parse.text`) of an answer, if present.
pub open spec fn parsed_text_of(res: Json) -> Option<Seq<char>> {
    str_of(field(field(Some(res), "parse"@), "text"@))
}

/// What `scraper` gives for the text nodes of the first element that
/// `selector` matches in the HTML fragment `html`, or `None` when the
/// selector does not parse or matches nothing.
pub uninterp spec fn html_first_match_texts(html: Seq<char>, selector: Seq<char>) -> Option<
    Seq<Seq<char>>,
>;

/// Parses `html` as a fragment (`scraper::Html::parse_fragment`), parses
/// `selector` (`scraper::Selector::parse`), takes the first element it
/// selects (`Html::select`) and collects that element's text nodes
/// (`ElementRef::text`). The parsed document, selector and element are
/// values that only `scraper` can read, so the whole chain is one trusted
/// step. Trusted: the result is what `html_first_match_texts` names for the
/// two texts; how HTML is parsed and matched is not stated here.
#[verifier::external_body]
fn first_match_texts(html: &str, selector: &str) -> (res: Option<Vec<String>>)
    ensures
        match html_first_match_texts(html@, selector@) {
            Some(ts) => res matches Some(v) && text_views(v@) == ts,
            None => res is None,
        },
{
    let fragment = scraper::Html::parse_fragment(html);
    let sel = scraper::Selector::parse(selector).ok()?;
    let first = fragment.select(&sel).next()?;
    Some(first.text().map(String::from).collect())
}

/// The text nodes of the first `div` of a page's HTML.
pub open spec fn div_texts(html: Seq<char>) -> Option<Seq<Seq<char>>> {
    html_first_match_texts(html, "div"@)
}

impl WikiPage {
    /// The cleaned text fragments of a page's HTML: the text nodes of its
    /// first `div`, each cleaned of noise, without the meaningless ones.
    /// Every fragment kept is left as it is by cleaning it again, is not
    /// empty and is not an ignored fragment. `None` when the HTML has no
    /// `div`; the command-line program stops on such a page.
    pub fn contents_from_html(html: &str) -> (res: Option<Vec<String>>)
        ensures
            match div_texts(html@) {
                Some(ts) => res matches Some(v) && text_views(v@) == cleaned(ts),
                None => res is None,
            },
            res matches Some(v) ==> forall|k: int, c: char|
                0 <= k < v@.len() && #[trigger] v@[k]@.contains(c) ==> (c as u32) >= 128,
            res matches Some(v) ==> forall|k: int|
                0 <= k < v@.len() ==> kept_fragment(#[trigger] v@[k]@),
    {
        match first_match_texts(html, "div") {
            Some(texts) => Some(clean_texts(&texts)),
            None => None,
        }
    }

    /// Clones the page.
    pub fn duplicate(&self) -> (res: WikiPage)
        ensures
            res@ == self@,
    {
        WikiPage(self.0.clone())
    }

    /// The line shown for the page: its title.
    pub fn display_text(&self) -> (res: String)
        ensures
            res@ == self@,
    {
        self.0.clone()
    }

    /// The pages listed under `list` (such as `links` or `linkshere`) of the
    /// first page of an answer; `None` when the answer lacks the first page,
    /// the list, or a title in it.
    pub fn linked_from_response(res: &Json, list: &str) -> (out: Option<Vec<WikiPage>>)
        ensures
            match linked_titles(*res, list@) {
                Some(ts) => out matches Some(v) && page_titles(v@) == ts,
                None => out is None,
            },
    {
        let pages = match field_of(field_of(Some(res), "query"), "pages") {
            Some(p) => p.as_object(),
            None => None,
        };
        let pages = match pages {
            Some(p) => p,
            None => return None,
        };
        if pages.len() == 0 {
            return None;
        }
        let first = match pages[0].1.as_object() {
            Some(f) => f,
            None => return None,
        };
        let items = match entry_of(first, list) {
            Some(v) => v.as_array(),
            None => None,
        };
        let items = match items {
            Some(i) => i,
            None => return None,
        };
        WikiPage::titled_items(items)
    }

    /// The pages that the first page of an answer links to (`links`);
    /// `None` when the answer lacks the first page, its links, or a title
    /// in them. Such an answer is broken: the command-line program stops on
    /// it.
    pub fn neighbors_from_response(res: &Json) -> (out: Option<Vec<WikiPage>>)
        ensures
            match linked_titles(*res, "links"@) {
                Some(ts) => out matches Some(v) && page_titles(v@) == ts,
                None => out is None,
            },
    {
        WikiPage::linked_from_response(res, "links")
    }

    /// The pages that link to the first page of an answer (`linkshere`);
    /// `None` when the answer lacks the first page, its backlinks, or a
    /// title in them. Such an answer is broken: the command-line program
    /// stops on it.
    pub fn linkshere_from_response(res: &Json) -> (out: Option<Vec<WikiPage>>)
        ensures
            match linked_titles(*res, "linkshere"@) {
                Some(ts) => out matches Some(v) && page_titles(v@) == ts,
                None => out is None,
            },
    {
        WikiPage::linked_from_response(res, "linkshere")
    }

    /// A page for the `title` of every item; `None` when one has no title.
    fn titled_items(items: &Vec<Json>) -> (out: Option<Vec<WikiPage>>)
        ensures
            match item_titles(items@) {
                Some(ts) => out matches Some(v) && page_titles(v@) == ts,
                None => out is None,
            },
    {
        let mut out: Vec<WikiPage> = Vec::new();
        let mut i: usize = 0;
        while i < items.len()
            invariant
                i <= items@.len(),
                item_titles(items@.take(i as int)) == Some(page_titles(out@)),
            decreases items@.len() - i,
        {
            assert(items@.take(i + 1).drop_last() =~= items@.take(i as int));
            let t = field_of(Some(&items[i]), "title");
            let t = match t {
                Some(v) => v.as_str(),
                None => None,
            };
            match t {
                Some(t) => {
                    out.push(WikiPage(t.to_owned()));
                    assert(page_titles(out@) =~= page_titles(out@.drop_last()).push(t@));
                },
                None => {
                    proof {
                        lemma_item_titles_none_prefix(items@, (i + 1) as int);
                    }
                    return None;
                },
            }
            i = i + 1;
        }
        assert(items@.take(i as int) =~= items@);
        Some(out)
    }

    /// The page text (`parse.text`) of an answer, if present; the
    /// command-line program reports an answer without it and goes on with
    /// no text for that page.
    pub fn parsed_text(res: &Json) -> (out: Option<&str>)
        ensures
            match parsed_text_of(*res) {
                Some(t) => out matches Some(s) && s@ == t,
                None => out is None,
            },
    {
        match field_of(field_of(Some(res), "parse"), "text") {
            Some(t) => t.as_str(),
            None => None,
        }
    }
}

/// Once a prefix of the items lacks a title, so does every longer prefix.
proof fn lemma_item_titles_none_prefix(items: Seq<Json>, n: int)
    requires
        0 < n <= items.len(),
        item_titles(items.take(n)) is None,
    ensures
        item_titles(items) is None,
    decreases items.len() - n,
{
    if n < items.len() {
        assert(items.take(n + 1).drop_last() =~= items.take(n));
        lemma_item_titles_none_prefix(items, n + 1);
    } else {
        assert(items.take(n) =~= items);
    }
}

impl Queriable for WikiPage {
    open spec fn spec_full_title(&self) -> Seq<char> {
        self@
    }

    fn full_title(&self) -> (res: String) {
        self.0.clone()
    }
}

} // verus!
