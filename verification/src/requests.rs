//! The parameters of the requests sent to the wiki API.
use vstd::prelude::*;

verus! {

/// The endpoint of the Japanese Wikipedia API.
pub const API_URL: &'static str = "https://jp.wikipedia.org/w/api.php";

/// The parameters as pairs of texts.
pub open spec fn param_views(ps: Seq<(String, String)>) -> Seq<(Seq<char>, Seq<char>)> {
    ps.map_values(|p: (String, String)| (p.0@, p.1@))
}

fn param(key: &str, value: &str) -> (res: (String, String))
    ensures
        res.0@ == key@,
        res.1@ == value@,
{
    (key.to_owned(), value.to_owned())
}

fn params_of(pairs: Vec<(&str, &str)>) -> (res: Vec<(String, String)>)
    ensures
        param_views(res@) == pairs@.map_values(|p: (&str, &str)| (p.0@, p.1@)),
{
    let mut res: Vec<(String, String)> = Vec::new();
    let mut i: usize = 0;
    while i < pairs.len()
        invariant
            i <= pairs@.len(),
            param_views(res@) == pairs@.take(i as int).map_values(
                |p: (&str, &str)| (p.0@, p.1@),
            ),
        decreases pairs@.len() - i,
    {
        let (k, v) = pairs[i];
        res.push(param(k, v));
        assert(pairs@.take(i + 1) =~= pairs@.take(i as int).push(pairs@[i as int]));
        assert(param_views(res@) =~= param_views(res@.drop_last()).push((k@, v@)));
        assert(pairs@.take(i + 1).map_values(|p: (&str, &str)| (p.0@, p.1@)) =~= pairs@.take(
            i as int,
        ).map_values(|p: (&str, &str)| (p.0@, p.1@)).push((k@, v@)));
        i = i + 1;
    }
    assert(pairs@.take(i as int) =~= pairs@);
    res
}

/// The article pages in the category `full`.
pub fn pages_params(full: &str) -> (res: Vec<(String, String)>)
    ensures
        param_views(res@) == seq![
            ("action"@, "query"@),
            ("list"@, "categorymembers"@),
            ("cmtype"@, "page"@),
            ("cmtitle"@, full@),
        ],
{
    let res = params_of(
        vec![("action", "query"), ("list", "categorymembers"), ("cmtype", "page"), ("cmtitle", full)],
    );
    proof {
        assert(param_views(res@) =~= seq![
            ("action"@, "query"@),
            ("list"@, "categorymembers"@),
            ("cmtype"@, "page"@),
            ("cmtitle"@, full@),
        ]);
    }
    res
}

/// The categories that the page or category `full` belongs to, with their hidden flag.
pub fn parent_categories_params(full: &str) -> (res: Vec<(String, String)>)
    ensures
        param_views(res@) == seq![
            ("action"@, "query"@),
            ("prop"@, "categories"@),
            ("clprop"@, "hidden"@),
            ("titles"@, full@),
        ],
{
    let res = params_of(vec![("action", "query"), ("prop", "categories"), ("clprop", "hidden"), ("titles", full)]);
    proof {
        assert(param_views(res@) =~= seq![
            ("action"@, "query"@),
            ("prop"@, "categories"@),
            ("clprop"@, "hidden"@),
            ("titles"@, full@),
        ]);
    }
    res
}

/// The subcategories of the category `full`.
pub fn subcategories_params(full: &str) -> (res: Vec<(String, String)>)
    ensures
        param_views(res@) == seq![
            ("action"@, "query"@),
            ("list"@, "categorymembers"@),
            ("cmtype"@, "subcat"@),
            ("cllimit"@, "500"@),
            ("cmtitle"@, full@),
        ],
{
    let res = params_of(vec![("action", "query"), ("list", "categorymembers"), ("cmtype", "subcat"), ("cllimit", "500"), ("cmtitle", full)]);
    proof {
        assert(param_views(res@) =~= seq![
            ("action"@, "query"@),
            ("list"@, "categorymembers"@),
            ("cmtype"@, "subcat"@),
            ("cllimit"@, "500"@),
            ("cmtitle"@, full@),
        ]);
    }
    res
}

/// The page and subcategory counts of the categories `full` (titles joined by `|`).
pub fn info_params(full: &str) -> (res: Vec<(String, String)>)
    ensures
        param_views(res@) == seq![
            ("action"@, "query"@),
            ("prop"@, "categoryinfo"@),
            ("climit"@, "500"@),
            ("titles"@, full@),
        ],
{
    let res = params_of(vec![("action", "query"), ("prop", "categoryinfo"), ("climit", "500"), ("titles", full)]);
    proof {
        assert(param_views(res@) =~= seq![
            ("action"@, "query"@),
            ("prop"@, "categoryinfo"@),
            ("climit"@, "500"@),
            ("titles"@, full@),
        ]);
    }
    res
}

/// The parsed HTML text of the page `page`.
pub fn page_contents_params(page: &str) -> (res: Vec<(String, String)>)
    ensures
        param_views(res@) == seq![
            ("action"@, "parse"@),
            ("prop"@, "text"@),
            ("formatversion"@, "2"@),
            ("page"@, page@),
        ],
{
    let res = params_of(vec![("action", "parse"), ("prop", "text"), ("formatversion", "2"), ("page", page)]);
    proof {
        assert(param_views(res@) =~= seq![
            ("action"@, "parse"@),
            ("prop"@, "text"@),
            ("formatversion"@, "2"@),
            ("page"@, page@),
        ]);
    }
    res
}

/// The article pages that the page `page` links to.
pub fn neighbors_params(page: &str) -> (res: Vec<(String, String)>)
    ensures
        param_views(res@) == seq![
            ("action"@, "query"@),
            ("prop"@, "links"@),
            ("pllimit"@, "max"@),
            ("plnamespace"@, "0"@),
            ("titles"@, page@),
        ],
{
    let res = params_of(vec![("action", "query"), ("prop", "links"), ("pllimit", "max"), ("plnamespace", "0"), ("titles", page)]);
    proof {
        assert(param_views(res@) =~= seq![
            ("action"@, "query"@),
            ("prop"@, "links"@),
            ("pllimit"@, "max"@),
            ("plnamespace"@, "0"@),
            ("titles"@, page@),
        ]);
    }
    res
}

/// The article pages that link to the page `page`.
pub fn linkshere_params(page: &str) -> (res: Vec<(String, String)>)
    ensures
        param_views(res@) == seq![
            ("action"@, "query"@),
            ("prop"@, "linkshere"@),
            ("lhnamespace"@, "0"@),
            ("titles"@, page@),
        ],
{
    let res = params_of(vec![("action", "query"), ("prop", "linkshere"), ("lhnamespace", "0"), ("titles", page)]);
    proof {
        assert(param_views(res@) =~= seq![
            ("action"@, "query"@),
            ("prop"@, "linkshere"@),
            ("lhnamespace"@, "0"@),
            ("titles"@, page@),
        ]);
    }
    res
}

} // verus!
