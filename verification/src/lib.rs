//! Gathers Japanese text from Wikipedia: categories and pages are read from
//! the answers of the MediaWiki API, their text is cleaned of noise, and the
//! result is packed into large chunks of reading material.
use vstd::prelude::*;

pub mod category;
pub mod crawl;
pub mod filtering;
pub mod json;
pub mod requests;
pub mod text;
pub mod wikipage;

verus! {

/// Something that can be asked about by its full wiki title.
pub trait Queriable {
    /// The full title, as the wiki API expects it.
    spec fn spec_full_title(&self) -> Seq<char>;

    /// The full title, as the wiki API expects it.
    fn full_title(&self) -> (res: String)
        ensures
            res@ == self.spec_full_title(),
    ;
}

} // verus!
