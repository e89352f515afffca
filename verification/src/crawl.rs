//! The decisions of a crawl: which titles are asked about together, which
//! categories are offered and remembered, where a crawl starts, and how the
//! gathered text is packed into chunks.
use vstd::prelude::*;
use vstd::utf8::encode_utf8;
use crate::category::{category_marker, category_views, title_after_marker, Category};
use crate::filtering::text_views;
use crate::text::{contains_seq, join, push_str};
use crate::wikipage::{page_titles, WikiPage};
use crate::Queriable;

verus! {

/// The full titles of the categories, `Category:` and title.
pub open spec fn full_titles(cs: Seq<Category>) -> Seq<Seq<char>> {
    cs.map_values(|c: Category| category_marker() + c.2@)
}

/// The full titles of `stack[start..end]`, joined by `|`.
fn join_titles_range(stack: &[Category], start: usize, end: usize) -> (res: String)
    requires
        start < end <= stack@.len(),
    ensures
        res@ == join(full_titles(stack@.subrange(start as int, end as int)), "|"@),
{
    let mut res = stack[start].full_title();
    let mut i = start + 1;
    assert(full_titles(stack@.subrange(start as int, i as int)) =~= seq![category_marker() + stack@[start as int].2@]);
    while i < end
        invariant
            start < i <= end <= stack@.len(),
            res@ == join(full_titles(stack@.subrange(start as int, i as int)), "|"@),
        decreases end - i,
    {
        let t = stack[i].full_title();
        push_str(&mut res, "|");
        push_str(&mut res, t.as_str());
        assert(full_titles(stack@.subrange(start as int, i + 1)).drop_last() =~= full_titles(
            stack@.subrange(start as int, i as int),
        ));
        assert(full_titles(stack@.subrange(start as int, i + 1)).last() == t@);
        i = i + 1;
    }
    res
}

/// The full titles of the categories, joined by `|`, as one request asks
/// about several titles.
pub fn join_titles(stack: &[Category]) -> (res: String)
    ensures
        res@ == join(full_titles(stack@), "|"@),
{
    if stack.len() == 0 {
        return String::new();
    }
    let res = join_titles_range(stack, 0, stack.len());
    assert(stack@.subrange(0, stack@.len() as int) =~= stack@);
    res
}

/// How many categories are asked about in one request.
pub const BATCH_SIZE: usize = 20;

/// The number of batches of at most `BATCH_SIZE` that hold `n` categories.
pub open spec fn batch_count(n: nat) -> nat {
    ((n + BATCH_SIZE - 1) / (BATCH_SIZE as int)) as nat
}

/// The `k`-th batch of the categories, as joined titles.
pub open spec fn batch_titles(cs: Seq<Category>, k: int) -> Seq<char> {
    let start = k * BATCH_SIZE;
    let end = if start + BATCH_SIZE < cs.len() {
        start + BATCH_SIZE
    } else {
        cs.len() as int
    };
    join(full_titles(cs.subrange(start, end)), "|"@)
}

/// The end of the `k`-th batch of a list of `n` categories.
pub open spec fn batch_end(n: int, k: int) -> int {
    if k * BATCH_SIZE + BATCH_SIZE < n {
        k * BATCH_SIZE + BATCH_SIZE
    } else {
        n
    }
}

/// The batches of the categories, as joined titles.
pub open spec fn batches(cs: Seq<Category>) -> Seq<Seq<char>> {
    Seq::new(batch_count(cs.len()), |k: int| batch_titles(cs, k))
}

/// The categories split into batches of `BATCH_SIZE` in order (the last one
/// may be shorter), each given as its joined titles.
pub fn info_batches(stack: &[Category]) -> (res: Vec<String>)
    ensures
        res@.len() == batch_count(stack@.len()),
        forall|k: int| 0 <= k < res@.len() ==> (#[trigger] res@[k])@ == batch_titles(stack@, k),
        text_views(res@) == batches(stack@),
{
    let mut res: Vec<String> = Vec::new();
    let mut start: usize = 0;
    let n = stack.len();
    while start < n
        invariant
            n == stack@.len(),
            start <= n,
            start == if res@.len() * BATCH_SIZE < n { res@.len() * BATCH_SIZE } else { n as int },
            res@.len() == 0 || (res@.len() - 1) * BATCH_SIZE < n,
            forall|k: int| 0 <= k < res@.len() ==> (#[trigger] res@[k])@ == batch_titles(stack@, k),
        decreases n - start,
    {
        let end = if n - start > BATCH_SIZE { start + BATCH_SIZE } else { n };
        let batch = join_titles_range(stack, start, end);
        let ghost k = res@.len() as int;
        res.push(batch);
        assert(res@[k]@ == batch_titles(stack@, k));
        start = end;
    }
    let ghost len = res@.len() as int;
    assert(len == ((n + 19) / 20)) by (nonlinear_arith)
        requires
            len * 20 >= n,
            len == 0 || (len - 1) * 20 < n,
            n >= 0,
            len >= 0,
    {
        if len > 0 {
            assert((len - 1) * 20 + 20 == len * 20);
        }
    }
    assert(text_views(res@) =~= batches(stack@));
    res
}

/// The categories of a list, as a set of values.
pub open spec fn category_set(cs: Seq<Category>) -> Set<(u64, u64, Seq<char>)> {
    category_views(cs).to_set()
}

/// The pages of a list, as a set of titles.
pub open spec fn page_set(ps: Seq<WikiPage>) -> Set<Seq<char>> {
    page_titles(ps).to_set()
}

/// The values of `vs` that are not in `seen`, in order.
pub open spec fn unseen<V>(vs: Seq<V>, seen: Set<V>) -> Seq<V>
    decreases vs.len(),
{
    if vs.len() == 0 {
        seq![]
    } else {
        let rest = unseen(vs.drop_last(), seen);
        if seen.contains(vs.last()) {
            rest
        } else {
            rest.push(vs.last())
        }
    }
}

fn same_category(a: &Category, b: &Category) -> (res: bool)
    ensures
        res == (a@ == b@),
{
    a.0 == b.0 && a.1 == b.1 && a.2 == b.2
}

fn holds_category(list: &Vec<Category>, c: &Category) -> (res: bool)
    ensures
        res == category_views(list@).contains(c@),
{
    let mut i: usize = 0;
    while i < list.len()
        invariant
            i <= list@.len(),
            forall|j: int| 0 <= j < i ==> (#[trigger] list@[j])@ != c@,
        decreases list@.len() - i,
    {
        if same_category(&list[i], c) {
            assert(category_views(list@)[i as int] == c@);
            return true;
        }
        i = i + 1;
    }
    assert forall|j: int| 0 <= j < category_views(list@).len() implies category_views(
        list@,
    )[j] != c@ by {
        assert(list@[j]@ != c@);
    }
    false
}

fn insert_category(list: &mut Vec<Category>, c: Category)
    requires
        category_views(old(list)@).no_duplicates(),
    ensures
        category_views(final(list)@).no_duplicates(),
        category_set(final(list)@) == category_set(old(list)@).insert(c@),
{
    if holds_category(list, &c) {
        assert(category_set(list@) =~= category_set(list@).insert(c@));
    } else {
        let ghost before = category_views(list@);
        list.push(c);
        assert(category_views(list@) =~= before.push(c@));
        assert(category_set(list@) =~= category_set(old(list)@).insert(c@)) by {
            broadcast use vstd::seq_lib::group_seq_properties;
        }
    }
}

fn same_page(a: &WikiPage, b: &WikiPage) -> (res: bool)
    ensures
        res == (a@ == b@),
{
    a.0 == b.0
}

fn holds_page(list: &Vec<WikiPage>, p: &WikiPage) -> (res: bool)
    ensures
        res == page_titles(list@).contains(p@),
{
    let mut i: usize = 0;
    while i < list.len()
        invariant
            i <= list@.len(),
            forall|j: int| 0 <= j < i ==> (#[trigger] list@[j])@ != p@,
        decreases list@.len() - i,
    {
        if same_page(&list[i], p) {
            assert(page_titles(list@)[i as int] == p@);
            return true;
        }
        i = i + 1;
    }
    assert forall|j: int| 0 <= j < page_titles(list@).len() implies page_titles(list@)[j]
        != p@ by {
        assert(list@[j]@ != p@);
    }
    false
}

fn insert_page(list: &mut Vec<WikiPage>, p: WikiPage)
    requires
        page_titles(old(list)@).no_duplicates(),
    ensures
        page_titles(final(list)@).no_duplicates(),
        page_set(final(list)@) == page_set(old(list)@).insert(p@),
{
    if holds_page(list, &p) {
        assert(page_set(list@) =~= page_set(list@).insert(p@));
    } else {
        let ghost before = page_titles(list@);
        list.push(p);
        assert(page_titles(list@) =~= before.push(p@));
        assert(page_set(list@) =~= page_set(old(list)@).insert(p@)) by {
            broadcast use vstd::seq_lib::group_seq_properties;
        }
    }
}

/// The state of a crawl: the categories picked and passed over so far, the
/// pages chosen and the pages found in picked categories, the categories of
/// the current round and those waiting to be offered.
pub struct Execution {
    picked_cateories: Vec<Category>,
    discarded_categories: Vec<Category>,
    pages: Vec<WikiPage>,
    pages_stack: Vec<WikiPage>,
    selection: Vec<Category>,
    stack: Vec<Category>,
}

impl Execution {
    /// Each of the remembered collections holds every value once.
    pub closed spec fn wf(&self) -> bool {
        &&& category_views(self.picked_cateories@).no_duplicates()
        &&& category_views(self.discarded_categories@).no_duplicates()
        &&& page_titles(self.pages@).no_duplicates()
        &&& page_titles(self.pages_stack@).no_duplicates()
    }

    /// The categories picked so far.
    pub closed spec fn picked(&self) -> Set<(u64, u64, Seq<char>)> {
        category_set(self.picked_cateories@)
    }

    /// The categories passed over so far.
    pub closed spec fn discarded(&self) -> Set<(u64, u64, Seq<char>)> {
        category_set(self.discarded_categories@)
    }

    /// The pages chosen so far.
    pub closed spec fn chosen_pages(&self) -> Set<Seq<char>> {
        page_set(self.pages@)
    }

    /// The pages found in picked categories so far.
    pub closed spec fn found_pages(&self) -> Set<Seq<char>> {
        page_set(self.pages_stack@)
    }

    /// The categories picked in the current round.
    pub closed spec fn current_selection(&self) -> Seq<Category> {
        self.selection@
    }

    /// The categories waiting to be offered.
    pub closed spec fn waiting(&self) -> Seq<Category> {
        self.stack@
    }

    /// A crawl that has picked, passed over and found nothing.
    pub fn new() -> (res: Execution)
        ensures
            res.wf(),
            res.picked() == Set::<(u64, u64, Seq<char>)>::empty(),
            res.discarded() == Set::<(u64, u64, Seq<char>)>::empty(),
            res.chosen_pages() == Set::<Seq<char>>::empty(),
            res.found_pages() == Set::<Seq<char>>::empty(),
            res.current_selection().len() == 0,
            res.waiting().len() == 0,
    {
        let res = Execution {
            picked_cateories: Vec::new(),
            discarded_categories: Vec::new(),
            pages: Vec::new(),
            pages_stack: Vec::new(),
            selection: Vec::new(),
            stack: Vec::new(),
        };
        assert(res.picked() =~= Set::<(u64, u64, Seq<char>)>::empty());
        assert(res.discarded() =~= Set::<(u64, u64, Seq<char>)>::empty());
        assert(res.chosen_pages() =~= Set::<Seq<char>>::empty());
        assert(res.found_pages() =~= Set::<Seq<char>>::empty());
        res
    }

    /// The categories of `info` that were neither picked nor passed over,
    /// in order: those worth offering.
    pub fn fresh_categories(&self, info: &Vec<Category>) -> (res: Vec<Category>)
        ensures
            category_views(res@) == unseen(category_views(info@), self.picked() + self.discarded()),
    {
        let mut res: Vec<Category> = Vec::new();
        let mut i: usize = 0;
        while i < info.len()
            invariant
                i <= info@.len(),
                category_views(res@) == unseen(
                    category_views(info@.take(i as int)),
                    self.picked() + self.discarded(),
                ),
            decreases info@.len() - i,
        {
            let c = &info[i];
            assert(category_views(info@.take(i + 1)).drop_last() =~= category_views(
                info@.take(i as int),
            ));
            assert(category_views(info@.take(i + 1)).last() == c@);
            let seen = holds_category(&self.discarded_categories, c) || holds_category(
                &self.picked_cateories,
                c,
            );
            proof {
                broadcast use vstd::seq_lib::group_seq_properties;
            }
            if !seen {
                res.push(c.duplicate());
                assert(category_views(res@) =~= category_views(res@.drop_last()).push(c@));
            }
            i = i + 1;
        }
        assert(info@.take(i as int) =~= info@);
        res
    }

    /// Remembers a round: `selection` becomes the current selection and is
    /// picked, and the categories of `offered` that are not picked are
    /// passed over. Every offered category is then picked or passed over.
    /// When the offered categories were neither picked nor passed over
    /// before (as `fresh_categories` gives them), the selection is drawn
    /// from them, and no category was both picked and passed over, none is
    /// afterwards either.
    pub fn record_selection(&mut self, offered: &Vec<Category>, selection: Vec<Category>)
        requires
            old(self).wf(),
        ensures
            final(self).wf(),
            final(self).current_selection() == selection@,
            final(self).picked() == old(self).picked() + category_set(selection@),
            final(self).discarded() == old(self).discarded() + (category_set(offered@)
                - final(self).picked()),
            final(self).chosen_pages() == old(self).chosen_pages(),
            final(self).found_pages() == old(self).found_pages(),
            final(self).waiting() == old(self).waiting(),
            category_set(offered@).subset_of(final(self).picked() + final(self).discarded()),
            old(self).picked().disjoint(old(self).discarded()) && category_set(offered@).disjoint(
                old(self).picked() + old(self).discarded(),
            ) && category_set(selection@).subset_of(category_set(offered@))
                ==> final(self).picked().disjoint(final(self).discarded()),
    {
        let mut i: usize = 0;
        while i < selection.len()
            invariant
                i <= selection@.len(),
                category_views(self.picked_cateories@).no_duplicates(),
                self.picked() == old(self).picked() + category_set(selection@.take(i as int)),
                self.discarded_categories@ == old(self).discarded_categories@,
                self.pages@ == old(self).pages@,
                self.pages_stack@ == old(self).pages_stack@,
                self.stack@ == old(self).waiting(),
            decreases selection@.len() - i,
        {
            let c = selection[i].duplicate();
            insert_category(&mut self.picked_cateories, c);
            assert(category_set(selection@.take(i + 1)) =~= category_set(selection@.take(i as int)).insert(selection@[i as int]@)) by {
                broadcast use vstd::seq_lib::group_seq_properties;
                assert(category_views(selection@.take(i + 1)) =~= category_views(selection@.take(i as int)).push(selection@[i as int]@));
            }
            i = i + 1;
        }
        assert(selection@.take(i as int) =~= selection@);
        let ghost picked_now = self.picked();
        let ghost picked_list = self.picked_cateories@;
        let mut j: usize = 0;
        while j < offered.len()
            invariant
                j <= offered@.len(),
                self.picked() == picked_now,
                self.picked_cateories@ == picked_list,
                category_views(picked_list).no_duplicates(),
                self.pages@ == old(self).pages@,
                self.pages_stack@ == old(self).pages_stack@,
                self.stack@ == old(self).stack@,
                category_views(self.discarded_categories@).no_duplicates(),
                self.discarded() == old(self).discarded() + (category_set(offered@.take(j as int))
                    - picked_now),
            decreases offered@.len() - j,
        {
            let c = &offered[j];
            if !holds_category(&self.picked_cateories, c) {
                insert_category(&mut self.discarded_categories, c.duplicate());
            }
            assert(category_set(offered@.take(j + 1)) =~= category_set(offered@.take(j as int)).insert(offered@[j as int]@)) by {
                broadcast use vstd::seq_lib::group_seq_properties;
                assert(category_views(offered@.take(j + 1)) =~= category_views(offered@.take(j as int)).push(offered@[j as int]@));
            }
            j = j + 1;
        }
        assert(offered@.take(j as int) =~= offered@);
        self.selection = selection;
        proof {
            let op = old(self).picked();
            let od = old(self).discarded();
            let sel = category_set(selection@);
            let off = category_set(offered@);
            assert(off.subset_of(self.picked() + self.discarded()));
            if op.disjoint(od) && off.disjoint(op + od) && sel.subset_of(off) {
                assert forall|x| #[trigger] self.picked().contains(x) implies !self.discarded().contains(x) by {
                    if op.contains(x) {
                        assert(!od.contains(x));
                    } else {
                        assert(sel.contains(x));
                        assert(off.contains(x));
                        assert(!od.contains(x));
                    }
                }
            }
        }
    }

    /// Picks one category.
    pub fn pick(&mut self, c: Category)
        requires
            old(self).wf(),
        ensures
            final(self).wf(),
            final(self).picked() == old(self).picked().insert(c@),
            final(self).discarded() == old(self).discarded(),
            final(self).chosen_pages() == old(self).chosen_pages(),
            final(self).found_pages() == old(self).found_pages(),
            final(self).current_selection() == old(self).current_selection(),
            final(self).waiting() == old(self).waiting(),
    {
        insert_category(&mut self.picked_cateories, c);
    }

    /// Chooses the pages.
    pub fn choose_pages(&mut self, pages: Vec<WikiPage>)
        requires
            old(self).wf(),
        ensures
            final(self).wf(),
            final(self).chosen_pages() == old(self).chosen_pages() + page_set(pages@),
            final(self).picked() == old(self).picked(),
            final(self).discarded() == old(self).discarded(),
            final(self).found_pages() == old(self).found_pages(),
            final(self).current_selection() == old(self).current_selection(),
            final(self).waiting() == old(self).waiting(),
    {
        let mut i: usize = 0;
        while i < pages.len()
            invariant
                i <= pages@.len(),
                page_titles(self.pages@).no_duplicates(),
                self.chosen_pages() == old(self).chosen_pages() + page_set(pages@.take(i as int)),
                self.picked_cateories@ == old(self).picked_cateories@,
                self.discarded_categories@ == old(self).discarded_categories@,
                self.pages_stack@ == old(self).pages_stack@,
                self.selection@ == old(self).current_selection(),
                self.stack@ == old(self).waiting(),
            decreases pages@.len() - i,
        {
            insert_page(&mut self.pages, pages[i].duplicate());
            assert(page_set(pages@.take(i + 1)) =~= page_set(pages@.take(i as int)).insert(pages@[i as int]@)) by {
                broadcast use vstd::seq_lib::group_seq_properties;
                assert(page_titles(pages@.take(i + 1)) =~= page_titles(pages@.take(i as int)).push(pages@[i as int]@));
            }
            i = i + 1;
        }
        assert(pages@.take(i as int) =~= pages@);
    }

    /// Remembers pages found in picked categories.
    pub fn add_found_pages(&mut self, pages: Vec<WikiPage>)
        requires
            old(self).wf(),
        ensures
            final(self).wf(),
            final(self).found_pages() == old(self).found_pages() + page_set(pages@),
            final(self).picked() == old(self).picked(),
            final(self).discarded() == old(self).discarded(),
            final(self).chosen_pages() == old(self).chosen_pages(),
            final(self).current_selection() == old(self).current_selection(),
            final(self).waiting() == old(self).waiting(),
    {
        let mut i: usize = 0;
        while i < pages.len()
            invariant
                i <= pages@.len(),
                page_titles(self.pages_stack@).no_duplicates(),
                self.found_pages() == old(self).found_pages() + page_set(pages@.take(i as int)),
                self.picked_cateories@ == old(self).picked_cateories@,
                self.discarded_categories@ == old(self).discarded_categories@,
                self.pages@ == old(self).pages@,
                self.selection@ == old(self).current_selection(),
                self.stack@ == old(self).waiting(),
            decreases pages@.len() - i,
        {
            insert_page(&mut self.pages_stack, pages[i].duplicate());
            assert(page_set(pages@.take(i + 1)) =~= page_set(pages@.take(i as int)).insert(pages@[i as int]@)) by {
                broadcast use vstd::seq_lib::group_seq_properties;
                assert(page_titles(pages@.take(i + 1)) =~= page_titles(pages@.take(i as int)).push(pages@[i as int]@));
            }
            i = i + 1;
        }
        assert(pages@.take(i as int) =~= pages@);
    }

    /// The picked categories, each once.
    pub fn picked_list(&self) -> (res: &Vec<Category>)
        requires
            self.wf(),
        ensures
            category_set(res@) == self.picked(),
            category_views(res@).no_duplicates(),
    {
        &self.picked_cateories
    }

    /// The chosen pages, each once.
    pub fn chosen_page_list(&self) -> (res: &Vec<WikiPage>)
        requires
            self.wf(),
        ensures
            page_set(res@) == self.chosen_pages(),
            page_titles(res@).no_duplicates(),
    {
        &self.pages
    }

    /// The pages found in picked categories, each once.
    pub fn found_page_list(&self) -> (res: &Vec<WikiPage>)
        requires
            self.wf(),
        ensures
            page_set(res@) == self.found_pages(),
            page_titles(res@).no_duplicates(),
    {
        &self.pages_stack
    }

    /// The categories picked in the current round.
    pub fn selection_list(&self) -> (res: &Vec<Category>)
        ensures
            res@ == self.current_selection(),
    {
        &self.selection
    }

    /// The categories waiting to be offered.
    pub fn stack_list(&self) -> (res: &Vec<Category>)
        ensures
            res@ == self.waiting(),
    {
        &self.stack
    }

    /// Adds categories to those waiting to be offered.
    pub fn extend_stack(&mut self, more: Vec<Category>)
        requires
            old(self).wf(),
        ensures
            final(self).wf(),
            final(self).waiting() == old(self).waiting() + more@,
            final(self).picked() == old(self).picked(),
            final(self).discarded() == old(self).discarded(),
            final(self).chosen_pages() == old(self).chosen_pages(),
            final(self).found_pages() == old(self).found_pages(),
            final(self).current_selection() == old(self).current_selection(),
    {
        let mut more = more;
        self.stack.append(&mut more);
    }

    /// Starts a new round with `next` waiting to be offered; tells whether
    /// there is anything left to offer.
    pub fn replace_stack(&mut self, next: Vec<Category>) -> (left: bool)
        requires
            old(self).wf(),
        ensures
            final(self).wf(),
            final(self).waiting() == next@,
            left == (next@.len() > 0),
            final(self).picked() == old(self).picked(),
            final(self).discarded() == old(self).discarded(),
            final(self).chosen_pages() == old(self).chosen_pages(),
            final(self).found_pages() == old(self).found_pages(),
            final(self).current_selection() == old(self).current_selection(),
    {
        self.stack = next;
        self.stack.len() > 0
    }
}

/// Where a crawl starts: a category, or a single page.
#[derive(Debug)]
pub enum StartPoint {
    Category(Category),
    Page(WikiPage),
}

/// A title naming a category starts from that category, any other title
/// from the page of that name.
pub fn start_point(title: &str) -> (res: StartPoint)
    ensures
        match res {
            StartPoint::Category(c) => contains_seq(title@, category_marker())
                && title_after_marker(title@) == Some(c.2@) && c.0 == 0 && c.1 == 0,
            StartPoint::Page(p) => !contains_seq(title@, category_marker()) && p@ == title@,
        },
{
    match Category::try_from_full(title) {
        Some(c) => StartPoint::Category(c),
        None => StartPoint::Page(WikiPage(title.to_owned())),
    }
}

/// What to do once asked whether to go one level deeper.
#[derive(Debug, Clone, Copy, PartialEq, Eq)]
pub enum Deeper {
    /// The answer was "No": stop crawling.
    Stop,
    /// Any other answer: go on with the subcategories.
    Descend,
    /// The question could not be asked: say so, and go on all the same.
    DescendAfterPromptError,
}

/// The step that follows the answer to "go deeper?"; `None` when no answer
/// could be had.
pub fn deeper_decision(answer: Option<&str>) -> (res: Deeper)
    ensures
        match answer {
            Some(a) => res == (if a@ == "No"@ {
                Deeper::Stop
            } else {
                Deeper::Descend
            }),
            None => res == Deeper::DescendAfterPromptError,
        },
{
    match answer {
        Some(a) => {
            if a.to_owned() == "No".to_owned() {
                Deeper::Stop
            } else {
                Deeper::Descend
            }
        },
        None => Deeper::DescendAfterPromptError,
    }
}

/// The size, in bytes, under which gathered texts are packed together.
pub const CHUNK_LIMIT: usize = 400000;

/// The size in bytes of the UTF-8 encoding of `s`.
pub open spec fn byte_len(s: Seq<char>) -> nat {
    encode_utf8(s).len()
}

/// The texts packed left to right: a text joins the chunk before it while
/// the two together stay under `limit` bytes, and starts a new chunk
/// otherwise.
pub open spec fn pack(texts: Seq<Seq<char>>, limit: nat) -> Seq<Seq<char>>
    decreases texts.len(),
{
    if texts.len() == 0 {
        seq![]
    } else {
        let prev = pack(texts.drop_last(), limit);
        let t = texts.last();
        if prev.len() > 0 && byte_len(prev.last()) + byte_len(t) < limit {
            prev.drop_last().push(prev.last() + t)
        } else {
            prev.push(t)
        }
    }
}

/// The texts one after the other.
pub open spec fn concat_all(texts: Seq<Seq<char>>) -> Seq<char>
    decreases texts.len(),
{
    if texts.len() == 0 {
        seq![]
    } else {
        concat_all(texts.drop_last()) + texts.last()
    }
}

/// The encoding of two texts one after the other is the two encodings one
/// after the other.
pub proof fn lemma_encode_utf8_concat(a: Seq<char>, b: Seq<char>)
    ensures
        encode_utf8(a + b) == encode_utf8(a) + encode_utf8(b),
    decreases a.len(),
{
    if a.len() == 0 {
        assert(a + b =~= b);
    } else {
        lemma_encode_utf8_concat(a.drop_first(), b);
        assert((a + b).drop_first() =~= a.drop_first() + b);
        assert((a + b)[0] == a[0]);
    }
}

/// The size of a whole chunk is the size of its parts.
pub proof fn lemma_byte_len_concat(a: Seq<char>, b: Seq<char>)
    ensures
        byte_len(a + b) == byte_len(a) + byte_len(b),
{
    lemma_encode_utf8_concat(a, b);
}

/// The number of bytes `s` takes, as `str::len` gives it.
fn utf8_len(s: &String) -> (n: usize)
    requires
        byte_len(s@) <= usize::MAX,
    ensures
        n == byte_len(s@),
{
    s.as_str().len()
}

/// Packs the texts into chunks: a text is appended to the chunk before it
/// while both together stay under `limit` bytes.
pub fn pack_texts(texts: Vec<String>, limit: usize) -> (res: Vec<String>)
    requires
        forall|i: int| 0 <= i < texts@.len() ==> byte_len(#[trigger] texts@[i]@) <= usize::MAX,
    ensures
        text_views(res@) == pack(text_views(texts@), limit as nat),
{
    let mut out: Vec<String> = Vec::new();
    let mut i: usize = 0;
    while i < texts.len()
        invariant
            i <= texts@.len(),
            forall|k: int| 0 <= k < texts@.len() ==> byte_len(#[trigger] texts@[k]@) <= usize::MAX,
            forall|k: int| 0 <= k < out@.len() ==> byte_len(#[trigger] out@[k]@) <= usize::MAX,
            text_views(out@) == pack(text_views(texts@.take(i as int)), limit as nat),
        decreases texts@.len() - i,
    {
        let ghost tv = texts@[i as int]@;
        assert(text_views(texts@.take(i + 1)).drop_last() =~= text_views(texts@.take(i as int)));
        assert(text_views(texts@.take(i + 1)).last() == tv);
        let t_len = utf8_len(&texts[i]);
        let mut joined = false;
        if out.len() > 0 {
            let last_len = utf8_len(&out[out.len() - 1]);
            if last_len < limit && t_len < limit - last_len {
                let mut last = out.pop().unwrap();
                let ghost lv = last@;
                last.append(texts[i].as_str());
                proof {
                    lemma_byte_len_concat(lv, tv);
                }
                out.push(last);
                assert(text_views(out@) =~= text_views(out@.drop_last()).push(lv + tv));
                joined = true;
            }
        }
        if !joined {
            out.push(texts[i].clone());
            assert(text_views(out@) =~= text_views(out@.drop_last()).push(tv));
        }
        i = i + 1;
    }
    assert(texts@.take(i as int) =~= texts@);
    out
}

/// The lists one after the other.
pub open spec fn concat_lists(lists: Seq<Seq<Seq<char>>>) -> Seq<Seq<char>>
    decreases lists.len(),
{
    if lists.len() == 0 {
        seq![]
    } else {
        concat_lists(lists.drop_last()) + lists.last()
    }
}

/// The texts of each page, as lists of texts.
pub open spec fn page_text_lists(pages: Seq<Vec<String>>) -> Seq<Seq<Seq<char>>> {
    pages.map_values(|p: Vec<String>| text_views(p@))
}

/// The texts of all pages, page after page.
pub fn flatten_texts(pages: &Vec<Vec<String>>) -> (res: Vec<String>)
    ensures
        text_views(res@) == concat_lists(page_text_lists(pages@)),
{
    let mut out: Vec<String> = Vec::new();
    let mut i: usize = 0;
    while i < pages.len()
        invariant
            i <= pages@.len(),
            text_views(out@) == concat_lists(page_text_lists(pages@.take(i as int))),
        decreases pages@.len() - i,
    {
        let page = &pages[i];
        let ghost before = text_views(out@);
        let mut j: usize = 0;
        while j < page.len()
            invariant
                j <= page@.len(),
                text_views(out@) == before + text_views(page@.take(j as int)),
            decreases page@.len() - j,
        {
            out.push(page[j].clone());
            assert(text_views(page@.take(j + 1)) =~= text_views(page@.take(j as int)).push(page@[j as int]@));
            assert(text_views(out@) =~= text_views(out@.drop_last()).push(page@[j as int]@));
            assert(before + text_views(page@.take(j + 1)) =~= (before + text_views(page@.take(j as int))).push(page@[j as int]@));
            j = j + 1;
        }
        assert(page@.take(j as int) =~= page@);
        assert(page_text_lists(pages@.take(i + 1)).drop_last() =~= page_text_lists(pages@.take(i as int)));
        assert(page_text_lists(pages@.take(i + 1)).last() == text_views(pages@[i as int]@));
        i = i + 1;
    }
    assert(pages@.take(i as int) =~= pages@);
    out
}

/// Packing loses and adds no text: the chunks one after the other are the
/// texts one after the other.
pub proof fn lemma_pack_keeps_text(texts: Seq<Seq<char>>, limit: nat)
    ensures
        concat_all(pack(texts, limit)) == concat_all(texts),
    decreases texts.len(),
{
    if texts.len() > 0 {
        let prev = pack(texts.drop_last(), limit);
        let t = texts.last();
        lemma_pack_keeps_text(texts.drop_last(), limit);
        if prev.len() > 0 && byte_len(prev.last()) + byte_len(t) < limit {
            let p = prev.drop_last().push(prev.last() + t);
            assert(p.drop_last() =~= prev.drop_last());
            assert(prev.drop_last() =~= prev.drop_last());
            assert(concat_all(prev) == concat_all(prev.drop_last()) + prev.last());
            assert(concat_all(p) =~= concat_all(prev.drop_last()) + (prev.last() + t));
        } else {
            assert(prev.push(t).drop_last() =~= prev);
        }
    }
}

/// Every chunk stays under the limit, unless it is a single text that was
/// at or over the limit on its own.
pub proof fn lemma_pack_chunks_bounded(texts: Seq<Seq<char>>, limit: nat)
    ensures
        forall|k: int| 0 <= k < pack(texts, limit).len() ==> byte_len(
            #[trigger] pack(texts, limit)[k],
        ) < limit || texts.contains(pack(texts, limit)[k]),
    decreases texts.len(),
{
    if texts.len() > 0 {
        let rest = texts.drop_last();
        let prev = pack(rest, limit);
        let t = texts.last();
        lemma_pack_chunks_bounded(rest, limit);
        let p = pack(texts, limit);
        assert forall|k: int| 0 <= k < p.len() implies byte_len(#[trigger] p[k]) < limit
            || texts.contains(p[k]) by {
            if k < p.len() - 1 {
                assert(p[k] == prev[k]);
                if rest.contains(prev[k]) {
                    let w = choose|w: int| 0 <= w < rest.len() && rest[w] == prev[k];
                    assert(texts[w] == prev[k]);
                }
            } else if prev.len() > 0 && byte_len(prev.last()) + byte_len(t) < limit {
                lemma_byte_len_concat(prev.last(), t);
            } else {
                assert(texts[texts.len() - 1] == t);
            }
        }
    }
}

/// Packing is greedy: a text is put into a new chunk only when it does not
/// fit in the chunk before it, so any two neighbouring chunks together take
/// at least `limit` bytes.
pub proof fn lemma_pack_greedy(texts: Seq<Seq<char>>, limit: nat)
    ensures
        forall|k: int|
            0 <= k && k + 1 < pack(texts, limit).len() ==> byte_len(
                #[trigger] pack(texts, limit)[k],
            ) + byte_len(pack(texts, limit)[k + 1]) >= limit,
    decreases texts.len(),
{
    if texts.len() > 0 {
        let rest = texts.drop_last();
        let prev = pack(rest, limit);
        let t = texts.last();
        lemma_pack_greedy(rest, limit);
        let p = pack(texts, limit);
        if prev.len() > 0 && byte_len(prev.last()) + byte_len(t) < limit {
            lemma_byte_len_concat(prev.last(), t);
            assert forall|k: int| 0 <= k && k + 1 < p.len() implies byte_len(#[trigger] p[k])
                + byte_len(p[k + 1]) >= limit by {
                assert(p[k] == prev[k]);
                if k + 1 < p.len() - 1 {
                    assert(p[k + 1] == prev[k + 1]);
                } else {
                    assert(p[k + 1] == prev.last() + t);
                    assert(byte_len(prev[k]) + byte_len(prev[k + 1]) >= limit);
                }
            }
        } else {
            assert forall|k: int| 0 <= k && k + 1 < p.len() implies byte_len(#[trigger] p[k])
                + byte_len(p[k + 1]) >= limit by {
                assert(p[k] == prev[k]);
                if k + 1 < p.len() - 1 {
                    assert(p[k + 1] == prev[k + 1]);
                } else {
                    assert(p[k + 1] == t);
                    assert(prev[k] == prev.last());
                }
            }
        }
    }
}

/// The values left by `unseen` are exactly those of `vs` not in `seen`.
pub proof fn lemma_unseen_set<V>(vs: Seq<V>, seen: Set<V>)
    ensures
        unseen(vs, seen).to_set() == vs.to_set() - seen,
    decreases vs.len(),
{
    broadcast use vstd::seq_lib::group_seq_properties;

    if vs.len() == 0 {
        assert(unseen(vs, seen).to_set() =~= vs.to_set() - seen);
    } else {
        lemma_unseen_set(vs.drop_last(), seen);
        let rest = unseen(vs.drop_last(), seen);
        assert(vs =~= vs.drop_last().push(vs.last()));
        assert forall|x: V| #[trigger] vs.to_set().contains(x) <==> vs.drop_last().to_set().contains(x) || x == vs.last() by {
            if vs.contains(x) && x != vs.last() {
                let i = choose|i: int| 0 <= i < vs.len() && vs[i] == x;
                assert(vs.drop_last()[i] == x);
            }
            if vs.drop_last().contains(x) {
                let i = choose|i: int| 0 <= i < vs.drop_last().len() && vs.drop_last()[i] == x;
                assert(vs[i] == x);
            }
        }
        if seen.contains(vs.last()) {
            assert(unseen(vs, seen).to_set() =~= vs.to_set() - seen);
        } else {
            rest.lemma_push_to_set_commute(vs.last());
            assert(unseen(vs, seen).to_set() =~= vs.to_set() - seen);
        }
    }
}

/// A round of offering: from the categories `info`, those neither picked
/// nor passed over are offered, a `selection` of them is picked, and the
/// rest of the offered ones are passed over. Afterwards every category of
/// `info` is picked or passed over, and, if none was both before, none is
/// both after.
pub proof fn lemma_round_settles_every_category(
    e: Execution,
    info: Seq<Category>,
    selection: Seq<Category>,
)
    requires
        e.picked().disjoint(e.discarded()),
        category_set(selection).subset_of(
            unseen(category_views(info), e.picked() + e.discarded()).to_set(),
        ),
    ensures
        ({
            let offered = unseen(category_views(info), e.picked() + e.discarded());
            let picked = e.picked() + category_set(selection);
            let discarded = e.discarded() + (offered.to_set() - picked);
            &&& picked.disjoint(discarded)
            &&& category_set(info).subset_of(picked + discarded)
        }),
{
    let seen = e.picked() + e.discarded();
    let offered = unseen(category_views(info), seen);
    lemma_unseen_set(category_views(info), seen);
    let picked = e.picked() + category_set(selection);
    let discarded = e.discarded() + (offered.to_set() - picked);
    assert(picked.disjoint(discarded));
    assert(category_set(info).subset_of(picked + discarded));
}

/// A category offered once is never offered again. A round starts from
/// `before`, offers the fresh categories of `info1` (as `fresh_categories`
/// gives them) and records some selection (as `record_selection` does),
/// which gives `after`; every later state keeps what was picked and passed
/// over (each method of `Execution` does). Then the fresh categories of
/// any `info2` in a `later` state hold no category of `info1`.
pub proof fn lemma_offered_once(
    before: Execution,
    info1: Seq<Category>,
    offered: Seq<Category>,
    selection: Seq<Category>,
    after: Execution,
    later: Execution,
    info2: Seq<Category>,
)
    requires
        category_views(offered) == unseen(category_views(info1), before.picked() + before.discarded()),
        after.picked() == before.picked() + category_set(selection),
        after.discarded() == before.discarded() + (category_set(offered) - after.picked()),
        after.picked().subset_of(later.picked()),
        after.discarded().subset_of(later.discarded()),
    ensures
        category_set(info1).disjoint(
            unseen(category_views(info2), later.picked() + later.discarded()).to_set(),
        ),
{
    let seen = before.picked() + before.discarded();
    let later_seen = later.picked() + later.discarded();
    lemma_unseen_set(category_views(info1), seen);
    lemma_unseen_set(category_views(info2), later_seen);
    assert(category_set(offered) == category_views(offered).to_set());
    assert forall|x| #[trigger] category_set(info1).contains(x) implies later_seen.contains(x) by {
        if !seen.contains(x) {
            assert(category_set(offered).contains(x));
        }
    }
}

/// Splitting a list of categories after a whole number of batches splits
/// its batches: the batches of `a + b` are those of `a`, then those of `b`.
pub proof fn lemma_batches_split(a: Seq<Category>, b: Seq<Category>)
    requires
        a.len() % (BATCH_SIZE as nat) == 0,
    ensures
        batches(a + b) == batches(a) + batches(b),
{
    let ab = a + b;
    let na = a.len() as int;
    let nb = b.len() as int;
    let m = na / 20;
    assert(na == 20 * m && m >= 0);
    assert(batch_count(a.len()) == m) by (nonlinear_arith)
        requires
            batch_count(a.len()) == (na + 19) / 20,
            na == 20 * m,
            m >= 0,
    ;
    assert(batch_count(ab.len()) == m + batch_count(b.len())) by (nonlinear_arith)
        requires
            batch_count(ab.len()) == (na + nb + 19) / 20,
            batch_count(b.len()) == (nb + 19) / 20,
            na == 20 * m,
            nb >= 0,
    ;
    assert forall|k: int| 0 <= k < batch_count(ab.len()) implies #[trigger] batch_titles(ab, k)
        == (batches(a) + batches(b))[k] by {
        if k < m {
            assert(k * 20 + 20 <= na) by (nonlinear_arith)
                requires
                    k < m,
                    na == 20 * m,
            ;
            assert(ab.subrange(k * 20, k * 20 + 20) =~= a.subrange(k * 20, k * 20 + 20));
            assert((batches(a) + batches(b))[k] == batches(a)[k]);
        } else {
            let j = k - m;
            assert(k * 20 == na + j * 20) by (nonlinear_arith)
                requires
                    j == k - m,
                    na == 20 * m,
            ;
            let end = if j * 20 + 20 < nb {
                j * 20 + 20
            } else {
                nb
            };
            assert(ab.subrange(k * 20, na + end) =~= b.subrange(j * 20, end));
            assert((batches(a) + batches(b))[k] == batches(b)[j]);
        }
    }
    assert(batches(ab) =~= batches(a) + batches(b));
}

/// Joining two non-empty lists is joining each and putting the separator
/// between them.
pub proof fn lemma_join_append(a: Seq<Seq<char>>, b: Seq<Seq<char>>, sep: Seq<char>)
    requires
        a.len() > 0,
        b.len() > 0,
    ensures
        join(a + b, sep) == join(a, sep) + sep + join(b, sep),
    decreases b.len(),
{
    if b.len() == 1 {
        assert((a + b).drop_last() =~= a);
        assert((a + b).last() == b[0]);
    } else {
        lemma_join_append(a, b.drop_last(), sep);
        assert((a + b).drop_last() =~= a + b.drop_last());
        assert((a + b).last() == b.last());
        assert(join(a + b, sep) =~= join(a, sep) + sep + join(b.drop_last(), sep) + sep + b.last());
    }
}

proof fn lemma_batches_prefix(cs: Seq<Category>, m: int)
    requires
        1 <= m <= batch_count(cs.len()),
    ensures
        join(batches(cs).take(m), "|"@) == join(
            full_titles(cs.subrange(0, batch_end(cs.len() as int, m - 1))),
            "|"@,
        ),
        m * BATCH_SIZE - BATCH_SIZE < cs.len(),
    decreases m,
{
    let n = cs.len() as int;
    assert(batch_count(cs.len()) * 20 < n + 20 && batch_count(cs.len()) * 20 >= n) by (nonlinear_arith)
        requires
            batch_count(cs.len()) == (n + 19) / 20,
            n >= 0,
    ;
    assert((m - 1) * 20 < n) by (nonlinear_arith)
        requires
            m <= batch_count(cs.len()),
            batch_count(cs.len()) * 20 < n + 20,
            m >= 1,
    ;
    if m == 1 {
        assert(batches(cs).take(1) =~= seq![batch_titles(cs, 0)]);
    } else {
        lemma_batches_prefix(cs, m - 1);
        let s = batch_end(n, m - 2);
        let e = batch_end(n, m - 1);
        assert(s == (m - 1) * 20);
        let a = full_titles(cs.subrange(0, s));
        let b = full_titles(cs.subrange(s, e));
        assert(full_titles(cs.subrange(0, e)) =~= a + b);
        assert(a.len() > 0);
        assert(b.len() > 0);
        lemma_join_append(a, b, "|"@);
        assert(batches(cs).take(m).drop_last() =~= batches(cs).take(m - 1));
        assert(batches(cs).take(m).last() == batch_titles(cs, m - 1));
        assert(batch_titles(cs, m - 1) == join(b, "|"@));
    }
}

/// The batches together ask about every category once, in order: joining
/// the batches with `|` gives the joined titles of the whole list.
pub proof fn lemma_batches_cover_all(cs: Seq<Category>)
    requires
        cs.len() > 0,
    ensures
        join(batches(cs), "|"@) == join(full_titles(cs), "|"@),
{
    let n = cs.len() as int;
    let count = batch_count(cs.len());
    assert(count >= 1 && count * 20 >= n && (count - 1) * 20 < n) by (nonlinear_arith)
        requires
            count == (n + 19) / 20,
            n > 0,
    ;
    lemma_batches_prefix(cs, count as int);
    assert(batches(cs).take(count as int) =~= batches(cs));
    assert(batch_end(n, count - 1) == n);
    assert(cs.subrange(0, n) =~= cs);
}

} // verus!
