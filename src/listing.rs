//! The chapter listing: the novel's title from the first listing page, then
//! the chapters of each page in document order, page after page.
//!
//! The iterator does not fetch: when a page is used up it asks for the next
//! one (`Step::NeedPage`) and goes on with what it is handed.

use vstd::prelude::*;
use crate::dom::{lemma_found_matches, Node, Selector, Attr, attr_value, attribute, children_of, find_first, select_first};
use crate::fetch::FetchError;
use crate::render::Chapter;

verus! {

/// Why the listing could not be opened.
#[derive(PartialEq, Eq, Structural, Debug, Clone, Copy)]
pub enum InitError {
    /// The first listing page is missing (`None`) or could not be fetched.
    PageUnavailable(Option<FetchError>),
    TitleContainerMissing,
    TitleAnchorMissing,
    TitleAttributeMissing,
    ChapterListContainerMissing,
}

/// What the iterator does next.
pub enum Step {
    /// The next chapter of the listing.
    Chapter(Chapter),
    /// The current page is used up: listing page number `n` is wanted, to be
    /// handed over with `receive_page`.
    NeedPage(u64),
    /// The listing is over.
    End,
}

pub open spec fn title_container() -> Selector {
    Selector::Class("novel-item")
}

pub open spec fn title_anchor() -> Selector {
    Selector::Tag("a")
}

pub open spec fn chapter_list() -> Selector {
    Selector::Class("chapter-list")
}

/// The candidate entries of a listing page: the children of its chapter list.
pub open spec fn list_entries(doc: Node) -> Option<Seq<Node>> {
    match find_first(doc, chapter_list()) {
        Some(list) => Some(children_of(list)),
        None => None,
    }
}

pub open spec fn attrs_of(n: Node) -> Seq<Attr> {
    match n {
        Node::Element { attrs, .. } => attrs@,
        _ => Seq::empty(),
    }
}

/// The novel's display title on the first listing page.
pub open spec fn title_outcome(doc: Node) -> Result<Seq<char>, InitError> {
    match find_first(doc, title_container()) {
        None => Err(InitError::TitleContainerMissing),
        Some(c) => match find_first(c, title_anchor()) {
            None => Err(InitError::TitleAnchorMissing),
            Some(a) => match attr_value(attrs_of(a), "title"@) {
                None => Err(InitError::TitleAttributeMissing),
                Some(t) => Ok(t),
            },
        },
    }
}

/// The index of the first element among `ns`.
pub open spec fn first_element(ns: Seq<Node>) -> Option<nat>
    decreases ns.len(),
{
    if ns.len() == 0 {
        None
    } else if ns[0] is Element {
        Some(0)
    } else {
        match first_element(ns.drop_first()) {
            Some(j) => Some(j + 1),
            None => None,
        }
    }
}

/// The link of a listing entry: the first element among its children, where
/// the entry is an element.
pub open spec fn entry_link(e: Node) -> Option<Node> {
    match e {
        Node::Element { children, .. } => match first_element(children@) {
            Some(j) => Some(children@[j as int]),
            None => None,
        },
        _ => None,
    }
}

/// The title and path a link gives, where it carries both and neither is
/// empty.
pub open spec fn link_stub(link: Node) -> Option<(Seq<char>, Seq<char>)> {
    match (attr_value(attrs_of(link), "title"@), attr_value(attrs_of(link), "href"@)) {
        (Some(t), Some(h)) => if t.len() > 0 && h.len() > 0 {
            Some((t, h))
        } else {
            None
        },
        _ => None,
    }
}

/// The index of the first entry among `es` that has a link.
pub open spec fn next_link(es: Seq<Node>) -> Option<nat>
    decreases es.len(),
{
    if es.len() == 0 {
        None
    } else if entry_link(es[0]) is Some {
        Some(0)
    } else {
        match next_link(es.drop_first()) {
            Some(j) => Some(j + 1),
            None => None,
        }
    }
}

proof fn lemma_first_element(ns: Seq<Node>)
    ensures
        match first_element(ns) {
            Some(j) => j < ns.len() && ns[j as int] is Element
                && forall|k: int| 0 <= k < j ==> !(#[trigger] ns[k] is Element),
            None => forall|k: int| 0 <= k < ns.len() ==> !(#[trigger] ns[k] is Element),
        },
    decreases ns.len(),
{
    if ns.len() > 0 && !(ns[0] is Element) {
        let rest = ns.drop_first();
        lemma_first_element(rest);
        match first_element(rest) {
            Some(j) => {
                assert forall|k: int| 0 <= k < j + 1 implies !(#[trigger] ns[k] is Element) by {
                    if k > 0 {
                        assert(ns[k] == rest[k - 1]);
                    }
                }
            },
            None => {
                assert forall|k: int| 0 <= k < ns.len() implies !(#[trigger] ns[k] is Element) by {
                    if k > 0 {
                        assert(ns[k] == rest[k - 1]);
                    }
                }
            },
        }
    }
}

proof fn lemma_next_link(es: Seq<Node>)
    ensures
        match next_link(es) {
            Some(j) => j < es.len() && entry_link(es[j as int]) is Some
                && forall|k: int| 0 <= k < j ==> #[trigger] entry_link(es[k]) is None,
            None => forall|k: int| 0 <= k < es.len() ==> #[trigger] entry_link(es[k]) is None,
        },
    decreases es.len(),
{
    if es.len() > 0 && entry_link(es[0]) is None {
        let rest = es.drop_first();
        lemma_next_link(rest);
        match next_link(rest) {
            Some(j) => {
                assert forall|k: int| 0 <= k < j + 1 implies #[trigger] entry_link(es[k]) is None by {
                    if k > 0 {
                        assert(es[k] == rest[k - 1]);
                    }
                }
            },
            None => {
                assert forall|k: int| 0 <= k < es.len() implies #[trigger] entry_link(es[k]) is None by {
                    if k > 0 {
                        assert(es[k] == rest[k - 1]);
                    }
                }
            },
        }
    }
}

/// Scanning stops at `j`: the first entry that has a link.
proof fn lemma_next_link_at(es: Seq<Node>, j: int)
    requires
        0 <= j < es.len(),
        entry_link(es[j]) is Some,
        forall|k: int| 0 <= k < j ==> #[trigger] entry_link(es[k]) is None,
    ensures
        next_link(es) == Some(j as nat),
{
    lemma_next_link(es);
    match next_link(es) {
        Some(i) => {
            if i < j {
                assert(entry_link(es[i as int]) is None);
            }
            if i > j {
                assert(entry_link(es[j]) is None);
            }
        },
        None => {
            assert(entry_link(es[j]) is None);
        },
    }
}

proof fn lemma_no_next_link(es: Seq<Node>)
    requires
        forall|k: int| 0 <= k < es.len() ==> #[trigger] entry_link(es[k]) is None,
    ensures
        next_link(es) is None,
{
    lemma_next_link(es);
    if let Some(i) = next_link(es) {
        assert(entry_link(es[i as int]) is None);
    }
}

/// The first element among `ns`.
fn first_element_of(ns: &Vec<Node>) -> (r: Option<&Node>)
    ensures
        match first_element(ns@) {
            Some(j) => r == Some(&ns@[j as int]),
            None => r is None,
        },
{
    proof {
        lemma_first_element(ns@);
    }
    let mut i: usize = 0;
    while i < ns.len()
        invariant
            i <= ns.len(),
            forall|k: int| 0 <= k < i ==> !(#[trigger] ns@[k] is Element),
            match first_element(ns@) {
                Some(j) => j < ns@.len() && ns@[j as int] is Element
                    && forall|k: int| 0 <= k < j ==> !(#[trigger] ns@[k] is Element),
                None => forall|k: int| 0 <= k < ns@.len() ==> !(#[trigger] ns@[k] is Element),
            },
        decreases ns.len() - i,
    {
        if let Node::Element { .. } = &ns[i] {
            proof {
                if let Some(j) = first_element(ns@) {
                    if j > i {
                        assert(!(ns@[i as int] is Element));
                    }
                    if j < i {
                        assert(!(ns@[j as int] is Element));
                    }
                } else {
                    assert(!(ns@[i as int] is Element));
                }
            }
            return Some(&ns[i]);
        }
        i += 1;
    }
    proof {
        if let Some(j) = first_element(ns@) {
            assert(!(ns@[j as int] is Element));
        }
    }
    None
}

/// The link of a listing entry.
fn link_of(e: &Node) -> (r: Option<&Node>)
    ensures
        match entry_link(*e) {
            Some(l) => r == Some(&l),
            None => r is None,
        },
{
    match e {
        Node::Element { children, .. } => first_element_of(children),
        _ => None,
    }
}

/// The children of the chapter list of a page that has one.
fn entries_of(doc: &Node) -> (r: Option<&Vec<Node>>)
    ensures
        match list_entries(*doc) {
            Some(es) => r matches Some(v) && v@ == es,
            None => r is None,
        },
{
    proof {
        lemma_found_matches(seq![*doc], 0, chapter_list());
    }
    match select_first(doc, &Selector::Class("chapter-list")) {
        Some(Node::Element { children, .. }) => Some(children),
        _ => None,
    }
}

/// Reads the title and path of a link.
fn stub_of(link: &Node) -> (r: Option<Chapter>)
    ensures
        match link_stub(*link) {
            Some(p) => r matches Some(c) && c.title@ == p.0 && c.url@ == p.1,
            None => r is None,
        },
{
    match link {
        Node::Element { attrs, .. } => {
            let title = match attribute(attrs, "title") {
                Some(t) => t.clone(),
                None => return None,
            };
            let url = match attribute(attrs, "href") {
                Some(h) => h.clone(),
                None => return None,
            };
            if title.as_str().is_empty() || url.as_str().is_empty() {
                return None;
            }
            Some(Chapter { title, url })
        },
        _ => {
            proof {
                reveal_strlit("title");
            }
            assert(attr_value(attrs_of(*link), "title"@) is None);
            None
        },
    }
}

/// The stubs of the entries of one page, in order, and whether a link without
/// a title or a path stopped the scan.
pub open spec fn page_scan(es: Seq<Node>) -> (Seq<(Seq<char>, Seq<char>)>, bool)
    decreases es.len(),
{
    if es.len() == 0 {
        (Seq::empty(), false)
    } else {
        match entry_link(es[0]) {
            None => page_scan(es.drop_first()),
            Some(l) => match link_stub(l) {
                None => (Seq::empty(), true),
                Some(p) => (seq![p] + page_scan(es.drop_first()).0, page_scan(es.drop_first()).1),
            },
        }
    }
}

/// The chapters a listing yields from entries `es` on, when the pages it asks
/// for next are, in turn, `pages`, and any page past those is missing.
pub open spec fn listing(es: Seq<Node>, pages: Seq<Result<Option<Node>, FetchError>>) -> Seq<(Seq<char>, Seq<char>)>
    decreases pages.len(),
{
    let (s, faulted) = page_scan(es);
    if faulted || pages.len() == 0 {
        s
    } else {
        s + match pages[0] {
            Ok(Some(doc)) => match list_entries(doc) {
                Some(next) => listing(next, pages.drop_first()),
                None => Seq::empty(),
            },
            _ => Seq::empty(),
        }
    }
}

/// The title and path of each chapter.
pub open spec fn stubs_view(cs: Seq<Chapter>) -> Seq<(Seq<char>, Seq<char>)> {
    cs.map_values(|c: Chapter| (c.title@, c.url@))
}

/// The scan of a page, cut at its first linked entry.
proof fn lemma_page_scan(es: Seq<Node>)
    ensures
        match next_link(es) {
            None => page_scan(es) == (Seq::<(Seq<char>, Seq<char>)>::empty(), false),
            Some(j) => match link_stub(entry_link(es[j as int])->0) {
                None => page_scan(es) == (Seq::<(Seq<char>, Seq<char>)>::empty(), true),
                Some(p) => page_scan(es) == (seq![p] + page_scan(es.skip(j as int + 1)).0,
                    page_scan(es.skip(j as int + 1)).1),
            },
        },
    decreases es.len(),
{
    if es.len() > 0 {
        let rest = es.drop_first();
        lemma_page_scan(rest);
        lemma_next_link(rest);
        if entry_link(es[0]) is None {
            if let Some(j) = next_link(rest) {
                assert(rest.skip(j as int + 1) =~= es.skip(j as int + 2));
                assert(rest[j as int] == es[j as int + 1]);
            }
        } else {
            assert(es.skip(1) == rest);
        }
    }
}

/// Every entry of `es` that has a link carries a title and a path in it.
pub open spec fn well_linked(es: Seq<Node>) -> bool {
    forall|k: int| 0 <= k < es.len() ==> (#[trigger] entry_link(es[k]) matches Some(l) ==> link_stub(l) is Some)
}

/// The title and path of the link of each entry of `es` that has one, in order.
pub open spec fn entry_stubs(es: Seq<Node>) -> Seq<(Seq<char>, Seq<char>)>
    decreases es.len(),
{
    if es.len() == 0 {
        Seq::empty()
    } else {
        match entry_link(es[0]) {
            Some(l) => seq![link_stub(l)->0] + entry_stubs(es.drop_first()),
            None => entry_stubs(es.drop_first()),
        }
    }
}

/// The stubs of the entries of the chapter lists of `docs`, page after page.
pub open spec fn stubs_of_pages(docs: Seq<Node>) -> Seq<(Seq<char>, Seq<char>)>
    decreases docs.len(),
{
    if docs.len() == 0 {
        Seq::empty()
    } else {
        entry_stubs(list_entries(docs[0])->0) + stubs_of_pages(docs.drop_first())
    }
}

/// The replies to page requests when `docs` come in turn, then a missing page.
pub open spec fn served(docs: Seq<Node>) -> Seq<Result<Option<Node>, FetchError>> {
    docs.map_values(|d: Node| Ok::<Option<Node>, FetchError>(Some(d))).push(Ok(None))
}

proof fn lemma_scan_well_linked(es: Seq<Node>)
    requires
        well_linked(es),
    ensures
        page_scan(es) == (entry_stubs(es), false),
    decreases es.len(),
{
    if es.len() > 0 {
        let rest = es.drop_first();
        assert forall|k: int| 0 <= k < rest.len() implies (#[trigger] entry_link(rest[k]) matches Some(l) ==> link_stub(l) is Some) by {
            assert(rest[k] == es[k + 1]);
        }
        lemma_scan_well_linked(rest);
        assert(entry_link(es[0]) matches Some(l) ==> link_stub(l) is Some);
    }
}

/// When every linked entry of every page carries a title and a path, and the
/// pages after the first come in turn, each with a chapter list, until one is
/// missing, the listing yields the stub of every linked entry of every page,
/// page after page, in document order, and nothing else: entries without a
/// link, such as the white space between list items, are passed over.
pub proof fn lemma_listing_yields_every_entry(first: Seq<Node>, later: Seq<Node>)
    requires
        well_linked(first),
        forall|i: int| 0 <= i < later.len() ==> (#[trigger] list_entries(later[i]) matches Some(es) && well_linked(es)),
    ensures
        listing(first, served(later)) == entry_stubs(first) + stubs_of_pages(later),
    decreases later.len(),
{
    lemma_scan_well_linked(first);
    let pages = served(later);
    if later.len() == 0 {
        assert(pages[0] == Ok::<Option<Node>, FetchError>(None));
        assert(stubs_of_pages(later) =~= Seq::empty());
        assert(listing(first, pages) =~= entry_stubs(first) + stubs_of_pages(later));
    } else {
        let rest = later.drop_first();
        assert(list_entries(later[0]) matches Some(es) && well_linked(es));
        assert forall|i: int| 0 <= i < rest.len() implies (#[trigger] list_entries(rest[i]) matches Some(es) && well_linked(es)) by {
            assert(rest[i] == later[i + 1]);
        }
        assert(pages.drop_first() =~= served(rest));
        lemma_listing_yields_every_entry(list_entries(later[0])->0, rest);
        assert(listing(first, pages) =~= entry_stubs(first) + stubs_of_pages(later));
    }
}

/// The lazy sequence of the chapters of a novel's listing.
pub struct ChapterListIter {
    /// The novel's identifier, from which listing addresses are made.
    pub title: String,
    page_idx: u64,
    current_page: Node,
    cursor: usize,
    finished: bool,
}

/// An opened listing: the novel's display title and its chapters.
pub struct ChapterList {
    pub iter: ChapterListIter,
    pub proper_title: String,
}

impl ChapterListIter {
    /// The novel's identifier.
    pub closed spec fn novel(&self) -> Seq<char> {
        self.title@
    }

    /// The novel's identifier, from which listing addresses are made.
    pub fn novel_id(&self) -> (r: &String)
        ensures
            r@ == self.novel(),
    {
        &self.title
    }

    /// The number of the listing page in use.
    pub closed spec fn page(&self) -> nat {
        self.page_idx as nat
    }

    /// The entries of the current page not yet looked at.
    pub closed spec fn remaining(&self) -> Seq<Node> {
        match list_entries(self.current_page) {
            Some(es) => es.skip(self.cursor as int),
            None => Seq::empty(),
        }
    }

    /// Whether the listing is over.
    pub closed spec fn is_finished(&self) -> bool {
        self.finished
    }

    pub closed spec fn wf(&self) -> bool {
        &&& list_entries(self.current_page) is Some
        &&& self.cursor <= list_entries(self.current_page)->0.len()
    }

    /// The chapters still to come, when the pages asked for next are `pages`.
    pub open spec fn pending(&self, pages: Seq<Result<Option<Node>, FetchError>>) -> Seq<(Seq<char>, Seq<char>)> {
        if self.is_finished() {
            Seq::empty()
        } else {
            listing(self.remaining(), pages)
        }
    }

    /// Takes the listing one step on: the next chapter, a request for the
    /// next page, or its end. A link without a title or a path ends the
    /// listing.
    pub fn advance(&mut self) -> (r: Step)
        requires
            old(self).wf(),
        ensures
            final(self).wf(),
            final(self).novel() == old(self).novel(),
            old(self).is_finished() ==> r is End && final(self).is_finished(),
            !old(self).is_finished() ==> match next_link(old(self).remaining()) {
                Some(j) => match link_stub(entry_link(old(self).remaining()[j as int])->0) {
                    Some(p) => {
                        &&& r matches Step::Chapter(c) && c.title@ == p.0 && c.url@ == p.1
                        &&& final(self).remaining() == old(self).remaining().skip(j as int + 1)
                        &&& final(self).page() == old(self).page()
                        &&& !final(self).is_finished()
                    },
                    None => r is End && final(self).is_finished(),
                },
                None => if old(self).page() == u64::MAX {
                    r is End && final(self).is_finished()
                } else {
                    &&& r == Step::NeedPage((old(self).page() + 1) as u64)
                    &&& final(self).page() == old(self).page() + 1
                    &&& final(self).remaining() == Seq::<Node>::empty()
                    &&& !final(self).is_finished()
                },
            },
    {
        if self.finished {
            return Step::End;
        }
        let ghost rem = self.remaining();
        let entries = match entries_of(&self.current_page) {
            Some(es) => es,
            None => return Step::End,
        };
        let start = self.cursor;
        let mut i = start;
        let ghost s0 = *self;
        while i < entries.len()
            invariant
                *self == s0,
                s0 == *old(self),
                s0.wf(),
                !s0.finished,
                s0.cursor == start,
                list_entries(s0.current_page) == Some(entries@),
                start <= i <= entries@.len(),
                rem == entries@.skip(start as int),
                forall|k: int| start <= k < i ==> #[trigger] entry_link(entries@[k]) is None,
            decreases entries.len() - i,
        {
            if let Some(link) = link_of(&entries[i]) {
                proof {
                    assert forall|k: int| 0 <= k < i - start implies #[trigger] entry_link(rem[k]) is None by {
                        assert(rem[k] == entries@[k + start]);
                    }
                    assert(rem[i - start] == entries@[i as int]);
                    lemma_next_link_at(rem, i - start);
                }
                let stub = stub_of(link);
                match stub {
                    Some(c) => {
                        self.cursor = i + 1;
                        assert(entries@.skip(i + 1) == rem.skip(i - start + 1));
                        return Step::Chapter(c);
                    },
                    None => {
                        self.finished = true;
                        return Step::End;
                    },
                }
            }
            i += 1;
        }
        proof {
            assert forall|k: int| 0 <= k < rem.len() implies #[trigger] entry_link(rem[k]) is None by {
                assert(rem[k] == entries@[k + start]);
            }
            lemma_no_next_link(rem);
        }
        let n = entries.len();
        if self.page_idx == u64::MAX {
            self.finished = true;
            return Step::End;
        }
        self.page_idx = self.page_idx + 1;
        self.cursor = n;
        assert(self.remaining() =~= Seq::<Node>::empty());
        Step::NeedPage(self.page_idx)
    }

    /// Goes on with the listing page that was asked for. A missing page, a
    /// failed fetch or a page without a chapter list ends the listing.
    pub fn receive_page(&mut self, page: Result<Option<Node>, FetchError>)
        requires
            old(self).wf(),
        ensures
            final(self).wf(),
            final(self).novel() == old(self).novel(),
            final(self).page() == old(self).page(),
            old(self).is_finished() ==> final(self).is_finished(),
            !old(self).is_finished() ==> match page {
                Ok(Some(doc)) => match list_entries(doc) {
                    Some(es) => final(self).remaining() == es && !final(self).is_finished(),
                    None => final(self).is_finished(),
                },
                _ => final(self).is_finished(),
            },
    {
        if self.finished {
            return;
        }
        match page {
            Ok(Some(doc)) => {
                if entries_of(&doc).is_some() {
                    self.current_page = doc;
                    self.cursor = 0;
                    assert(list_entries(self.current_page)->0.skip(0) == list_entries(self.current_page)->0);
                } else {
                    self.finished = true;
                }
            },
            _ => {
                self.finished = true;
            },
        }
    }

    /// Runs the listing to its end, handing over `pages`, in turn, as the
    /// pages it asks for; a page asked for past them is taken as missing.
    pub fn drain(&mut self, later: Vec<Result<Option<Node>, FetchError>>) -> (r: Vec<Chapter>)
        requires
            old(self).wf(),
            old(self).page() + later@.len() < u64::MAX,
        ensures
            final(self).wf(),
            final(self).is_finished(),
            stubs_view(r@) == old(self).pending(later@),
    {
        let mut pages = later;
        let mut out: Vec<Chapter> = Vec::new();
        loop
            invariant
                self.wf(),
                self.is_finished() || self.page() + pages@.len() < u64::MAX,
                stubs_view(out@) + self.pending(pages@) == old(self).pending(later@),
            decreases pages@.len() + (if self.is_finished() { 0int } else { 1int }), self.remaining().len(),
        {
            proof {
                lemma_page_scan(self.remaining());
                lemma_next_link(self.remaining());
            }
            let ghost before = out@;
            let ghost rem = self.remaining();
            match self.advance() {
                Step::Chapter(c) => {
                    out.push(c);
                    proof {
                        assert(stubs_view(out@) == stubs_view(before).push((c.title@, c.url@)));
                        let j = next_link(rem)->0;
                        assert(rem.skip(j as int + 1).len() < rem.len());
                    }
                },
                Step::NeedPage(_) => {
                    let page = if pages.len() > 0 {
                        pages.remove(0)
                    } else {
                        Ok(None)
                    };
                    self.receive_page(page);
                },
                Step::End => {
                    return out;
                },
            }
        }
    }
}

/// Opening the listing again from the same first page gives back the same
/// chapters: an opened listing carries nothing but that page's chapter list,
/// so what it yields depends on that page and on the pages that follow alone.
pub proof fn lemma_reopen_same_listing(
    first: Node,
    later: Seq<Result<Option<Node>, FetchError>>,
    a: ChapterListIter,
    b: ChapterListIter,
)
    requires
        list_entries(first) is Some,
        a.remaining() == list_entries(first)->0,
        !a.is_finished(),
        b.remaining() == list_entries(first)->0,
        !b.is_finished(),
    ensures
        a.pending(later) == b.pending(later),
        a.pending(later) == listing(list_entries(first)->0, later),
{
}

impl ChapterList {
    /// Opens the listing of novel `title` from its first listing page: reads
    /// the novel's display title and places the iterator before the first
    /// entry of the page's chapter list.
    pub fn new(title: String, first_page: Result<Option<Node>, FetchError>) -> (r: Result<ChapterList, InitError>)
        ensures
            match first_page {
                Ok(Some(doc)) => match title_outcome(doc) {
                    Err(e) => r == Err::<ChapterList, InitError>(e),
                    Ok(t) => match list_entries(doc) {
                        None => r == Err::<ChapterList, InitError>(InitError::ChapterListContainerMissing),
                        Some(es) => r matches Ok(l) && {
                            &&& l.proper_title@ == t
                            &&& l.iter.wf()
                            &&& l.iter.novel() == title@
                            &&& l.iter.page() == 1
                            &&& l.iter.remaining() == es
                            &&& !l.iter.is_finished()
                        },
                    },
                },
                Ok(None) => r == Err::<ChapterList, InitError>(InitError::PageUnavailable(None)),
                Err(e) => r == Err::<ChapterList, InitError>(InitError::PageUnavailable(Some(e))),
            },
    {
        let doc = match first_page {
            Ok(Some(doc)) => doc,
            Ok(None) => return Err(InitError::PageUnavailable(None)),
            Err(e) => return Err(InitError::PageUnavailable(Some(e))),
        };
        proof {
            lemma_found_matches(seq![doc], 0, title_container());
        }
        let container = match select_first(&doc, &Selector::Class("novel-item")) {
            Some(c) => c,
            None => return Err(InitError::TitleContainerMissing),
        };
        proof {
            lemma_found_matches(seq![*container], 0, title_anchor());
        }
        let proper_title = match select_first(container, &Selector::Tag("a")) {
            Some(Node::Element { attrs, .. }) => match attribute(attrs, "title") {
                Some(t) => t.clone(),
                None => return Err(InitError::TitleAttributeMissing),
            },
            _ => return Err(InitError::TitleAnchorMissing),
        };
        if entries_of(&doc).is_none() {
            return Err(InitError::ChapterListContainerMissing);
        }
        let iter = ChapterListIter { title, page_idx: 1, current_page: doc, cursor: 0, finished: false };
        assert(list_entries(doc)->0.skip(0) == list_entries(doc)->0);
        Ok(ChapterList { iter, proper_title })
    }
}

} // verus!
