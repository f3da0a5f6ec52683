//! Rendering a chapter page as Markdown.

use vstd::prelude::*;
use crate::dom::{Node, Selector, children_of, find_first, select_first, parse_html, html_tree, MAX_PARSE_CHARS};
use crate::text::{is_trim_char, trim_start, trimmed, push_trimmed, push_char};
use crate::fetch::{Reply, decimal, push_decimal};

verus! {

/// std's I/O error, carried by `WriteError::File`.
#[verifier::external_type_specification]
#[verifier::external_body]
pub struct ExIoError(std::io::Error);

/// Why a chapter could not be written.
pub enum WriteError {
    /// The chapter page could not be fetched; worth another try.
    Http(String),
    /// The page came, but without the chapter body in it.
    Protocol(String),
    /// The output could not be written.
    File(std::io::Error),
}

/// A chapter found in the listing.
pub struct Chapter {
    pub title: String,
    /// Path of the chapter page, relative to the site.
    pub url: String,
}

pub open spec fn lower_code(c: char) -> u32 {
    if 'A' <= c && c <= 'Z' {
        (c as u32 + 32) as u32
    } else {
        c as u32
    }
}

/// `a` and `b` are equal but for the case of ASCII letters.
pub open spec fn same_name(a: Seq<char>, b: Seq<char>) -> bool {
    a.len() == b.len() && forall|i: int| 0 <= i < a.len() ==> lower_code(#[trigger] a[i]) == lower_code(b[i])
}

pub open spec fn is_element_named(n: Node, tag: Seq<char>) -> bool {
    match n {
        Node::Element { name, .. } => same_name(name@, tag),
        _ => false,
    }
}

/// The Markdown of the text children of an emphasis element, each one wrapped
/// in `mark`.
pub open spec fn marked(ns: Seq<Node>, mark: Seq<char>) -> Seq<char>
    decreases ns.len(),
{
    if ns.len() == 0 {
        Seq::empty()
    } else {
        let prev = marked(ns.drop_last(), mark);
        match ns.last() {
            Node::Text { text } => if trimmed(text@).len() > 0 {
                prev + seq![' '] + mark + trimmed(text@) + mark + seq![' ']
            } else {
                prev
            },
            _ => prev,
        }
    }
}

/// The Markdown of one child of a paragraph.
pub open spec fn inline(n: Node) -> Seq<char> {
    match n {
        Node::Text { text } => trimmed(text@),
        Node::Element { children, .. } => if is_element_named(n, seq!['e', 'm']) {
            marked(children@, seq!['*'])
        } else if is_element_named(n, seq!['s', 't', 'r', 'o', 'n', 'g']) {
            marked(children@, seq!['*', '*'])
        } else {
            Seq::empty()
        },
        Node::Other { .. } => Seq::empty(),
    }
}

/// The Markdown of the children of a paragraph.
pub open spec fn inlines(ns: Seq<Node>) -> Seq<char>
    decreases ns.len(),
{
    if ns.len() == 0 {
        Seq::empty()
    } else {
        inlines(ns.drop_last()) + inline(ns.last())
    }
}

/// The Markdown of the children of a chapter body: each paragraph, followed
/// by a blank line; everything else is left out.
pub open spec fn paragraphs(ns: Seq<Node>) -> Seq<char>
    decreases ns.len(),
{
    if ns.len() == 0 {
        Seq::empty()
    } else {
        let prev = paragraphs(ns.drop_last());
        if is_element_named(ns.last(), seq!['p']) {
            prev + inlines(children_of(ns.last())) + seq!['\n', '\n']
        } else {
            prev
        }
    }
}

/// The Markdown of a chapter titled `title` whose body container is `body`.
pub open spec fn chapter_markdown(title: Seq<char>, body: Node) -> Seq<char> {
    seq!['#', '#', ' '] + title + seq!['\n', '\n'] + paragraphs(children_of(body))
}

/// A text node made only of the trimmed white space characters.
pub open spec fn is_blank_text(n: Node) -> bool {
    match n {
        Node::Text { text } => forall|k: int| 0 <= k < text@.len() ==> is_trim_char(#[trigger] text@[k]),
        _ => false,
    }
}

proof fn lemma_blank_trims_to_nothing(t: Seq<char>)
    requires
        forall|k: int| 0 <= k < t.len() ==> is_trim_char(#[trigger] t[k]),
    ensures
        trim_start(t) == Seq::<char>::empty(),
        trimmed(t) == Seq::<char>::empty(),
    decreases t.len(),
{
    if t.len() > 0 {
        let rest = t.drop_first();
        assert forall|k: int| 0 <= k < rest.len() implies is_trim_char(#[trigger] rest[k]) by {
            assert(rest[k] == t[k + 1]);
        }
        assert(is_trim_char(t[0]));
        lemma_blank_trims_to_nothing(rest);
    }
}

proof fn lemma_inlines_append(a: Seq<Node>, b: Seq<Node>)
    ensures
        inlines(a + b) == inlines(a) + inlines(b),
    decreases b.len(),
{
    if b.len() == 0 {
        assert(a + b =~= a);
    } else {
        assert((a + b).drop_last() =~= a + b.drop_last());
        lemma_inlines_append(a, b.drop_last());
    }
}

proof fn lemma_marked_append(a: Seq<Node>, b: Seq<Node>, mark: Seq<char>)
    ensures
        marked(a + b, mark) == marked(a, mark) + marked(b, mark),
    decreases b.len(),
{
    if b.len() == 0 {
        assert(a + b =~= a);
    } else {
        assert((a + b).drop_last() =~= a + b.drop_last());
        lemma_marked_append(a, b.drop_last(), mark);
    }
}

/// A text node of white space alone (the full-width space included) adds
/// nothing to the output: put anywhere among the children of a paragraph,
/// or of an emphasis, it leaves their Markdown as it was.
pub proof fn lemma_blank_text_adds_nothing(ns: Seq<Node>, i: int, n: Node, mark: Seq<char>)
    requires
        0 <= i <= ns.len(),
        is_blank_text(n),
    ensures
        inlines(ns.insert(i, n)) == inlines(ns),
        marked(ns.insert(i, n), mark) == marked(ns, mark),
{
    let (a, b) = (ns.take(i), ns.skip(i));
    assert(ns.insert(i, n) =~= a + seq![n] + b);
    assert(ns =~= a + b);
    assert(seq![n].drop_last() =~= Seq::<Node>::empty());
    assert(seq![n].last() == n);
    assert(inlines(Seq::<Node>::empty()) == Seq::<char>::empty());
    assert(marked(Seq::<Node>::empty(), mark) == Seq::<char>::empty());
    if let Node::Text { text } = n {
        lemma_blank_trims_to_nothing(text@);
        assert(inline(n) == trimmed(text@));
        assert(trimmed(text@).len() == 0);
    }
    assert(inlines(seq![n]) =~= Seq::<char>::empty());
    assert(marked(seq![n], mark) =~= Seq::<char>::empty());
    lemma_inlines_append(a + seq![n], b);
    lemma_inlines_append(a, seq![n]);
    lemma_inlines_append(a, b);
    lemma_marked_append(a + seq![n], b, mark);
    lemma_marked_append(a, seq![n], mark);
    lemma_marked_append(a, b, mark);
    assert(inlines(a + seq![n]) =~= inlines(a));
    assert(marked(a + seq![n], mark) =~= marked(a, mark));
}

/// The selector of the chapter body container.
pub open spec fn body_selector() -> Selector {
    Selector::Id("chapter-container")
}

/// Whether `name` equals `tag` but for the case of ASCII letters.
pub fn name_is(name: &str, tag: &str) -> (r: bool)
    ensures
        r == same_name(name@, tag@),
{
    let n = name.unicode_len();
    if n != tag.unicode_len() {
        return false;
    }
    let mut i: usize = 0;
    while i < n
        invariant
            n == name@.len(),
            n == tag@.len(),
            i <= n,
            forall|k: int| 0 <= k < i ==> lower_code(#[trigger] name@[k]) == lower_code(tag@[k]),
        decreases n - i,
    {
        let a = name.get_char(i);
        let b = tag.get_char(i);
        let la: u32 = if 'A' <= a && a <= 'Z' { a as u32 + 32 } else { a as u32 };
        let lb: u32 = if 'A' <= b && b <= 'Z' { b as u32 + 32 } else { b as u32 };
        if la != lb {
            return false;
        }
        i += 1;
    }
    true
}

fn element_named(n: &Node, tag: &str) -> (r: bool)
    ensures
        r == is_element_named(*n, tag@),
{
    match n {
        Node::Element { name, .. } => name_is(name.as_str(), tag),
        _ => false,
    }
}

fn push_marked(out: &mut String, ns: &Vec<Node>, mark: &str)
    ensures
        final(out)@ == old(out)@ + marked(ns@, mark@),
{
    let mut i: usize = 0;
    while i < ns.len()
        invariant
            i <= ns.len(),
            out@ == old(out)@ + marked(ns@.take(i as int), mark@),
        decreases ns.len() - i,
    {
        assert(ns@.take(i + 1).drop_last() == ns@.take(i as int));
        if let Node::Text { text } = &ns[i] {
            let mut piece = String::new();
            if push_trimmed(&mut piece, text) {
                push_char(out, ' ');
                out.append(mark);
                out.append(piece.as_str());
                out.append(mark);
                push_char(out, ' ');
            }
        }
        i += 1;
    }
    assert(ns@.take(ns@.len() as int) == ns@);
}

fn push_inline(out: &mut String, n: &Node)
    ensures
        final(out)@ == old(out)@ + inline(*n),
{
    proof {
        reveal_strlit("em");
        reveal_strlit("strong");
        reveal_strlit("*");
        reveal_strlit("**");
        assert("em"@ =~= seq!['e', 'm']);
        assert("strong"@ =~= seq!['s', 't', 'r', 'o', 'n', 'g']);
        assert("*"@ =~= seq!['*']);
        assert("**"@ =~= seq!['*', '*']);
    }
    match n {
        Node::Text { text } => {
            let ghost before = out@;
            push_trimmed(out, text);
            assert(out@ == before + trimmed(text@));
            assert(out@ == old(out)@ + inline(*n));
        },
        Node::Element { children, .. } => {
            if element_named(n, "em") {
                push_marked(out, children, "*");
            } else if element_named(n, "strong") {
                push_marked(out, children, "**");
            } else {
                assert(old(out)@ + inline(*n) == old(out)@);
            }
        },
        Node::Other { .. } => {
            assert(old(out)@ + inline(*n) == old(out)@);
        },
    }
}

fn push_inlines(out: &mut String, ns: &Vec<Node>)
    ensures
        final(out)@ == old(out)@ + inlines(ns@),
{
    let mut i: usize = 0;
    while i < ns.len()
        invariant
            i <= ns.len(),
            out@ == old(out)@ + inlines(ns@.take(i as int)),
        decreases ns.len() - i,
    {
        assert(ns@.take(i + 1).drop_last() == ns@.take(i as int));
        push_inline(out, &ns[i]);
        i += 1;
    }
    assert(ns@.take(ns@.len() as int) == ns@);
}

/// Appends the Markdown of the paragraphs among `ns`.
pub fn push_paragraphs(out: &mut String, ns: &Vec<Node>)
    ensures
        final(out)@ == old(out)@ + paragraphs(ns@),
{
    let mut i: usize = 0;
    while i < ns.len()
        invariant
            i <= ns.len(),
            out@ == old(out)@ + paragraphs(ns@.take(i as int)),
        decreases ns.len() - i,
    {
        assert(ns@.take(i + 1).drop_last() == ns@.take(i as int));
        let n = &ns[i];
        let ghost before = out@;
        assert(ns@.take(i + 1).last() == *n);
        proof {
            reveal_strlit("p");
            assert("p"@ =~= seq!['p']);
        }
        if element_named(n, "p") {
            if let Node::Element { children, .. } = n {
                push_inlines(out, children);
            }
            let ghost mid = out@;
            push_char(out, '\n');
            push_char(out, '\n');
            assert(out@ == mid + seq!['\n', '\n']);
            assert(out@ == before + inlines(children_of(*n)) + seq!['\n', '\n']);
            assert(paragraphs(ns@.take(i + 1)) == paragraphs(ns@.take(i as int)) + inlines(children_of(*n)) + seq!['\n', '\n']);
        } else {
            assert(paragraphs(ns@.take(i + 1)) == paragraphs(ns@.take(i as int)));
        }
        i += 1;
    }
    assert(ns@.take(ns@.len() as int) == ns@);
}

/// The head of the output document: the novel's display title as a level-1
/// heading, a blank line, a line linking to the novel's page, a blank line.
pub fn document_head(proper_title: &str, novel: &str) -> (r: String)
    ensures
        r@ == "# "@ + proper_title@ + "\n\nOriginal: https://www.webnovelpub.com/novel/"@ + novel@ + "\n\n"@,
{
    let mut head = String::from_str("# ");
    head.append(proper_title);
    head.append("\n\nOriginal: https://www.webnovelpub.com/novel/");
    head.append(novel);
    head.append("\n\n");
    head
}

impl Chapter {
    /// Renders the chapter from its parsed page: a level-2 heading with the
    /// title, a blank line, then the paragraphs of the body container.
    pub fn render_page(&self, doc: &Node) -> (r: Result<String, WriteError>)
        ensures
            match find_first(*doc, body_selector()) {
                Some(body) => r matches Ok(t) && t@ == chapter_markdown(self.title@, body),
                None => r matches Err(WriteError::Protocol(m))
                    && m@ == self.url@ + ": Unable to find body #chapter-container"@,
            },
    {
        let body = match select_first(doc, &Selector::Id("chapter-container")) {
            Some(body) => body,
            None => {
                let mut m = self.url.clone();
                m.append(": Unable to find body #chapter-container");
                return Err(WriteError::Protocol(m));
            },
        };
        let mut out = String::from_str("## ");
        out.append(self.title.as_str());
        out.append("\n\n");
        let ghost head = out@;
        match body {
            Node::Element { children, .. } => push_paragraphs(&mut out, children),
            Node::Other { children } => push_paragraphs(&mut out, children),
            Node::Text { .. } => {},
        }
        proof {
            reveal_strlit("## ");
            reveal_strlit("\n\n");
            assert("## "@ =~= seq!['#', '#', ' ']);
            assert("\n\n"@ =~= seq!['\n', '\n']);
            assert(paragraphs(Seq::<Node>::empty()) == Seq::<char>::empty());
            assert(out@ =~= chapter_markdown(self.title@, *body));
        }
        Ok(out)
    }

    /// Renders the chapter from the reply to the request for its page.
    /// A failed request, or a body that cannot be read or is too long to
    /// parse, is an `Http` error, worth another try; a page without the body
    /// container is a `Protocol` error.
    pub fn write_chapter(&self, reply: Reply) -> (r: Result<String, WriteError>)
        ensures
            match reply {
                Reply::Unreachable => r matches Err(WriteError::Http(m))
                    && m@ == "www.webnovelpub.com is unreachable"@,
                Reply::Answered { status, body } => if status != 200 {
                    r matches Err(WriteError::Http(m))
                        && m@ == self.url@ + ": Request failed with code: "@ + decimal(status as nat)
                } else {
                    match body {
                        None => r matches Err(WriteError::Http(m))
                            && m@ == self.url@ + ": Request got an invalid body"@,
                        Some(b) => if b@.len() > MAX_PARSE_CHARS {
                            r matches Err(WriteError::Http(m))
                                && m@ == self.url@ + ": Request got an invalid body"@
                        } else {
                            match find_first(html_tree(b@), body_selector()) {
                                Some(c) => r matches Ok(t) && t@ == chapter_markdown(self.title@, c),
                                None => r matches Err(WriteError::Protocol(m))
                                    && m@ == self.url@ + ": Unable to find body #chapter-container"@,
                            }
                        },
                    }
                },
            },
    {
        match reply {
            Reply::Unreachable => Err(WriteError::Http(String::from_str("www.webnovelpub.com is unreachable"))),
            Reply::Answered { status, body } => {
                if status != 200 {
                    let mut m = self.url.clone();
                    m.append(": Request failed with code: ");
                    push_decimal(&mut m, status as u64);
                    return Err(WriteError::Http(m));
                }
                match body {
                    Some(b) if b.as_str().unicode_len() <= MAX_PARSE_CHARS => {
                        let doc = parse_html(b.as_str());
                        self.render_page(&doc)
                    },
                    _ => {
                        let mut m = self.url.clone();
                        m.append(": Request got an invalid body");
                        Err(WriteError::Http(m))
                    },
                }
            },
        }
    }
}

} // verus!
