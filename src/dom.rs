//! A plain model of a parsed HTML document, and the simple selectors the
//! listing and chapter pages are searched with.

use vstd::prelude::*;
use kuchiki::traits::TendrilSink;

verus! {

/// kuchiki's handle on a parsed node, carried only inside `parse_html`.
#[verifier::external_type_specification]
#[verifier::external_body]
pub struct ExNodeRef(kuchiki::NodeRef);

/// One attribute of an element. `namespace` is the attribute's namespace
/// URL, empty for the null namespace of plain HTML attributes.
pub struct Attr {
    pub namespace: String,
    pub name: String,
    pub value: String,
}

/// A node of a parsed document.
pub enum Node {
    Element { name: String, attrs: Vec<Attr>, children: Vec<Node> },
    Text { text: Vec<char> },
    /// The document itself, a comment, a doctype: only its children matter.
    Other { children: Vec<Node> },
}

/// What an HTML5 parse of `html` yields.
pub uninterp spec fn html_tree(html: Seq<char>) -> Node;

/// The longest text, in characters, that is handed to the parser: at four
/// bytes a character it stays within the parser's 4 GiB buffer limit.
pub const MAX_PARSE_CHARS: usize = 0x3FFF_FFFF;

/// Relies on kuchiki::parse_html (html5ever): the document tree of `html`,
/// which depends on the text alone. The parser's buffer panics past
/// `u32::MAX` bytes, which the bound on the length keeps out.
#[verifier::external_body]
pub(crate) fn parse_html(html: &str) -> (r: Node)
    requires
        html@.len() <= MAX_PARSE_CHARS,
    ensures
        r == html_tree(html@),
{
    node_of(&kuchiki::parse_html().one(html))
}

/// Relies on kuchiki's NodeRef::children and NodeRef::data: copies a parsed
/// node, with its subtree, into a `Node`. Part of `parse_html`, whose contract
/// covers it.
#[verifier::external_body]
fn node_of(n: &kuchiki::NodeRef) -> Node {
    let children = n.children().map(|c| node_of(&c)).collect();
    match n.data() {
        kuchiki::NodeData::Element(e) => Node::Element {
            name: e.name.local.to_string(),
            attrs: e.attributes.borrow().map.iter().map(|(k, v)| Attr {
                namespace: k.ns.to_string(), name: k.local.to_string(), value: v.value.clone() }).collect(),
            children,
        },
        kuchiki::NodeData::Text(t) => Node::Text { text: t.borrow().chars().collect() },
        _ => Node::Other { children },
    }
}

pub open spec fn is_selector_space(c: char) -> bool {
    c == ' ' || c == '\t' || c == '\n' || c == '\r' || c == '\x0C'
}

/// `tok` stands in `v` as one of its whitespace-separated words.
pub open spec fn has_token_at(v: Seq<char>, tok: Seq<char>, i: int) -> bool {
    &&& 0 <= i
    &&& i + tok.len() <= v.len()
    &&& v.subrange(i, i + tok.len()) == tok
    &&& (i == 0 || is_selector_space(v[i - 1]))
    &&& (i + tok.len() == v.len() || is_selector_space(v[i + tok.len()]))
}

pub open spec fn has_token(v: Seq<char>, tok: Seq<char>) -> bool {
    tok.len() > 0 && exists|i: int| has_token_at(v, tok, i)
}

/// The value of the first attribute of the null namespace named `key`.
pub open spec fn attr_value(attrs: Seq<Attr>, key: Seq<char>) -> Option<Seq<char>>
    decreases attrs.len(),
{
    if attrs.len() == 0 {
        None
    } else if attrs[0].namespace@.len() == 0 && attrs[0].name@ == key {
        Some(attrs[0].value@)
    } else {
        attr_value(attrs.drop_first(), key)
    }
}

/// A simple selector: `.class`, `#id` or a tag name.
pub enum Selector {
    Class(&'static str),
    Id(&'static str),
    Tag(&'static str),
}

pub open spec fn matches(n: Node, sel: Selector) -> bool {
    match n {
        Node::Element { name, attrs, .. } => match sel {
            Selector::Class(c) => match attr_value(attrs@, "class"@) {
                Some(v) => has_token(v, c@),
                None => false,
            },
            Selector::Id(id) => attr_value(attrs@, "id"@) == Some(id@),
            Selector::Tag(t) => name@ == t@,
        },
        _ => false,
    }
}

pub open spec fn children_of(n: Node) -> Seq<Node> {
    match n {
        Node::Element { children, .. } => children@,
        Node::Other { children } => children@,
        Node::Text { .. } => Seq::empty(),
    }
}

/// The first of `ns[i..]` and their subtrees, in document order, that `sel` matches.
pub open spec fn find_from(ns: Seq<Node>, i: int, sel: Selector) -> Option<Node>
    decreases ns, ns.len() - i,
{
    if i < 0 || i >= ns.len() {
        None
    } else if matches(ns[i], sel) {
        Some(ns[i])
    } else {
        let sub = match ns[i] {
            Node::Element { children, .. } => find_from(children@, 0, sel),
            Node::Other { children } => find_from(children@, 0, sel),
            Node::Text { .. } => None,
        };
        match sub {
            Some(m) => Some(m),
            None => find_from(ns, i + 1, sel),
        }
    }
}

/// What the search finds is matched by the selector.
pub(crate) proof fn lemma_found_matches(ns: Seq<Node>, i: int, sel: Selector)
    ensures
        find_from(ns, i, sel) matches Some(m) ==> matches(m, sel),
    decreases ns, ns.len() - i,
{
    if 0 <= i < ns.len() && !matches(ns[i], sel) {
        match ns[i] {
            Node::Element { children, .. } => lemma_found_matches(children@, 0, sel),
            Node::Other { children } => lemma_found_matches(children@, 0, sel),
            Node::Text { .. } => {},
        }
        lemma_found_matches(ns, i + 1, sel);
    }
}

/// The first element of the subtree of `n` (itself included) that `sel` matches.
pub open spec fn find_first(n: Node, sel: Selector) -> Option<Node> {
    find_from(seq![n], 0, sel)
}

/// Whether `a` and `b` hold the same characters.
pub fn same_chars(a: &str, b: &str) -> (r: bool)
    ensures
        r == (a@ == b@),
{
    let n = a.unicode_len();
    if n != b.unicode_len() {
        return false;
    }
    let mut i: usize = 0;
    while i < n
        invariant
            n == a@.len(),
            n == b@.len(),
            i <= n,
            a@.subrange(0, i as int) == b@.subrange(0, i as int),
        decreases n - i,
    {
        if a.get_char(i) != b.get_char(i) {
            assert(a@[i as int] != b@[i as int]);
            return false;
        }
        assert(a@.subrange(0, i + 1) == a@.subrange(0, i as int).push(a@[i as int]));
        assert(b@.subrange(0, i + 1) == b@.subrange(0, i as int).push(b@[i as int]));
        i += 1;
    }
    assert(a@ == a@.subrange(0, n as int));
    assert(b@ == b@.subrange(0, n as int));
    true
}

/// The value of the first attribute of the null namespace named `key`.
pub fn attribute<'a>(attrs: &'a Vec<Attr>, key: &str) -> (r: Option<&'a String>)
    ensures
        match r {
            Some(v) => attr_value(attrs@, key@) == Some(v@),
            None => attr_value(attrs@, key@) is None,
        },
{
    let mut i: usize = 0;
    assert(attrs@.skip(0) == attrs@);
    while i < attrs.len()
        invariant
            i <= attrs.len(),
            attr_value(attrs@, key@) == attr_value(attrs@.skip(i as int), key@),
        decreases attrs.len() - i,
    {
        assert(attrs@.skip(i as int).drop_first() == attrs@.skip(i + 1));
        if attrs[i].namespace.as_str().is_empty() && same_chars(attrs[i].name.as_str(), key) {
            return Some(&attrs[i].value);
        }
        i += 1;
    }
    None
}

fn is_space_char(c: char) -> (r: bool)
    ensures
        r == is_selector_space(c),
{
    c == ' ' || c == '\t' || c == '\n' || c == '\r' || c == '\x0C'
}

/// Whether `tok` is one of the whitespace-separated words of `v`.
pub fn holds_token(v: &str, tok: &str) -> (r: bool)
    ensures
        r == has_token(v@, tok@),
{
    let n = v.unicode_len();
    let m = tok.unicode_len();
    if m == 0 {
        return false;
    }
    if m > n {
        assert forall|i: int| !has_token_at(v@, tok@, i) by {}
        return false;
    }
    let mut i: usize = 0;
    while i <= n - m
        invariant
            n == v@.len(),
            m == tok@.len(),
            0 < m <= n,
            i <= n,
            forall|k: int| 0 <= k < i ==> !has_token_at(v@, tok@, k),
        decreases n - i,
    {
        let starts = i == 0 || is_space_char(v.get_char(i - 1));
        let ends = i + m == n || is_space_char(v.get_char(i + m));
        if starts && ends {
            let mut j: usize = 0;
            while j < m && v.get_char(i + j) == tok.get_char(j)
                invariant
                    n == v@.len(),
                    m == tok@.len(),
                    i + m <= n,
                    j <= m,
                    forall|k: int| 0 <= k < j ==> v@[i + k] == tok@[k],
                decreases m - j,
            {
                j += 1;
            }
            if j == m {
                assert(v@.subrange(i as int, i + m) == tok@);
                assert(has_token_at(v@, tok@, i as int));
                return true;
            }
            assert(v@.subrange(i as int, i + m)[j as int] != tok@[j as int]);
        }
        i += 1;
    }
    assert forall|k: int| !has_token_at(v@, tok@, k) by {
        if k >= i {
            assert(k + m > n);
        }
    }
    false
}

/// Whether `sel` matches `n`.
pub fn node_matches(n: &Node, sel: &Selector) -> (r: bool)
    ensures
        r == matches(*n, *sel),
{
    match n {
        Node::Element { name, attrs, .. } => match sel {
            Selector::Class(c) => match attribute(attrs, "class") {
                Some(v) => holds_token(v.as_str(), c),
                None => false,
            },
            Selector::Id(id) => match attribute(attrs, "id") {
                Some(v) => same_chars(v.as_str(), id),
                None => false,
            },
            Selector::Tag(t) => same_chars(name.as_str(), t),
        },
        _ => false,
    }
}

/// The first of `ns` and their subtrees, in document order, that `sel` matches.
pub fn select_in<'a>(ns: &'a Vec<Node>, sel: &Selector) -> (r: Option<&'a Node>)
    ensures
        match r {
            Some(m) => find_from(ns@, 0, *sel) == Some(*m),
            None => find_from(ns@, 0, *sel) is None,
        },
    decreases ns@,
{
    let mut i: usize = 0;
    while i < ns.len()
        invariant
            i <= ns.len(),
            find_from(ns@, 0, *sel) == find_from(ns@, i as int, *sel),
        decreases ns.len() - i,
    {
        let n = &ns[i];
        if node_matches(n, sel) {
            return Some(n);
        }
        let sub = match n {
            Node::Element { children, .. } => select_in(children, sel),
            Node::Other { children } => select_in(children, sel),
            Node::Text { .. } => None,
        };
        if sub.is_some() {
            return sub;
        }
        i += 1;
    }
    None
}

/// The first element of the subtree of `n`, itself included, that `sel` matches.
pub fn select_first<'a>(n: &'a Node, sel: &Selector) -> (r: Option<&'a Node>)
    ensures
        match r {
            Some(m) => find_first(*n, *sel) == Some(*m),
            None => find_first(*n, *sel) is None,
        },
{
    if node_matches(n, sel) {
        return Some(n);
    }
    let sub = match n {
        Node::Element { children, .. } => select_in(children, sel),
        Node::Other { children } => select_in(children, sel),
        Node::Text { .. } => None,
    };
    assert(find_from(seq![*n], 1, *sel) is None);
    sub
}

} // verus!
