//! Character-level helpers: trimming text nodes and naming the output file.

use vstd::prelude::*;

verus! {

/// Relies on String::push: `c` is appended to `s`.
#[verifier::external_body]
pub(crate) fn push_char(s: &mut String, c: char)
    ensures
        final(s)@ == old(s)@.push(c),
{
    s.push(c)
}

/// The characters trimmed from both ends of a text node: space, tab, newline
/// and the ideographic (full-width) space.
pub open spec fn is_trim_char(c: char) -> bool {
    c == ' ' || c == '\t' || c == '\n' || c == '\u{3000}'
}

pub open spec fn trim_start(t: Seq<char>) -> Seq<char>
    decreases t.len(),
{
    if t.len() > 0 && is_trim_char(t[0]) {
        trim_start(t.drop_first())
    } else {
        t
    }
}

pub open spec fn trim_end(t: Seq<char>) -> Seq<char>
    decreases t.len(),
{
    if t.len() > 0 && is_trim_char(t.last()) {
        trim_end(t.drop_last())
    } else {
        t
    }
}

/// `t` without the trim characters at either end.
pub open spec fn trimmed(t: Seq<char>) -> Seq<char> {
    trim_end(trim_start(t))
}

proof fn lemma_trim_start_skip(t: Seq<char>, s: int)
    requires
        0 <= s <= t.len(),
        forall|k: int| 0 <= k < s ==> is_trim_char(#[trigger] t[k]),
        s == t.len() || !is_trim_char(t[s]),
    ensures
        trim_start(t) == t.skip(s),
    decreases s,
{
    if s > 0 {
        assert(t.drop_first().skip(s - 1) == t.skip(s));
        assert forall|k: int| 0 <= k < s - 1 implies is_trim_char(#[trigger] t.drop_first()[k]) by {
            assert(t.drop_first()[k] == t[k + 1]);
        }
        lemma_trim_start_skip(t.drop_first(), s - 1);
    } else {
        assert(t.skip(0) == t);
    }
}

proof fn lemma_trim_end_take(t: Seq<char>, e: int)
    requires
        0 <= e <= t.len(),
        forall|k: int| e <= k < t.len() ==> is_trim_char(#[trigger] t[k]),
        e == 0 || !is_trim_char(t[e - 1]),
    ensures
        trim_end(t) == t.take(e),
    decreases t.len() - e,
{
    if e < t.len() {
        assert(t.drop_last().len() == t.len() - 1);
        assert forall|k: int| e <= k < t.len() - 1 implies is_trim_char(#[trigger] t.drop_last()[k]) by {
            assert(t.drop_last()[k] == t[k]);
        }
        assert(t.drop_last().take(e) == t.take(e));
        lemma_trim_end_take(t.drop_last(), e);
    } else {
        assert(t.take(e) == t);
    }
}

/// Appends `t[from..to]` to `out`.
fn push_range(out: &mut String, t: &Vec<char>, from: usize, to: usize)
    requires
        from <= to <= t@.len(),
    ensures
        final(out)@ == old(out)@ + t@.subrange(from as int, to as int),
{
    let mut i = from;
    while i < to
        invariant
            from <= i <= to,
            to <= t@.len(),
            out@ == old(out)@ + t@.subrange(from as int, i as int),
        decreases to - i,
    {
        push_char(out, t[i]);
        assert(t@.subrange(from as int, i + 1) == t@.subrange(from as int, i as int).push(t@[i as int]));
        i += 1;
    }
}

/// The bounds of `t` once trimmed, with the proof that they are right.
fn trim_bounds(t: &Vec<char>) -> (r: (usize, usize))
    ensures
        r.0 <= r.1 <= t@.len(),
        trimmed(t@) == t@.subrange(r.0 as int, r.1 as int),
{
    let n = t.len();
    let mut s: usize = 0;
    while s < n && (t[s] == ' ' || t[s] == '\t' || t[s] == '\n' || t[s] == '\u{3000}')
        invariant
            n == t@.len(),
            s <= n,
            forall|k: int| 0 <= k < s ==> is_trim_char(#[trigger] t@[k]),
        decreases n - s,
    {
        s += 1;
    }
    proof {
        lemma_trim_start_skip(t@, s as int);
    }
    let ghost u = t@.skip(s as int);
    let mut e: usize = n;
    while e > s && (t[e - 1] == ' ' || t[e - 1] == '\t' || t[e - 1] == '\n' || t[e - 1] == '\u{3000}')
        invariant
            n == t@.len(),
            s <= e <= n,
            u == t@.skip(s as int),
            forall|k: int| e <= k < n ==> is_trim_char(#[trigger] t@[k]),
        decreases e,
    {
        e -= 1;
    }
    proof {
        assert forall|k: int| e - s <= k < u.len() implies is_trim_char(#[trigger] u[k]) by {
            assert(u[k] == t@[k + s]);
        }
        lemma_trim_end_take(u, e - s);
        assert(u.take(e - s) == t@.subrange(s as int, e as int));
    }
    (s, e)
}

/// Appends the trimmed `t` to `out`; tells whether anything was appended.
pub fn push_trimmed(out: &mut String, t: &Vec<char>) -> (r: bool)
    ensures
        final(out)@ == old(out)@ + trimmed(t@),
        r == (trimmed(t@).len() > 0),
{
    let (s, e) = trim_bounds(t);
    push_range(out, t, s, e);
    s < e
}

/// Whether a character is alphanumeric, as Unicode defines it.
pub uninterp spec fn alphanumeric(c: char) -> bool;

/// Whether a character is white space, as Unicode defines it.
pub uninterp spec fn white_space(c: char) -> bool;

/// Relies on char::is_alphanumeric.
#[verifier::external_body]
fn is_alphanumeric(c: char) -> (r: bool)
    ensures
        r == alphanumeric(c),
{
    c.is_alphanumeric()
}

/// Relies on char::is_whitespace.
#[verifier::external_body]
fn is_whitespace(c: char) -> (r: bool)
    ensures
        r == white_space(c),
{
    c.is_whitespace()
}

/// A title made fit for a file name: alphanumeric characters are kept, white
/// space becomes `_`, everything else is dropped.
pub open spec fn sanitized(t: Seq<char>) -> Seq<char>
    decreases t.len(),
{
    if t.len() == 0 {
        Seq::empty()
    } else {
        let prev = sanitized(t.drop_last());
        let c = t.last();
        if alphanumeric(c) {
            prev.push(c)
        } else if white_space(c) {
            prev.push('_')
        } else {
            prev
        }
    }
}

/// What a title character becomes in a file name, given whether it is
/// alphanumeric and whether it is white space.
pub fn file_name_char(c: char, is_alnum: bool, is_space: bool) -> (r: Option<char>)
    ensures
        r == (if is_alnum { Some(c) } else if is_space { Some('_') } else { None::<char> }),
{
    if is_alnum {
        Some(c)
    } else if is_space {
        Some('_')
    } else {
        None
    }
}

/// The name of the Markdown file for a novel titled `title`.
pub fn file_name(title: &str) -> (r: String)
    ensures
        r@ == sanitized(title@) + ".md"@,
{
    let n = title.unicode_len();
    let mut name = String::new();
    let mut i: usize = 0;
    while i < n
        invariant
            n == title@.len(),
            i <= n,
            name@ == sanitized(title@.take(i as int)),
        decreases n - i,
    {
        let c = title.get_char(i);
        assert(title@.take(i + 1).drop_last() == title@.take(i as int));
        if let Some(k) = file_name_char(c, is_alphanumeric(c), is_whitespace(c)) {
            push_char(&mut name, k);
        }
        i += 1;
    }
    assert(title@.take(n as int) == title@);
    name.append(".md");
    name
}

/// `name` placed in directory `dir`: a `/` goes between them unless `dir`
/// is empty or already ends in one.
pub open spec fn joined(dir: Seq<char>, name: Seq<char>) -> Seq<char> {
    if dir.len() == 0 || dir.last() == '/' {
        dir + name
    } else {
        dir + seq!['/'] + name
    }
}

/// The path of the Markdown file for a novel titled `title`, in directory `dir`.
pub fn construct_file_path(dir: &str, title: &str) -> (r: String)
    ensures
        r@ == joined(dir@, sanitized(title@) + ".md"@),
{
    let name = file_name(title);
    let n = dir.unicode_len();
    let mut path = String::from_str(dir);
    if n > 0 && dir.get_char(n - 1) != '/' {
        push_char(&mut path, '/');
    }
    path.append(name.as_str());
    assert(path@ =~= joined(dir@, sanitized(title@) + ".md"@));
    path
}

} // verus!
