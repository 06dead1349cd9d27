//! File names and extensions of slash-separated relative paths.

use vstd::prelude::*;
use vstd::string::StrSliceExecFns;

verus! {

/// The path without its trailing slashes.
pub open spec fn trim_slashes(p: Seq<char>) -> Seq<char>
    decreases p.len(),
{
    if p.len() > 0 && p.last() == '/' { trim_slashes(p.drop_last()) } else { p }
}

/// The position just after the last occurrence of `c`, or 0.
pub open spec fn after_last(p: Seq<char>, c: char) -> nat
    decreases p.len(),
{
    if p.len() == 0 {
        0
    } else if p.last() == c {
        p.len()
    } else {
        after_last(p.drop_last(), c)
    }
}

/// The last component of a path.
pub open spec fn file_name_of(p: Seq<char>) -> Seq<char> {
    let t = trim_slashes(p);
    t.subrange(after_last(t, '/') as int, t.len() as int)
}

/// The extension of a path: what follows the last dot of its file name,
/// unless that dot starts the name or there is none, in which case it is
/// empty.
pub open spec fn extension_of(p: Seq<char>) -> Seq<char> {
    let n = file_name_of(p);
    let d = after_last(n, '.');
    if d <= 1 { Seq::empty() } else { n.subrange(d as int, n.len() as int) }
}

pub(crate) proof fn lemma_after_last_bound(p: Seq<char>, c: char)
    ensures
        after_last(p, c) <= p.len(),
        after_last(p, c) > 0 ==> p[after_last(p, c) - 1] == c,
    decreases p.len(),
{
    if p.len() > 0 && p.last() != c {
        lemma_after_last_bound(p.drop_last(), c);
    }
}

/// The length of `s` without its trailing slashes.
fn trimmed_len(s: &str) -> (r: usize)
    ensures
        r <= s@.len(),
        s@.subrange(0, r as int) == trim_slashes(s@),
{
    let mut n = s.unicode_len();
    proof {
        assert(s@.subrange(0, n as int) =~= s@);
    }
    while n > 0 && s.get_char(n - 1) == '/'
        invariant
            n <= s@.len(),
            trim_slashes(s@.subrange(0, n as int)) == trim_slashes(s@),
        decreases n,
    {
        proof {
            assert(s@.subrange(0, n as int).drop_last() =~= s@.subrange(0, n - 1));
        }
        n = n - 1;
    }
    n
}

/// The position just after the last `c` among the first `end` characters.
pub(crate) fn find_after_last(s: &str, end: usize, c: char) -> (r: usize)
    requires
        end <= s@.len(),
    ensures
        r as nat == after_last(s@.subrange(0, end as int), c),
{
    let mut i = end;
    while i > 0 && s.get_char(i - 1) != c
        invariant
            i <= end <= s@.len(),
            after_last(s@.subrange(0, i as int), c) == after_last(s@.subrange(0, end as int), c),
        decreases i,
    {
        proof {
            assert(s@.subrange(0, i as int).drop_last() =~= s@.subrange(0, i - 1));
        }
        i = i - 1;
    }
    proof {
        if i > 0 {
            assert(s@.subrange(0, i as int).last() == c);
        }
    }
    i
}

/// The last component of a path.
pub fn file_name(path: &str) -> (r: String)
    ensures
        r@ == file_name_of(path@),
{
    let end = trimmed_len(path);
    let start = find_after_last(path, end, '/');
    proof {
        lemma_after_last_bound(path@.subrange(0, end as int), '/');
    }
    let r = path.substring_char(start, end).to_owned();
    proof {
        let t = trim_slashes(path@);
        assert(r@ =~= t.subrange(after_last(t, '/') as int, t.len() as int));
    }
    r
}

/// The extension of a path, without the dot.
pub fn extension(path: &str) -> (r: String)
    ensures
        r@ == extension_of(path@),
{
    let name = file_name(path);
    let n = name.as_str().unicode_len();
    let d = find_after_last(name.as_str(), n, '.');
    proof {
        assert(name@.subrange(0, n as int) =~= name@);
        lemma_after_last_bound(name@, '.');
    }
    if d <= 1 {
        String::new()
    } else {
        name.as_str().substring_char(d, n).to_owned()
    }
}

} // verus!
