//! Recognition of plugin libraries by their file names (Unix paths).
use vstd::prelude::*;
use crate::player::engine::{after_last, after_last_chars};
use crate::text::{chars_of, eq_chars, str_eq};

verus! {

/// `p` without its trailing `/` characters.
pub open spec fn strip_trailing_slashes(p: Seq<char>) -> Seq<char>
    decreases p.len(),
{
    if p.len() > 0 && p.last() == '/' {
        strip_trailing_slashes(p.drop_last())
    } else {
        p
    }
}

/// The last normal component of a Unix path, as `Path::file_name` gives it:
/// trailing `/` and `/.` are passed over; a path that ends in `..` or is the
/// root or `.` has none.
pub open spec fn file_name(p: Seq<char>) -> Option<Seq<char>>
    decreases p.len(),
{
    let q = strip_trailing_slashes(p);
    if q.len() == 0 {
        None
    } else {
        let c = after_last(q, '/');
        if c == "."@ {
            if q.len() <= 1 {
                None
            } else {
                proof {
                    lemma_strip_len(p);
                }
                file_name(q.drop_last())
            }
        } else if c == ".."@ {
            None
        } else {
            Some(c)
        }
    }
}

/// The extension of a file name, as `Path::extension` gives it: the text
/// after its last `.`, unless the name is `..`, has no `.`, or its only `.`
/// begins it.
pub open spec fn extension(name: Seq<char>) -> Option<Seq<char>> {
    let after = after_last(name, '.');
    if name == ".."@ {
        None
    } else if after.len() == name.len() {
        None
    } else if after.len() == name.len() - 1 && name[0] == '.' {
        None
    } else {
        Some(after)
    }
}

/// The text after the last `c` is a suffix of `s`, preceded by `c` when shorter.
pub proof fn lemma_after_last_len(s: Seq<char>, c: char)
    ensures
        after_last(s, c).len() <= s.len(),
        after_last(s, c).len() < s.len() ==> s[s.len() - after_last(s, c).len() - 1] == c,
        after_last(s, c) =~= s.skip(s.len() - after_last(s, c).len()),
    decreases s.len(),
{
    if s.len() > 0 && s.last() != c {
        lemma_after_last_len(s.drop_last(), c);
    }
}

/// Stripping trailing slashes keeps a prefix of the path and drops only slashes.
pub proof fn lemma_strip_len(p: Seq<char>)
    ensures
        strip_trailing_slashes(p).len() <= p.len(),
        strip_trailing_slashes(p) =~= p.take(strip_trailing_slashes(p).len() as int),
        strip_trailing_slashes(p).len() > 0 ==> strip_trailing_slashes(p).last() != '/',
        forall|i: int| strip_trailing_slashes(p).len() <= i < p.len() ==> p[i] == '/',
    decreases p.len(),
{
    if p.len() > 0 && p.last() == '/' {
        let d = p.drop_last();
        lemma_strip_len(d);
        assert forall|i: int| strip_trailing_slashes(p).len() <= i < p.len() implies p[i]
            == '/' by {
            if i < d.len() {
                assert(d[i] == p[i]);
            }
        }
        assert(strip_trailing_slashes(p) =~= p.take(strip_trailing_slashes(p).len() as int)) by {
            assert(d.take(strip_trailing_slashes(d).len() as int) =~= p.take(
                strip_trailing_slashes(d).len() as int,
            ));
        }
    }
}

/// The file name of a path, if it has one.
pub fn file_name_of(path: &[char]) -> (r: Option<Vec<char>>)
    ensures
        match r {
            Some(n) => file_name(path@) == Some(n@),
            None => file_name(path@) is None,
        },
    decreases path.len(),
{
    let mut end: usize = path.len();
    proof {
        lemma_strip_len(path@);
    }
    assert(path@.take(path.len() as int) =~= path@);
    while end > 0 && path[end - 1] == '/'
        invariant
            end <= path.len(),
            strip_trailing_slashes(path@) == strip_trailing_slashes(path@.take(end as int)),
        decreases end,
    {
        proof {
            let t = path@.take(end as int);
            assert(t.drop_last() =~= path@.take(end - 1));
        }
        end = end - 1;
    }
    let mut q: Vec<char> = Vec::new();
    let mut i: usize = 0;
    while i < end
        invariant
            i <= end <= path.len(),
            q@ == path@.take(i as int),
        decreases end - i,
    {
        q.push(path[i]);
        assert(path@.take(i + 1) =~= path@.take(i as int).push(path@[i as int]));
        i = i + 1;
    }
    proof {
        let t = path@.take(end as int);
        if end > 0 {
            assert(t.last() == path@[end - 1]);
        }
        assert(strip_trailing_slashes(t) == t);
    }
    if q.len() == 0 {
        return None;
    }
    let c = after_last_chars(q.as_slice(), '/');
    let dot = chars_of(".");
    let dotdot = chars_of("..");
    if eq_chars(c.as_slice(), dot.as_slice()) {
        if q.len() <= 1 {
            return None;
        }
        let mut shorter: Vec<char> = Vec::new();
        let mut k: usize = 0;
        while k < q.len() - 1
            invariant
                k <= q.len() - 1,
                q.len() >= 2,
                shorter@ == q@.take(k as int),
            decreases q.len() - 1 - k,
        {
            shorter.push(q[k]);
            assert(q@.take(k + 1) =~= q@.take(k as int).push(q@[k as int]));
            k = k + 1;
        }
        assert(shorter@ =~= q@.drop_last());
        return file_name_of(shorter.as_slice());
    }
    if eq_chars(c.as_slice(), dotdot.as_slice()) {
        return None;
    }
    Some(c)
}

/// The extension of a file name, if it has one.
pub fn extension_of(name: &[char]) -> (r: Option<Vec<char>>)
    ensures
        match r {
            Some(e) => extension(name@) == Some(e@),
            None => extension(name@) is None,
        },
{
    let after = after_last_chars(name, '.');
    proof {
        lemma_after_last_len(name@, '.');
    }
    let dotdot = chars_of("..");
    if eq_chars(name, dotdot.as_slice()) {
        return None;
    }
    if after.len() == name.len() {
        return None;
    }
    if after.len() == name.len() - 1 && name[0] == '.' {
        return None;
    }
    Some(after)
}

/// Whether `path` names a plugin library: its file name has the extension
/// `ext` (`so` on Linux, `dylib` on macOS, `dll` on Windows).
pub fn is_plugin_file(path: &str, ext: &str) -> (r: bool)
    ensures
        r == (file_name(path@) matches Some(n) && extension(n) == Some(ext@)),
{
    let p = chars_of(path);
    let e = chars_of(ext);
    match file_name_of(p.as_slice()) {
        Some(n) => match extension_of(n.as_slice()) {
            Some(x) => eq_chars(x.as_slice(), e.as_slice()),
            None => false,
        },
        None => false,
    }
}

} // verus!
