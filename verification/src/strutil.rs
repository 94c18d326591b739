//! Small verified string helpers: character classification, equality,
//! containment, prefix tests, and path joining over `Seq<char>` views.

use vstd::prelude::*;
use vstd::string::StrSliceExecFns;
use vstd::string::StringExecFns;

verus! {

/// ASCII whitespace: the characters trimmed from the ends of a pattern.
pub open spec fn is_space_char(c: char) -> bool {
    c == ' ' || c == '\t' || c == '\n' || c == '\r' || c == '\u{b}' || c == '\u{c}'
}

/// Executable test for [`is_space_char`].
pub fn is_space(c: char) -> (r: bool)
    ensures
        r == is_space_char(c),
{
    c == ' ' || c == '\t' || c == '\n' || c == '\r' || c == '\u{b}' || c == '\u{c}'
}

/// Relies on `String::push`: appends the given character to the end of the string.
#[verifier::external_body]
pub fn push_char(s: &mut String, c: char)
    ensures
        final(s)@ == old(s)@.push(c),
{
    s.push(c);
}

/// The sequence with its leading whitespace removed.
pub open spec fn trim_leading(s: Seq<char>) -> Seq<char>
    decreases s.len(),
{
    if s.len() > 0 && is_space_char(s[0]) {
        trim_leading(s.drop_first())
    } else {
        s
    }
}

/// The sequence with its trailing whitespace removed.
pub open spec fn trim_trailing(s: Seq<char>) -> Seq<char>
    decreases s.len(),
{
    if s.len() > 0 && is_space_char(s.last()) {
        trim_trailing(s.drop_last())
    } else {
        s
    }
}

/// The sequence with whitespace removed from both ends.
pub open spec fn trim_spec(s: Seq<char>) -> Seq<char> {
    trim_trailing(trim_leading(s))
}

/// The bounds of the whitespace-trimmed middle of `s`: the trimmed text is
/// exactly the characters from the first position up to the second.
pub fn trim_bounds(s: &str) -> (r: (usize, usize))
    ensures
        r.0 <= r.1 <= s@.len(),
        trim_spec(s@) == s@.subrange(r.0 as int, r.1 as int),
{
    let n = s.unicode_len();
    let ghost sv = s@;
    proof {
        assert(sv.subrange(0, n as int) =~= sv);
    }
    let mut i: usize = 0;
    loop
        invariant
            sv == s@,
            n == sv.len(),
            i <= n,
            trim_leading(sv) == trim_leading(sv.subrange(i as int, n as int)),
        ensures
            i <= n,
            trim_leading(sv) == sv.subrange(i as int, n as int),
        decreases n - i,
    {
        if i >= n {
            proof {
                assert(sv.subrange(i as int, n as int) =~= Seq::<char>::empty());
            }
            break;
        }
        let c = s.get_char(i);
        if !is_space(c) {
            proof {
                assert(sv.subrange(i as int, n as int)[0] == sv[i as int]);
            }
            break;
        }
        proof {
            let t = sv.subrange(i as int, n as int);
            assert(t[0] == sv[i as int]);
            assert(t.drop_first() =~= sv.subrange(i as int + 1, n as int));
        }
        i += 1;
    }
    let mut j: usize = n;
    loop
        invariant
            sv == s@,
            n == sv.len(),
            i <= j <= n,
            trim_leading(sv) == sv.subrange(i as int, n as int),
            trim_spec(sv) == trim_trailing(sv.subrange(i as int, j as int)),
        ensures
            i <= j <= n,
            trim_spec(sv) == sv.subrange(i as int, j as int),
        decreases j,
    {
        if j <= i {
            proof {
                assert(sv.subrange(i as int, j as int) =~= Seq::<char>::empty());
            }
            break;
        }
        let c = s.get_char(j - 1);
        if !is_space(c) {
            proof {
                assert(sv.subrange(i as int, j as int).last() == sv[j - 1]);
            }
            break;
        }
        proof {
            let t = sv.subrange(i as int, j as int);
            assert(t.last() == sv[j - 1]);
            assert(t.drop_last() =~= sv.subrange(i as int, j as int - 1));
        }
        j -= 1;
    }
    (i, j)
}

/// Trims surrounding whitespace from a string, as an owned copy.
pub fn trim_copy(s: &str) -> (t: String)
    ensures
        t@ == trim_spec(s@),
{
    let bounds = trim_bounds(s);
    let piece = s.substring_char(bounds.0, bounds.1);
    String::from_str(piece)
}

/// Character-for-character string equality, stated over the views.
pub fn str_eq(a: &str, b: &str) -> (r: bool)
    ensures
        r == (a@ == b@),
{
    let an = a.unicode_len();
    let bn = b.unicode_len();
    if an != bn {
        return false;
    }
    let mut i: usize = 0;
    while i < an
        invariant
            an == a@.len(),
            bn == b@.len(),
            an == bn,
            i <= an,
            forall|j: int| 0 <= j < i ==> a@[j] == b@[j],
        decreases an - i,
    {
        let ca = a.get_char(i);
        let cb = b.get_char(i);
        if ca != cb {
            return false;
        }
        i += 1;
    }
    proof {
        assert(a@ =~= b@);
    }
    true
}

/// Whether the character `c` occurs anywhere in `s`.
pub fn contains_char(s: &str, c: char) -> (r: bool)
    ensures
        r == s@.contains(c),
{
    let n = s.unicode_len();
    let mut i: usize = 0;
    while i < n
        invariant
            n == s@.len(),
            i <= n,
            forall|j: int| 0 <= j < i ==> s@[j] != c,
        decreases n - i,
    {
        if s.get_char(i) == c {
            return true;
        }
        i += 1;
    }
    false
}

/// Whether `p` is a prefix of `s`, stated over the views.
pub fn has_prefix(s: &str, p: &str) -> (r: bool)
    ensures
        r == p@.is_prefix_of(s@),
{
    let pn = p.unicode_len();
    let sn = s.unicode_len();
    if pn > sn {
        return false;
    }
    let mut i: usize = 0;
    while i < pn
        invariant
            pn == p@.len(),
            sn == s@.len(),
            pn <= sn,
            i <= pn,
            forall|j: int| 0 <= j < i ==> p@[j] == s@[j],
        decreases pn - i,
    {
        if p.get_char(i) != s.get_char(i) {
            return false;
        }
        i += 1;
    }
    proof {
        assert(p@ =~= s@.subrange(0, pn as int));
    }
    true
}

/// The root-relative path of a child named `name` inside a directory whose
/// root-relative path is `rel`: the root itself is the empty path, and deeper
/// components are joined with a forward slash.
pub open spec fn child_rel_spec(rel: Seq<char>, name: Seq<char>) -> Seq<char> {
    if rel.len() == 0 {
        name
    } else {
        rel + seq!['/'] + name
    }
}

/// Executable form of [`child_rel_spec`].
pub fn child_rel(rel: &str, name: &str) -> (r: String)
    ensures
        r@ == child_rel_spec(rel@, name@),
{
    if rel.unicode_len() == 0 {
        String::from_str(name)
    } else {
        let mut out = String::from_str(rel);
        push_char(&mut out, '/');
        out.append(name);
        proof {
            assert(out@ =~= rel@ + seq!['/'] + name@);
        }
        out
    }
}

/// The listing path of a child named `name` inside a directory listed as
/// `base`: a slash is inserted unless `base` already ends with one.
pub open spec fn join_path_spec(base: Seq<char>, name: Seq<char>) -> Seq<char> {
    if base.len() > 0 && base.last() == '/' {
        base + name
    } else {
        base + seq!['/'] + name
    }
}

/// Executable form of [`join_path_spec`].
pub fn join_path(base: &str, name: &str) -> (r: String)
    ensures
        r@ == join_path_spec(base@, name@),
{
    let n = base.unicode_len();
    if n > 0 && base.get_char(n - 1) == '/' {
        let mut out = String::from_str(base);
        out.append(name);
        out
    } else {
        let mut out = String::from_str(base);
        push_char(&mut out, '/');
        out.append(name);
        proof {
            assert(out@ =~= base@ + seq!['/'] + name@);
        }
        out
    }
}

} // verus!
