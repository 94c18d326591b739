//! The pattern matcher: normalizes a user-supplied directory-exclusion
//! pattern into a token and decides, by literal comparison only, whether a
//! candidate directory is excluded.

use vstd::prelude::*;
use vstd::string::StrSliceExecFns;
use vstd::string::StringExecFns;

use crate::strutil::contains_char;
use crate::strutil::has_prefix;
use crate::strutil::push_char;
use crate::strutil::str_eq;
use crate::strutil::trim_bounds;
use crate::strutil::trim_spec;

verus! {

/// Path-separator normalization of one character: a backslash becomes a
/// forward slash, every other character is kept.
pub open spec fn sep_char(c: char) -> char {
    if c == '\\' {
        '/'
    } else {
        c
    }
}

/// [`sep_char`] applied to every character.
pub open spec fn replace_seps(s: Seq<char>) -> Seq<char> {
    s.map_values(|c: char| sep_char(c))
}

/// One trailing `/**` suffix removed, if present: "this directory and
/// everything under it" collapses to the bare directory, since pruning
/// already excludes the whole subtree.
pub open spec fn strip_subtree_suffix(s: Seq<char>) -> Seq<char> {
    if s.len() >= 3 && s[s.len() - 3] == '/' && s[s.len() - 2] == '*' && s[s.len() - 1] == '*' {
        s.take(s.len() - 3)
    } else {
        s
    }
}

/// All trailing slashes removed.
pub open spec fn strip_trailing_slashes(s: Seq<char>) -> Seq<char>
    decreases s.len(),
{
    if s.len() > 0 && s.last() == '/' {
        strip_trailing_slashes(s.drop_last())
    } else {
        s
    }
}

/// The token a pattern normalizes to: trim surrounding whitespace, turn
/// backslashes into forward slashes, drop one `/**` suffix, drop trailing
/// slashes.
pub open spec fn normalize_spec(s: Seq<char>) -> Seq<char> {
    strip_trailing_slashes(strip_subtree_suffix(replace_seps(trim_spec(s))))
}

/// A token free of the recognized wildcard characters; a token holding any
/// of them never matches anything.
pub open spec fn plain_token(tok: Seq<char>) -> bool {
    !tok.contains('*') && !tok.contains('?') && !tok.contains('[')
}

/// Whether a token matches the root-relative path itself: it equals the
/// path, or it is an ancestor of it (a prefix followed by a slash).
pub open spec fn token_matches_path(tok: Seq<char>, rel: Seq<char>) -> bool {
    tok == rel || (tok + seq!['/']).is_prefix_of(rel)
}

/// Whether one normalized token excludes the directory with bare name
/// `name` and root-relative path `rel`: the token is non-empty, holds no
/// wildcard, and literally equals the name or matches the relative path.
pub open spec fn token_matches(tok: Seq<char>, name: Seq<char>, rel: Seq<char>) -> bool {
    &&& tok.len() > 0
    &&& plain_token(tok)
    &&& (tok == name || token_matches_path(tok, rel))
}

/// Whether any pattern of `pats`, once normalized, excludes the directory.
pub open spec fn excluded(name: Seq<char>, rel: Seq<char>, pats: Seq<Seq<char>>) -> bool {
    exists|i: int| 0 <= i < pats.len() && token_matches(normalize_spec(pats[i]), name, rel)
}

/// A token that matches a relative path carries to every path beneath it:
/// the token, followed by a slash, is a prefix of each one.
pub proof fn lemma_path_match_covers_descendants(
    tok: Seq<char>,
    rel: Seq<char>,
    dname: Seq<char>,
    drel: Seq<char>,
)
    requires
        token_matches_path(tok, rel),
        drel == rel + seq!['/'] + dname,
    ensures
        (tok + seq!['/']).is_prefix_of(drel),
{
    assert((tok + seq!['/']) =~= drel.subrange(0, tok.len() as int + 1));
}

/// A directory excluded through its relative path excludes every directory
/// nested beneath it: the same token matches each descendant's relative
/// path, whatever the descendant's bare name.
pub proof fn lemma_excluded_dir_excludes_children(
    tok: Seq<char>,
    name: Seq<char>,
    rel: Seq<char>,
    dname: Seq<char>,
    drel: Seq<char>,
)
    requires
        token_matches(tok, name, rel),
        token_matches_path(tok, rel),
        drel == rel + seq!['/'] + dname,
    ensures
        token_matches(tok, dname, drel),
{
    lemma_path_match_covers_descendants(tok, rel, dname, drel);
}

/// Normalizes one exclusion pattern into its comparison token.
pub fn normalize_pattern_token(pat: &str) -> (t: String)
    ensures
        t@ == normalize_spec(pat@),
{
    let n = pat.unicode_len();
    let ghost s = pat@;

    // Trim surrounding whitespace.
    let bounds = trim_bounds(pat);
    let i = bounds.0;
    let j = bounds.1;

    let ghost trimmed = s.subrange(i as int, j as int);
    let ghost mapped = replace_seps(trimmed);
    let m = j - i;
    proof {
        assert(mapped.len() == m);
        assert(forall|x: int| 0 <= x < m ==> mapped[x] == sep_char(s[i + x]));
    }

    // Strip one `/**` suffix, looking at the separator-normalized characters.
    let mut k: usize = m;
    if m >= 3 {
        let c1 = pat.get_char(i + m - 3);
        let c2 = pat.get_char(i + m - 2);
        let c3 = pat.get_char(i + m - 1);
        if (c1 == '/' || c1 == '\\') && c2 == '*' && c3 == '*' {
            k = m - 3;
        }
    }
    proof {
        assert(strip_subtree_suffix(mapped) =~= mapped.take(k as int));
    }

    // Strip trailing slashes, again on the separator-normalized characters.
    loop
        invariant
            s == pat@,
            n == s.len(),
            i <= j <= n,
            m == j - i,
            k <= m,
            trim_spec(s) == s.subrange(i as int, j as int),
            mapped == replace_seps(s.subrange(i as int, j as int)),
            mapped.len() == m,
            forall|x: int| 0 <= x < m ==> mapped[x] == sep_char(s[i + x]),
            strip_trailing_slashes(strip_subtree_suffix(mapped)) == strip_trailing_slashes(
                mapped.take(k as int),
            ),
        ensures
            k <= m,
            normalize_spec(s) == mapped.take(k as int),
        decreases k,
    {
        if k == 0 {
            proof {
                assert(mapped.take(0) =~= Seq::<char>::empty());
            }
            break;
        }
        let c = pat.get_char(i + k - 1);
        if !(c == '/' || c == '\\') {
            proof {
                assert(mapped.take(k as int).last() == sep_char(s[i + k - 1]));
            }
            break;
        }
        proof {
            let t = mapped.take(k as int);
            assert(t.last() == sep_char(s[i + k - 1]));
            assert(t.drop_last() =~= mapped.take(k as int - 1));
        }
        k -= 1;
    }

    // Build the token from the separator-normalized characters.
    let mut out = String::new();
    let mut x: usize = 0;
    while x < k
        invariant
            s == pat@,
            n == s.len(),
            i <= j <= n,
            k <= j - i,
            trim_spec(s) == s.subrange(i as int, j as int),
            mapped == replace_seps(s.subrange(i as int, j as int)),
            mapped.len() == j - i,
            forall|y: int| 0 <= y < j - i ==> mapped[y] == sep_char(s[i + y]),
            normalize_spec(s) == mapped.take(k as int),
            x <= k,
            out@ == mapped.take(x as int),
        decreases k - x,
    {
        let c = pat.get_char(i + x);
        if c == '\\' {
            push_char(&mut out, '/');
        } else {
            push_char(&mut out, c);
        }
        proof {
            assert(mapped[x as int] == sep_char(s[i + x]));
            assert(mapped.take(x as int + 1) =~= mapped.take(x as int).push(mapped[x as int]));
        }
        x += 1;
    }
    proof {
        assert(out@ == normalize_spec(pat@));
    }
    out
}

/// Decides whether the directory with bare name `dir_name` and root-relative
/// slash-normalized path `rel_posix` is excluded by any of `patterns`.
/// Patterns are normalized and compared literally; empty tokens and tokens
/// holding a wildcard character never match.
pub fn should_exclude_dir(dir_name: &str, rel_posix: &str, patterns: &Vec<String>) -> (r: bool)
    ensures
        r == excluded(dir_name@, rel_posix@, patterns.deep_view()),
{
    let ghost pats = patterns.deep_view();
    let mut idx: usize = 0;
    while idx < patterns.len()
        invariant
            pats == patterns.deep_view(),
            pats.len() == patterns.len(),
            idx <= patterns.len(),
            forall|q: int|
                0 <= q < idx ==> !token_matches(normalize_spec(pats[q]), dir_name@, rel_posix@),
        decreases patterns.len() - idx,
    {
        proof {
            assert(pats[idx as int] == patterns@[idx as int]@);
        }
        let token = normalize_pattern_token(patterns[idx].as_str());
        let nonempty = token.as_str().unicode_len() > 0;
        let wild = contains_char(token.as_str(), '*') || contains_char(token.as_str(), '?')
            || contains_char(token.as_str(), '[');
        if nonempty && !wild {
            if str_eq(dir_name, token.as_str()) || str_eq(rel_posix, token.as_str()) {
                return true;
            }
            let mut pref = token;
            push_char(&mut pref, '/');
            proof {
                assert(pref@ =~= normalize_spec(pats[idx as int]) + seq!['/']);
            }
            if has_prefix(rel_posix, pref.as_str()) {
                return true;
            }
        }
        idx += 1;
    }
    false
}

} // verus!
