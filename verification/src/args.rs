//! The argument parser: turns the command-line words into a [`ScanConfig`],
//! or reports the first malformed argument.

use vstd::prelude::*;
use vstd::string::StrSliceExecFns;
use vstd::string::StringExecFns;

use crate::strutil::str_eq;
use crate::strutil::trim_copy;
use crate::strutil::trim_spec;
use crate::walker::ScanConfig;
use crate::walker::ScanConfigV;

verus! {

/// The recursion bound used when `--max-depth` is not given.
pub const DEFAULT_MAX_DEPTH: usize = 64;

/// Why the command line was rejected.
#[derive(Debug)]
pub enum ArgError {
    /// `--root` was given as the last word, with no value after it.
    MissingRootValue,
    /// `--max-depth` was given as the last word, with no value after it.
    MissingDepthValue,
    /// `--exclude-dir` was given as the last word, with no value after it.
    MissingExcludeValue,
    /// The value after `--max-depth` is not a non-negative integer in range.
    InvalidMaxDepth,
    /// A word that is not a recognized flag or a flag's value.
    UnknownArgument { arg: String },
    /// The required `--root` flag never appeared.
    RootRequired,
}

/// The ghost form of [`ArgError`].
pub enum ArgErrorV {
    MissingRootValue,
    MissingDepthValue,
    MissingExcludeValue,
    InvalidMaxDepth,
    UnknownArgument { arg: Seq<char> },
    RootRequired,
}

impl View for ArgError {
    type V = ArgErrorV;

    open spec fn view(&self) -> ArgErrorV {
        match self {
            ArgError::MissingRootValue => ArgErrorV::MissingRootValue,
            ArgError::MissingDepthValue => ArgErrorV::MissingDepthValue,
            ArgError::MissingExcludeValue => ArgErrorV::MissingExcludeValue,
            ArgError::InvalidMaxDepth => ArgErrorV::InvalidMaxDepth,
            ArgError::UnknownArgument { arg } => ArgErrorV::UnknownArgument { arg: arg@ },
            ArgError::RootRequired => ArgErrorV::RootRequired,
        }
    }
}

impl ArgError {
    /// A one-line description, for the error stream.
    pub fn message(&self) -> (m: String)
        ensures
            (self is MissingRootValue ==> m@ == "missing value for --root"@),
            (self is MissingDepthValue ==> m@ == "missing value for --max-depth"@),
            (self is MissingExcludeValue ==> m@ == "missing value for --exclude-dir"@),
            (self is InvalidMaxDepth ==> m@ == "invalid max depth"@),
            (self matches ArgError::UnknownArgument { arg } ==> m@ == "unknown argument: "@
                + arg@),
            (self is RootRequired ==> m@ == "--root is required"@),
            m@.len() > 0,
    {
        match self {
            ArgError::MissingRootValue => {
                proof {
                    reveal_strlit("missing value for --root");
                }
                String::from_str("missing value for --root")
            },
            ArgError::MissingDepthValue => {
                proof {
                    reveal_strlit("missing value for --max-depth");
                }
                String::from_str("missing value for --max-depth")
            },
            ArgError::MissingExcludeValue => {
                proof {
                    reveal_strlit("missing value for --exclude-dir");
                }
                String::from_str("missing value for --exclude-dir")
            },
            ArgError::InvalidMaxDepth => {
                proof {
                    reveal_strlit("invalid max depth");
                }
                String::from_str("invalid max depth")
            },
            ArgError::UnknownArgument { arg } => {
                let mut m = String::from_str("unknown argument: ");
                m.append(arg.as_str());
                proof {
                    reveal_strlit("unknown argument: ");
                }
                m
            },
            ArgError::RootRequired => {
                proof {
                    reveal_strlit("--root is required");
                }
                String::from_str("--root is required")
            },
        }
    }
}

/// The numeric value of one decimal digit character, or a negative number
/// for every other character.
pub open spec fn digit_val(c: char) -> int {
    if c == '0' {
        0
    } else if c == '1' {
        1
    } else if c == '2' {
        2
    } else if c == '3' {
        3
    } else if c == '4' {
        4
    } else if c == '5' {
        5
    } else if c == '6' {
        6
    } else if c == '7' {
        7
    } else if c == '8' {
        8
    } else if c == '9' {
        9
    } else {
        -1
    }
}

/// Whether the character is a decimal digit.
pub open spec fn is_dec_digit(c: char) -> bool {
    digit_val(c) >= 0
}

/// The value of a sequence of decimal digits, most significant first.
pub open spec fn digits_val(s: Seq<char>) -> int
    decreases s.len(),
{
    if s.len() == 0 {
        0
    } else {
        digits_val(s.drop_last()) * 10 + digit_val(s.last())
    }
}

/// Whether every character of the sequence is a decimal digit.
pub open spec fn all_digits(s: Seq<char>) -> bool {
    forall|i: int| 0 <= i < s.len() ==> is_dec_digit(s[i])
}

/// The digits of a non-negative decimal numeral, after an optional leading
/// plus sign.
pub open spec fn numeral_body(s: Seq<char>) -> Seq<char> {
    if s.len() > 0 && s[0] == '+' {
        s.drop_first()
    } else {
        s
    }
}

/// What parsing the sequence as a `usize` yields: its value when it is a
/// non-empty run of decimal digits (after an optional `+`) whose value fits,
/// and nothing otherwise.
pub open spec fn parse_usize_spec(s: Seq<char>) -> Option<int> {
    let body = numeral_body(s);
    if body.len() > 0 && all_digits(body) && digits_val(body) <= usize::MAX {
        Some(digits_val(body))
    } else {
        None
    }
}

/// The value of an all-digit sequence is non-negative.
proof fn lemma_digits_val_nonneg(s: Seq<char>)
    requires
        all_digits(s),
    ensures
        digits_val(s) >= 0,
    decreases s.len(),
{
    if s.len() > 0 {
        assert(all_digits(s.drop_last()));
        lemma_digits_val_nonneg(s.drop_last());
    }
}

/// The value of an all-digit sequence never falls when more digits follow:
/// the value of a prefix is at most the value of the whole.
proof fn lemma_digits_val_prefix(s: Seq<char>, k: int)
    requires
        all_digits(s),
        0 <= k <= s.len(),
    ensures
        digits_val(s.take(k)) <= digits_val(s),
    decreases s.len() - k,
{
    if k < s.len() {
        lemma_digits_val_prefix(s, k + 1);
        let t = s.take(k + 1);
        assert(all_digits(t));
        assert(t.drop_last() =~= s.take(k));
        lemma_digits_val_nonneg(s.take(k));
        assert(digits_val(t) == digits_val(s.take(k)) * 10 + digit_val(t.last()));
    } else {
        assert(s.take(k) =~= s);
    }
}

/// The executable digit value: the digit's value for `0` through `9`, and
/// ten for every other character.
fn digit_of(c: char) -> (d: u64)
    ensures
        is_dec_digit(c) ==> d == digit_val(c),
        !is_dec_digit(c) ==> d == 10,
{
    if c == '0' {
        0
    } else if c == '1' {
        1
    } else if c == '2' {
        2
    } else if c == '3' {
        3
    } else if c == '4' {
        4
    } else if c == '5' {
        5
    } else if c == '6' {
        6
    } else if c == '7' {
        7
    } else if c == '8' {
        8
    } else if c == '9' {
        9
    } else {
        10
    }
}

/// Parses a non-negative decimal numeral, with an optional leading plus
/// sign, rejecting empty input, stray characters, and values above
/// `usize::MAX`.
pub fn parse_usize(s: &str) -> (r: Option<usize>)
    ensures
        (r matches Some(v) ==> parse_usize_spec(s@) == Some(v as int)),
        (r is None ==> parse_usize_spec(s@) is None),
{
    let n = s.unicode_len();
    let start: usize = if n > 0 && s.get_char(0) == '+' {
        1
    } else {
        0
    };
    let ghost body = numeral_body(s@);
    proof {
        assert(body =~= s@.subrange(start as int, n as int));
    }
    if start >= n {
        return None;
    }
    let mut acc: u128 = 0;
    let mut i: usize = start;
    while i < n
        invariant
            s@.len() == n,
            body == numeral_body(s@),
            body == s@.subrange(start as int, n as int),
            start <= i <= n,
            all_digits(body.take(i - start)),
            acc == digits_val(body.take(i - start)),
            acc <= usize::MAX,
        decreases n - i,
    {
        let c = s.get_char(i);
        let d = digit_of(c);
        if d >= 10 {
            proof {
                assert(body[i - start] == s@[i as int]);
                assert(!is_dec_digit(body[i - start]));
                assert(!all_digits(body));
            }
            return None;
        }
        let next: u128 = acc * 10 + (d as u128);
        proof {
            let t = body.take(i - start + 1);
            assert(t.drop_last() =~= body.take(i - start));
            assert(t.last() == s@[i as int]);
            assert(all_digits(t));
            assert(digits_val(t) == next);
        }
        if next > usize::MAX as u128 {
            proof {
                if all_digits(body) {
                    lemma_digits_val_prefix(body, i - start + 1);
                    assert(digits_val(body) > usize::MAX);
                }
            }
            return None;
        }
        acc = next;
        i += 1;
    }
    proof {
        assert(body.take(n - start) =~= body);
    }
    Some(acc as usize)
}

/// The running state of the argument scan: what has been gathered so far.
#[verifier::ext_equal]
pub struct ArgAccV {
    pub root: Option<Seq<char>>,
    pub max_depth: int,
    pub follow_symlinks: bool,
    pub exclude_patterns: Seq<Seq<char>>,
}

/// The state before any argument is read: no root, the default depth bound,
/// symlinks not followed, no exclusion patterns.
pub open spec fn initial_acc() -> ArgAccV {
    ArgAccV {
        root: None,
        max_depth: DEFAULT_MAX_DEPTH as int,
        follow_symlinks: false,
        exclude_patterns: Seq::empty(),
    }
}

/// What parsing the remaining arguments yields, starting from the gathered
/// state `acc`: flags are read in order, each value-taking flag consumes the
/// next word, the first malformed word wins, and at the end `--root` must
/// have been seen. A blank exclusion pattern (after trimming) is discarded.
pub open spec fn parse_args_spec(args: Seq<Seq<char>>, acc: ArgAccV) -> Result<
    ScanConfigV,
    ArgErrorV,
>
    decreases args.len(),
{
    if args.len() == 0 {
        match acc.root {
            None => Err(ArgErrorV::RootRequired),
            Some(r) => Ok(
                ScanConfigV {
                    root: r,
                    max_depth: acc.max_depth,
                    follow_symlinks: acc.follow_symlinks,
                    exclude_patterns: acc.exclude_patterns,
                },
            ),
        }
    } else if args[0] == "--root"@ {
        if args.len() >= 2 {
            parse_args_spec(args.skip(2), ArgAccV { root: Some(args[1]), ..acc })
        } else {
            Err(ArgErrorV::MissingRootValue)
        }
    } else if args[0] == "--max-depth"@ {
        if args.len() >= 2 {
            match parse_usize_spec(args[1]) {
                Some(v) => parse_args_spec(args.skip(2), ArgAccV { max_depth: v, ..acc }),
                None => Err(ArgErrorV::InvalidMaxDepth),
            }
        } else {
            Err(ArgErrorV::MissingDepthValue)
        }
    } else if args[0] == "--follow-symlinks"@ {
        parse_args_spec(args.skip(1), ArgAccV { follow_symlinks: true, ..acc })
    } else if args[0] == "--exclude-dir"@ {
        if args.len() >= 2 {
            if trim_spec(args[1]).len() == 0 {
                parse_args_spec(args.skip(2), acc)
            } else {
                parse_args_spec(
                    args.skip(2),
                    ArgAccV {
                        exclude_patterns: acc.exclude_patterns.push(trim_spec(args[1])),
                        ..acc
                    },
                )
            }
        } else {
            Err(ArgErrorV::MissingExcludeValue)
        }
    } else {
        Err(ArgErrorV::UnknownArgument { arg: args[0] })
    }
}

/// Whether the executable outcome agrees, through the views, with the
/// specified one.
pub open spec fn parse_outcome_is(r: Result<ScanConfig, ArgError>, spec_r: Result<
    ScanConfigV,
    ArgErrorV,
>) -> bool {
    match r {
        Ok(c) => spec_r matches Ok(cv) && c@ == cv,
        Err(e) => spec_r matches Err(ev) && e@ == ev,
    }
}

/// The ghost form of a gathered root argument.
pub open spec fn root_view(o: Option<String>) -> Option<Seq<char>> {
    match o {
        Option::None => None,
        Option::Some(r) => Some(r@),
    }
}

/// The gathered state, as the scan's running variables hold it.
pub open spec fn acc_of(
    root: Option<String>,
    max_depth: usize,
    follow_symlinks: bool,
    exclude_patterns: Vec<String>,
) -> ArgAccV {
    ArgAccV {
        root: root_view(root),
        max_depth: max_depth as int,
        follow_symlinks: follow_symlinks,
        exclude_patterns: exclude_patterns.deep_view(),
    }
}

/// Parses the command-line words (the program name already removed) into a
/// scan configuration, exactly as [`parse_args_spec`] lays down.
pub fn parse_args(args: &Vec<String>) -> (r: Result<ScanConfig, ArgError>)
    ensures
        parse_outcome_is(r, parse_args_spec(args.deep_view(), initial_acc())),
{
    let ghost av = args.deep_view();
    let mut root: Option<String> = None;
    let mut max_depth: usize = DEFAULT_MAX_DEPTH;
    let mut follow_symlinks: bool = false;
    let mut exclude_patterns: Vec<String> = Vec::new();
    let mut i: usize = 0;
    proof {
        assert(av.skip(0) =~= av);
        assert(exclude_patterns.deep_view() =~= Seq::<Seq<char>>::empty());
        assert(acc_of(root, max_depth, follow_symlinks, exclude_patterns) =~= initial_acc());
    }
    while i < args.len()
        invariant
            av == args.deep_view(),
            av.len() == args.len(),
            i <= args.len(),
            parse_args_spec(av, initial_acc()) == parse_args_spec(
                av.skip(i as int),
                acc_of(root, max_depth, follow_symlinks, exclude_patterns),
            ),
        decreases args.len() - i,
    {
        let ghost i0 = i as int;
        let ghost acc0 = acc_of(root, max_depth, follow_symlinks, exclude_patterns);
        let ghost tail = av.skip(i0);
        proof {
            assert(av[i0] == args@[i0]@);
            assert(tail[0] == av[i0]);
        }
        let arg = &args[i];
        if str_eq(arg.as_str(), "--root") {
            if i + 1 >= args.len() {
                return Err(ArgError::MissingRootValue);
            }
            proof {
                lemma_tail_step(av, i0);
                assert(av[i0 + 1] == args@[i0 + 1]@);
            }
            root = Some(args[i + 1].clone());
            i += 2;
            proof {
                let acc1 = acc_of(root, max_depth, follow_symlinks, exclude_patterns);
                assert(acc1 =~= (ArgAccV { root: Some(tail[1]), ..acc0 }));
                assert(parse_args_spec(tail, acc0) == parse_args_spec(av.skip(i as int), acc1));
            }
        } else if str_eq(arg.as_str(), "--max-depth") {
            if i + 1 >= args.len() {
                return Err(ArgError::MissingDepthValue);
            }
            proof {
                lemma_tail_step(av, i0);
                assert(av[i0 + 1] == args@[i0 + 1]@);
            }
            match parse_usize(args[i + 1].as_str()) {
                Some(v) => {
                    max_depth = v;
                    i += 2;
                    proof {
                        let acc1 = acc_of(root, max_depth, follow_symlinks, exclude_patterns);
                        assert(acc1 =~= (ArgAccV { max_depth: v as int, ..acc0 }));
                        assert(parse_args_spec(tail, acc0) == parse_args_spec(
                            av.skip(i as int),
                            acc1,
                        ));
                    }
                },
                None => {
                    return Err(ArgError::InvalidMaxDepth);
                },
            }
        } else if str_eq(arg.as_str(), "--follow-symlinks") {
            follow_symlinks = true;
            i += 1;
            proof {
                assert(tail.skip(1) =~= av.skip(i as int));
                let acc1 = acc_of(root, max_depth, follow_symlinks, exclude_patterns);
                assert(acc1 =~= (ArgAccV { follow_symlinks: true, ..acc0 }));
                assert(parse_args_spec(tail, acc0) == parse_args_spec(av.skip(i as int), acc1));
            }
        } else if str_eq(arg.as_str(), "--exclude-dir") {
            if i + 1 >= args.len() {
                return Err(ArgError::MissingExcludeValue);
            }
            proof {
                lemma_tail_step(av, i0);
                assert(av[i0 + 1] == args@[i0 + 1]@);
            }
            let ghost pre_dv = exclude_patterns.deep_view();
            let t = trim_copy(args[i + 1].as_str());
            if t.as_str().unicode_len() > 0 {
                exclude_patterns.push(t);
                proof {
                    assert(exclude_patterns.deep_view() =~= pre_dv.push(trim_spec(tail[1])));
                }
            }
            i += 2;
            proof {
                let acc1 = acc_of(root, max_depth, follow_symlinks, exclude_patterns);
                if trim_spec(tail[1]).len() == 0 {
                    assert(acc1 =~= acc0);
                } else {
                    assert(acc1 =~= (ArgAccV {
                        exclude_patterns: acc0.exclude_patterns.push(trim_spec(tail[1])),
                        ..acc0
                    }));
                }
                assert(parse_args_spec(tail, acc0) == parse_args_spec(av.skip(i as int), acc1));
            }
        } else {
            return Err(ArgError::UnknownArgument { arg: arg.clone() });
        }
    }
    proof {
        assert(av.skip(i as int) =~= Seq::<Seq<char>>::empty());
    }
    match root {
        None => Err(ArgError::RootRequired),
        Some(r) => Ok(ScanConfig { root: r, max_depth, follow_symlinks, exclude_patterns }),
    }
}

/// Consuming a flag and its value advances the tail by two.
proof fn lemma_tail_step(av: Seq<Seq<char>>, i: int)
    requires
        0 <= i,
        i + 1 < av.len(),
    ensures
        av.skip(i).len() >= 2,
        av.skip(i)[1] == av[i + 1],
        av.skip(i).skip(2) =~= av.skip(i + 2),
{
}

} // verus!
