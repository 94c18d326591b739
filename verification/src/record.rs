//! The output record: one line per regular file, holding its path, its
//! modified time in whole seconds since the epoch, and its size in bytes,
//! separated by single tab characters and terminated by a newline.

use vstd::prelude::*;
use vstd::string::StringExecFns;

use crate::strutil::push_char;

verus! {

/// The decimal digit character for a value between 0 and 9.
pub open spec fn digit_char(d: int) -> char {
    if d == 0 {
        '0'
    } else if d == 1 {
        '1'
    } else if d == 2 {
        '2'
    } else if d == 3 {
        '3'
    } else if d == 4 {
        '4'
    } else if d == 5 {
        '5'
    } else if d == 6 {
        '6'
    } else if d == 7 {
        '7'
    } else if d == 8 {
        '8'
    } else {
        '9'
    }
}

/// The decimal digits of a non-negative value, most significant first, with
/// no leading zeros (zero itself is the single digit `0`).
pub open spec fn dec_nat(n: nat) -> Seq<char>
    decreases n,
{
    if n < 10 {
        seq![digit_char(n as int)]
    } else {
        dec_nat(n / 10).push(digit_char((n % 10) as int))
    }
}

/// The decimal rendering of an integer: a minus sign before the digits of
/// its magnitude when negative.
pub open spec fn dec_int(n: int) -> Seq<char> {
    if n < 0 {
        seq!['-'] + dec_nat((-n) as nat)
    } else {
        dec_nat(n as nat)
    }
}

/// One output line: `path`, modified time and size separated by single tabs,
/// terminated by a newline.
pub open spec fn record_line(path: Seq<char>, mtime: int, size: int) -> Seq<char> {
    path + seq!['\t'] + dec_int(mtime) + seq!['\t'] + dec_int(size) + seq!['\n']
}

/// The executable digit for a value below ten.
fn digit_of(d: u64) -> (c: char)
    requires
        d < 10,
    ensures
        c == digit_char(d as int),
{
    if d == 0 {
        '0'
    } else if d == 1 {
        '1'
    } else if d == 2 {
        '2'
    } else if d == 3 {
        '3'
    } else if d == 4 {
        '4'
    } else if d == 5 {
        '5'
    } else if d == 6 {
        '6'
    } else if d == 7 {
        '7'
    } else if d == 8 {
        '8'
    } else {
        '9'
    }
}

/// Renders a non-negative value in decimal.
pub fn u64_to_decimal(n: u64) -> (s: String)
    ensures
        s@ == dec_nat(n as nat),
{
    let mut digits: Vec<char> = Vec::new();
    let mut m: u64 = n;
    loop
        invariant_except_break
            dec_nat(n as nat) == dec_nat(m as nat) + digits@.reverse(),
        ensures
            dec_nat(n as nat) == digits@.reverse(),
            digits@.len() > 0,
        decreases m,
    {
        let ghost pre = digits@;
        let ghost m0 = m as nat;
        let d = digit_of(m % 10);
        digits.push(d);
        proof {
            assert(digits@.reverse() =~= seq![d] + pre.reverse());
        }
        if m < 10 {
            proof {
                assert(dec_nat(m0) == seq![d]);
                assert(dec_nat(n as nat) =~= digits@.reverse());
            }
            break;
        }
        m = m / 10;
        proof {
            assert(dec_nat(m0) == dec_nat(m as nat).push(d));
            assert(dec_nat(m as nat).push(d) + pre.reverse() =~= dec_nat(m as nat) + (seq![d]
                + pre.reverse()));
            assert(dec_nat(n as nat) == dec_nat(m as nat) + digits@.reverse());
        }
    }
    let mut out = String::new();
    let mut k: usize = digits.len();
    while k > 0
        invariant
            k <= digits@.len(),
            dec_nat(n as nat) == digits@.reverse(),
            out@ =~= digits@.reverse().take(digits@.len() - k),
        decreases k,
    {
        k -= 1;
        let c = digits[k];
        push_char(&mut out, c);
        proof {
            let r = digits@.reverse();
            assert(r[digits@.len() - k - 1] == digits@[k as int]);
            assert(r.take(digits@.len() - k) =~= r.take(digits@.len() - k - 1).push(c));
        }
    }
    proof {
        assert(out@ =~= digits@.reverse());
    }
    out
}

/// Renders a signed value in decimal, with a leading minus sign when
/// negative.
pub fn i64_to_decimal(n: i64) -> (s: String)
    ensures
        s@ == dec_int(n as int),
{
    if n >= 0 {
        u64_to_decimal(n as u64)
    } else {
        let mag: u64 = if n == i64::MIN {
            9223372036854775808u64
        } else {
            (-n) as u64
        };
        proof {
            assert(mag as int == -(n as int));
        }
        let mut out = String::new();
        push_char(&mut out, '-');
        let digits = u64_to_decimal(mag);
        out.append(digits.as_str());
        proof {
            assert(out@ =~= seq!['-'] + dec_nat((-(n as int)) as nat));
        }
        out
    }
}

/// Renders one file record as its output line: path, modified time and size
/// separated by single tabs, with a terminating newline.
pub fn render_record(path: &str, mtime: i64, size: u64) -> (line: String)
    ensures
        line@ == record_line(path@, mtime as int, size as int),
{
    let mut out = String::from_str(path);
    push_char(&mut out, '\t');
    let mt = i64_to_decimal(mtime);
    out.append(mt.as_str());
    push_char(&mut out, '\t');
    let sz = u64_to_decimal(size);
    out.append(sz.as_str());
    push_char(&mut out, '\n');
    proof {
        assert(out@ =~= record_line(path@, mtime as int, size as int));
    }
    out
}

} // verus!
