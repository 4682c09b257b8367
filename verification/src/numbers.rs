//! Decimal numerals: the exact strings `str::parse` accepts for unsigned
//! integers (an optional leading `+`, then one or more digits, value in
//! range), their value, and the canonical rendering of a value.

use vstd::prelude::*;
use crate::chars::{digit_char, digit_val, is_digit_char};

verus! {

/// The digit part of a numeral: a single leading `+` sign is skipped.
pub open spec fn unsigned_digits(s: Seq<char>) -> Seq<char> {
    if s.len() > 0 && s[0] == '+' {
        s.drop_first()
    } else {
        s
    }
}

pub open spec fn all_digits(s: Seq<char>) -> bool {
    forall|i: int| 0 <= i < s.len() ==> is_digit_char(s[i])
}

/// Value of a digit string, most significant digit first.
pub open spec fn dec_val(s: Seq<char>) -> nat
    decreases s.len(),
{
    if s.len() == 0 {
        0
    } else {
        dec_val(s.drop_last()) * 10 + digit_val(s.last())
    }
}

/// `s` is a numeral for an unsigned integer no greater than `max`: this is
/// exactly when `str::parse` to an unsigned type with that maximum succeeds.
pub open spec fn is_numeral_up_to(s: Seq<char>, max: nat) -> bool {
    let d = unsigned_digits(s);
    d.len() > 0 && all_digits(d) && dec_val(d) <= max
}

/// The value of a digit string is at least the value of any prefix.
pub proof fn lemma_dec_val_prefix(s: Seq<char>, k: int)
    requires
        0 <= k <= s.len(),
    ensures
        dec_val(s.take(k)) <= dec_val(s),
    decreases s.len() - k,
{
    if k < s.len() {
        lemma_dec_val_prefix(s, k + 1);
        assert(s.take(k + 1).drop_last() =~= s.take(k));
        assert(dec_val(s.take(k + 1)) == dec_val(s.take(k)) * 10 + digit_val(s[k]));
    } else {
        assert(s.take(k) =~= s);
    }
}

/// Canonical decimal rendering of a value, without sign or leading zeros.
pub open spec fn dec_str_of(n: nat) -> Seq<char>
    decreases n,
{
    if n < 10 {
        seq![digit_char(n)]
    } else {
        dec_str_of(n / 10).push(digit_char(n % 10))
    }
}

/// Parse a decimal numeral with value at most `max`, as `str::parse` to an
/// unsigned integer type with maximum `max` does: `None` exactly on strings
/// that are not in-range numerals.
pub fn parse_dec_chars(v: &Vec<char>, max: u32) -> (r: Option<u32>)
    ensures
        r is Some <==> is_numeral_up_to(v@, max as nat),
        r matches Some(x) ==> x as nat == dec_val(unsigned_digits(v@)) && x <= max,
{
    let ghost d = unsigned_digits(v@);
    let start: usize = if v.len() > 0 && v[0] == '+' {
        1
    } else {
        0
    };
    proof {
        assert(d =~= v@.skip(start as int));
    }
    if v.len() == start {
        return None;
    }
    let mut i = start;
    let mut acc: u64 = 0;
    while i < v.len()
        invariant
            start <= i <= v.len(),
            start < v.len(),
            d == v@.skip(start as int),
            d == unsigned_digits(v@),
            all_digits(v@.subrange(start as int, i as int)),
            acc as nat == dec_val(v@.subrange(start as int, i as int)),
            acc <= max,
        decreases v.len() - i,
    {
        let c = v[i];
        if c < '0' || c > '9' {
            proof {
                assert(0 <= i - start < d.len());
                assert(d[i - start] == v@[i as int]);
                assert(!is_digit_char(d[i - start]));
                assert(!all_digits(d));
                assert(!is_numeral_up_to(v@, max as nat));
            }
            return None;
        }
        let dv = (c as u32 - '0' as u32) as u64;
        let next = acc * 10 + dv;
        proof {
            let pre = v@.subrange(start as int, i as int);
            let cur = v@.subrange(start as int, i + 1);
            assert(cur.drop_last() =~= pre);
            assert(cur.last() == v@[i as int]);
            assert(dv as nat == digit_val(v@[i as int]));
            assert(next as nat == dec_val(cur));
            assert(all_digits(cur)) by {
                assert(forall|j: int| 0 <= j < pre.len() ==> is_digit_char(#[trigger] pre[j]));
                assert(forall|j: int|
                    0 <= j < cur.len() - 1 ==> cur[j] == pre[j]);
            }
        }
        i = i + 1;
        if next > max as u64 {
            proof {
                let got = v@.subrange(start as int, i as int);
                assert(next as nat == dec_val(got));
                assert(got =~= d.take(i - start));
                assert(dec_val(d.take(i - start)) > max as nat);
                if all_digits(d) {
                    lemma_dec_val_prefix(d, i - start);
                    assert(dec_val(d) > max as nat);
                    assert(!is_numeral_up_to(v@, max as nat));
                } else {
                    assert(!is_numeral_up_to(v@, max as nat));
                }
            }
            return None;
        }
        acc = next;
    }
    proof {
        assert(v@.subrange(start as int, i as int) =~= d);
    }
    Some(acc as u32)
}

/// Validate a process-id string: the numerals an unsigned 32-bit parse
/// accepts, and no others.  Non-numeric, empty and out-of-range strings are
/// rejected before any external call is made.
pub fn validate_pid(pid: &str) -> (r: Option<u32>)
    ensures
        r is Some <==> is_numeral_up_to(pid@, u32::MAX as nat),
        r matches Some(x) ==> x as nat == dec_val(unsigned_digits(pid@)),
{
    let v = crate::scan::chars_of(pid);
    parse_dec_chars(&v, u32::MAX)
}

/// The InvalidFormat diagnostic for a process-id string that failed
/// validation, as every path that rejects one reports it.
pub fn invalid_pid_message(pid: &str) -> (m: String)
    ensures
        m@ == "Invalid PID format: "@ + pid@,
{
    let mut m = String::from_str("Invalid PID format: ");
    m.append(pid);
    m
}

/// Validate a port string: the numerals an unsigned 16-bit parse accepts,
/// and no others.
pub fn validate_port(port: &str) -> (r: Option<u16>)
    ensures
        r is Some <==> is_numeral_up_to(port@, u16::MAX as nat),
        r matches Some(x) ==> x as nat == dec_val(unsigned_digits(port@)),
{
    let v = crate::scan::chars_of(port);
    match parse_dec_chars(&v, 65535) {
        Some(x) => Some(x as u16),
        None => None,
    }
}

/// The canonical decimal rendering of a 16-bit value, as the standard
/// integer formatting prints it.
pub fn u16_to_string(n: u16) -> (r: String)
    ensures
        r@ == dec_str_of(n as nat),
    decreases n,
{
    if n < 10 {
        String::from_str(crate::chars::digit_str(n as u8))
    } else {
        proof {
            assert(n / 10 < n) by (nonlinear_arith)
                requires
                    n >= 10,
            ;
        }
        let mut s = u16_to_string(n / 10);
        s.append(crate::chars::digit_str((n % 10) as u8));
        proof {
            assert(dec_str_of((n / 10) as nat) + seq![digit_char((n % 10) as nat)] =~= dec_str_of(
                (n / 10) as nat,
            ).push(digit_char((n % 10) as nat)));
            assert((n / 10) as nat == (n as nat) / 10 && (n % 10) as nat == (n as nat) % 10);
        }
        s
    }
}

} // verus!
