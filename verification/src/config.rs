use vstd::prelude::*;

verus! {

/// Whether a character is a decimal digit.
pub open spec fn is_digit(c: char) -> bool {
    48 <= c as u32 && c as u32 <= 57
}

/// The value of one digit.
pub open spec fn digit_val(c: char) -> int {
    c as u32 - 48
}

/// The number a digit string denotes, read left to right.
pub open spec fn dec_val(s: Seq<char>) -> int
    decreases s.len(),
{
    if s.len() == 0 {
        0
    } else {
        dec_val(s.drop_last()) * 10 + digit_val(s.last())
    }
}

/// The digits of a port string: what stands after an optional leading plus
/// sign.
pub open spec fn port_digits(s: Seq<char>) -> Seq<char> {
    if s.len() > 0 && s[0] == '+' {
        s.drop_first()
    } else {
        s
    }
}

/// A well-formed port string: an optional plus sign, then one or more
/// decimal digits and nothing else, denoting a value of at most 65535.
pub open spec fn is_port_str(s: Seq<char>) -> bool {
    let d = port_digits(s);
    d.len() > 0 && (forall|i: int| 0 <= i < d.len() ==> is_digit(#[trigger] d[i])) && dec_val(d)
        <= 65535
}

/// A digit string denotes a non-negative number.
proof fn lemma_dec_val_nonneg(d: Seq<char>)
    requires
        forall|i: int| 0 <= i < d.len() ==> is_digit(#[trigger] d[i]),
    ensures
        dec_val(d) >= 0,
    decreases d.len(),
{
    if d.len() > 0 {
        let p = d.drop_last();
        assert(forall|i: int| 0 <= i < p.len() ==> is_digit(#[trigger] p[i]));
        lemma_dec_val_nonneg(p);
    }
}

/// A digit string denotes at least as much as any of its prefixes.
proof fn lemma_dec_val_prefix(d: Seq<char>, k: int)
    requires
        0 <= k <= d.len(),
        forall|i: int| 0 <= i < d.len() ==> is_digit(#[trigger] d[i]),
    ensures
        dec_val(d.subrange(0, k)) <= dec_val(d),
    decreases d.len() - k,
{
    if k == d.len() {
        assert(d.subrange(0, k) =~= d);
    } else {
        let p = d.subrange(0, k);
        let q = d.subrange(0, k + 1);
        assert(q.drop_last() =~= p);
        assert(forall|i: int| 0 <= i < p.len() ==> is_digit(#[trigger] p[i]));
        lemma_dec_val_nonneg(p);
        assert(dec_val(q) == dec_val(p) * 10 + digit_val(q.last()));
        lemma_dec_val_prefix(d, k + 1);
    }
}

/// The port a configuration string names, if it names one: `Some` exactly on
/// well-formed port strings, carrying the denoted number.
pub fn parse_port(s: &str) -> (r: Option<u16>)
    ensures
        match r {
            Some(p) => is_port_str(s@) && p as int == dec_val(port_digits(s@)),
            None => !is_port_str(s@),
        },
{
    let n = s.unicode_len();
    let mut start: usize = 0;
    if n > 0 && s.get_char(0) == '+' {
        start = 1;
    }
    let ghost d = port_digits(s@);
    proof {
        assert(d =~= s@.subrange(start as int, n as int));
    }
    if start >= n {
        return None;
    }
    let mut acc: u32 = 0;
    let mut j = start;
    while j < n
        invariant
            n == s@.len(),
            start <= j <= n,
            start < n,
            d == s@.subrange(start as int, n as int),
            d == port_digits(s@),
            forall|i: int| 0 <= i < j - start ==> is_digit(#[trigger] d[i]),
            acc <= 65535,
            acc as int == dec_val(s@.subrange(start as int, j as int)),
        decreases n - j,
    {
        let c = s.get_char(j);
        let v = c as u32;
        if v < 48 || v > 57 {
            proof {
                assert(d[j - start] == s@[j as int]);
                assert(!is_digit(d[j - start]));
            }
            return None;
        }
        let next = acc * 10 + (v - 48);
        proof {
            let p = s@.subrange(start as int, j as int);
            let q = s@.subrange(start as int, j + 1);
            assert(q.drop_last() =~= p);
            assert(q.last() == s@[j as int]);
            assert(next as int == dec_val(q));
        }
        if next > 65535 {
            proof {
                if forall|i: int| 0 <= i < d.len() ==> is_digit(#[trigger] d[i]) {
                    assert(s@.subrange(start as int, j + 1) =~= d.subrange(0, j + 1 - start));
                    lemma_dec_val_prefix(d, j + 1 - start);
                }
            }
            return None;
        }
        acc = next;
        j = j + 1;
    }
    proof {
        assert(s@.subrange(start as int, n as int) =~= d);
    }
    Some(acc as u16)
}

} // verus!
