use vstd::prelude::*;

verus! {

pub const NEWLINE: u8 = 10;

pub const SPACE: u8 = 32;

pub const DOT: u8 = 46;

pub const CARRIAGE_RETURN: u8 = 13;

pub open spec fn is_digit(c: u8) -> bool {
    48 <= c <= 57
}

/// A non-empty run of decimal digits.
pub open spec fn is_number(s: Seq<u8>) -> bool {
    s.len() > 0 && forall|i: int| 0 <= i < s.len() ==> is_digit(#[trigger] s[i])
}

/// The value of a run of decimal digits, most significant first.
pub open spec fn digits_value(s: Seq<u8>) -> nat
    decreases s.len(),
{
    if s.len() == 0 {
        0
    } else {
        digits_value(s.drop_last()) * 10 + (s.last() - 48) as nat
    }
}

/// The index of the first `c` in `s` at or after `i`, or the length of `s` if there is none.
pub open spec fn find_from(s: Seq<u8>, c: u8, i: int) -> int
    decreases s.len() - i,
{
    if i < 0 || i >= s.len() {
        s.len() as int
    } else if s[i] == c {
        i
    } else {
        find_from(s, c, i + 1)
    }
}

pub proof fn lemma_find_from_bounds(s: Seq<u8>, c: u8, i: int)
    requires
        0 <= i,
    ensures
        i <= s.len() ==> i <= find_from(s, c, i) <= s.len(),
        i < s.len() ==> i <= find_from(s, c, i),
        find_from(s, c, i) < s.len() ==> s[find_from(s, c, i)] == c,
        forall|j: int| i <= j < find_from(s, c, i) ==> s[j] != c,
    decreases s.len() - i,
{
    if i < s.len() && s[i] != c {
        lemma_find_from_bounds(s, c, i + 1);
    }
}

/// A prefix of a run of digits is worth no more than the whole run.
pub proof fn lemma_digits_value_prefix(s: Seq<u8>, n: int)
    requires
        0 <= n <= s.len(),
        forall|i: int| 0 <= i < s.len() ==> is_digit(#[trigger] s[i]),
    ensures
        digits_value(s.take(n)) <= digits_value(s),
    decreases s.len() - n,
{
    if n < s.len() {
        lemma_digits_value_prefix(s, n + 1);
        assert(s.take(n + 1).drop_last() =~= s.take(n));
    }
    assert(s.take(s.len() as int) =~= s);
}

/// The index of the first `c` in `s` at or after `i`, or the length of `s` if there is none.
pub fn find_byte(s: &[u8], c: u8, i: usize) -> (r: usize)
    ensures
        r == find_from(s@, c, i as int),
{
    let mut j: usize = i;
    if j >= s.len() {
        return s.len();
    }
    while j < s.len()
        invariant
            i <= j <= s@.len(),
            find_from(s@, c, i as int) == find_from(s@, c, j as int),
        decreases s@.len() - j,
    {
        if s[j] == c {
            return j;
        }
        j = j + 1;
    }
    j
}

/// The bytes of `s` from `lo` up to, not including, `hi`.
pub fn copy_range(s: &[u8], lo: usize, hi: usize) -> (r: Vec<u8>)
    requires
        lo <= hi <= s@.len(),
    ensures
        r@ == s@.subrange(lo as int, hi as int),
{
    let mut r: Vec<u8> = Vec::new();
    let mut j: usize = lo;
    while j < hi
        invariant
            lo <= j <= hi,
            hi <= s@.len(),
            r@ == s@.subrange(lo as int, j as int),
        decreases hi - j,
    {
        r.push(s[j]);
        j = j + 1;
        assert(r@ =~= s@.subrange(lo as int, j as int));
    }
    r
}

/// The value of `s` read as a decimal number, where it is one and is at most `limit`.
pub fn parse_number(s: &[u8], limit: u64) -> (r: Option<u64>)
    ensures
        r == if is_number(s@) && digits_value(s@) <= limit {
            Some(digits_value(s@) as u64)
        } else {
            None::<u64>
        },
{
    if s.len() == 0 {
        return None;
    }
    let mut value: u64 = 0;
    let mut i: usize = 0;
    while i < s.len()
        invariant
            i <= s@.len(),
            forall|j: int| 0 <= j < i ==> is_digit(#[trigger] s@[j]),
            value == digits_value(s@.take(i as int)),
            value <= limit,
        decreases s@.len() - i,
    {
        let c = s[i];
        if c < 48 || c > 57 {
            return None;
        }
        let d = (c - 48) as u64;
        proof {
            assert(s@.take(i + 1).drop_last() =~= s@.take(i as int));
        }
        if value > limit / 10 || d > limit - value * 10 {
            proof {
                assert(value * 10 + d > limit) by (nonlinear_arith)
                    requires
                        value > limit / 10 || (value <= limit / 10 && d > limit - value * 10),
                ;
                if is_number(s@) {
                    lemma_digits_value_prefix(s@, i + 1);
                }
            }
            return None;
        }
        proof {
            assert(value * 10 <= limit) by (nonlinear_arith)
                requires
                    value <= limit / 10,
            ;
        }
        value = value * 10 + d;
        i = i + 1;
    }
    proof {
        assert(s@.take(s@.len() as int) =~= s@);
    }
    Some(value)
}


/// Cents written as a whole part and a fraction of one or two digits.
pub open spec fn cents_of(whole: Seq<u8>, frac: Seq<u8>) -> nat {
    digits_value(whole) * 100 + if frac.len() == 1 {
        digits_value(frac) * 10
    } else {
        digits_value(frac)
    }
}

/// The cents that an amount field writes: digits, optionally followed by a dot and one or two
/// more digits (`12`, `12.5`, `12.50`), where the value fits in a `u64`.
pub open spec fn amount_spec(f: Seq<u8>) -> Option<u64> {
    let d = find_from(f, DOT, 0);
    if d == f.len() {
        if is_number(f) && digits_value(f) * 100 <= u64::MAX {
            Some((digits_value(f) * 100) as u64)
        } else {
            None
        }
    } else {
        let whole = f.subrange(0, d);
        let frac = f.subrange(d + 1, f.len() as int);
        if is_number(whole) && is_number(frac) && frac.len() <= 2 && cents_of(whole, frac)
            <= u64::MAX {
            Some(cents_of(whole, frac) as u64)
        } else {
            None
        }
    }
}

/// Reads an amount field as cents.
pub fn parse_amount(f: &[u8]) -> (r: Option<u64>)
    ensures
        r == amount_spec(f@),
{
    let d = find_byte(f, DOT, 0);
    proof {
        lemma_find_from_bounds(f@, DOT, 0);
    }
    let whole_bytes = copy_range(f, 0, d);
    let whole = match parse_number(whole_bytes.as_slice(), u64::MAX / 100) {
        Some(w) => w,
        None => {
            proof {
                if is_number(whole_bytes@) {
                    assert(digits_value(whole_bytes@) * 100 > u64::MAX) by (nonlinear_arith)
                        requires
                            digits_value(whole_bytes@) > u64::MAX / 100,
                    ;
                }
                if d == f@.len() {
                    assert(whole_bytes@ =~= f@);
                }
            }
            return None;
        },
    };
    proof {
        assert(whole * 100 <= u64::MAX - 15) by (nonlinear_arith)
            requires
                whole <= u64::MAX / 100,
        ;
    }
    if d == f.len() {
        proof {
            assert(whole_bytes@ =~= f@);
        }
        return Some(whole * 100);
    }
    let frac_bytes = copy_range(f, d + 1, f.len());
    if frac_bytes.len() == 0 || frac_bytes.len() > 2 {
        return None;
    }
    let frac = match parse_number(frac_bytes.as_slice(), 99) {
        Some(v) => v,
        None => {
            proof {
                if is_number(frac_bytes@) {
                    let t = frac_bytes@;
                    assert(is_digit(t[0]));
                    if t.len() == 1 {
                        assert(digits_value(t.drop_last()) == 0);
                        assert(t.last() == t[0]);
                        assert(digits_value(t) <= 9);
                    } else {
                        assert(is_digit(t[1]));
                        let u = t.drop_last();
                        assert(digits_value(u.drop_last()) == 0);
                        assert(u.last() == t[0]);
                        assert(t.last() == t[1]);
                        assert(digits_value(u) <= 9);
                        assert(digits_value(t) <= 99);
                    }
                }
            }
            return None;
        },
    };
    let scaled: u64 = if frac_bytes.len() == 1 {
        frac * 10
    } else {
        frac
    };
    if whole * 100 > u64::MAX - scaled {
        return None;
    }
    Some(whole * 100 + scaled)
}


/// The lines of `s` from index `i` on: the runs of bytes between newlines. A newline at the
/// very end closes the last line and starts no new one. A line keeps any carriage return
/// that ends it; `strip_cr` takes it off.
pub open spec fn lines_from(s: Seq<u8>, i: int) -> Seq<Seq<u8>>
    decreases s.len() + 1 - i,
    via lines_from_decreases
{
    if i < 0 || i >= s.len() {
        Seq::empty()
    } else {
        let e = find_from(s, NEWLINE, i);
        seq![s.subrange(i, e)] + lines_from(s, e + 1)
    }
}

/// A line without the one carriage return that may end it.
pub open spec fn strip_cr(l: Seq<u8>) -> Seq<u8> {
    if l.len() > 0 && l.last() == CARRIAGE_RETURN {
        l.drop_last()
    } else {
        l
    }
}

#[via_fn]
proof fn lines_from_decreases(s: Seq<u8>, i: int) {
    if 0 <= i < s.len() {
        lemma_find_from_bounds(s, NEWLINE, i);
    }
}

} // verus!
