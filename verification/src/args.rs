use vstd::prelude::*;
use vstd::slice::slice_index_get;
use vstd::string::StringSliceAdditionalSpecFns;

verus! {

/// An ASCII whitespace byte.
pub open spec fn is_ascii_ws(b: u8) -> bool {
    b == 32 || 9 <= b <= 13
}

/// An ASCII decimal digit byte.
pub open spec fn is_digit_byte(b: u8) -> bool {
    48 <= b <= 57
}

/// How many leading bytes of `s` spell one whitespace character, or zero.
/// The characters recognised are the Unicode whitespace set, as their
/// UTF-8 bytes: the ASCII ones, U+0085, U+00A0, U+1680, U+2000 through
/// U+200A, U+2028, U+2029, U+202F, U+205F and U+3000.
pub open spec fn ws_prefix_len(s: Seq<u8>) -> int {
    if s.len() >= 1 && is_ascii_ws(s[0]) {
        1
    } else if s.len() >= 2 && s[0] == 0xC2 && (s[1] == 0x85 || s[1] == 0xA0) {
        2
    } else if s.len() >= 3 && s[0] == 0xE1 && s[1] == 0x9A && s[2] == 0x80 {
        3
    } else if s.len() >= 3 && s[0] == 0xE2 && s[1] == 0x80 && (0x80 <= s[2] <= 0x8A || s[2]
        == 0xA8 || s[2] == 0xA9 || s[2] == 0xAF) {
        3
    } else if s.len() >= 3 && s[0] == 0xE2 && s[1] == 0x81 && s[2] == 0x9F {
        3
    } else if s.len() >= 3 && s[0] == 0xE3 && s[1] == 0x80 && s[2] == 0x80 {
        3
    } else {
        0
    }
}

/// How many trailing bytes of `s` spell one whitespace character, or zero.
/// In valid UTF-8 the match is unambiguous: no whitespace character's
/// encoding is a suffix of another character's.
pub open spec fn ws_suffix_len(s: Seq<u8>) -> int {
    let n = s.len() as int;
    if n >= 1 && is_ascii_ws(s[n - 1]) {
        1
    } else if n >= 2 && s[n - 2] == 0xC2 && (s[n - 1] == 0x85 || s[n - 1] == 0xA0) {
        2
    } else if n >= 3 && s[n - 3] == 0xE1 && s[n - 2] == 0x9A && s[n - 1] == 0x80 {
        3
    } else if n >= 3 && s[n - 3] == 0xE2 && s[n - 2] == 0x80 && (0x80 <= s[n - 1] <= 0x8A || s[n
        - 1] == 0xA8 || s[n - 1] == 0xA9 || s[n - 1] == 0xAF) {
        3
    } else if n >= 3 && s[n - 3] == 0xE2 && s[n - 2] == 0x81 && s[n - 1] == 0x9F {
        3
    } else if n >= 3 && s[n - 3] == 0xE3 && s[n - 2] == 0x80 && s[n - 1] == 0x80 {
        3
    } else {
        0
    }
}

pub open spec fn trim_start_bytes(s: Seq<u8>) -> Seq<u8>
    decreases s.len(),
{
    let k = ws_prefix_len(s);
    if k > 0 {
        trim_start_bytes(s.skip(k))
    } else {
        s
    }
}

pub open spec fn trim_end_bytes(s: Seq<u8>) -> Seq<u8>
    decreases s.len(),
{
    let k = ws_suffix_len(s);
    if k > 0 {
        trim_end_bytes(s.take(s.len() - k))
    } else {
        s
    }
}

/// The input with whitespace characters removed from both ends.
pub open spec fn trimmed_bytes(s: Seq<u8>) -> Seq<u8> {
    trim_end_bytes(trim_start_bytes(s))
}

pub open spec fn all_digits(s: Seq<u8>) -> bool {
    forall|i: int| 0 <= i < s.len() ==> is_digit_byte(#[trigger] s[i])
}

/// The number the digit string denotes, most significant digit first.
pub open spec fn digits_value(s: Seq<u8>) -> int
    decreases s.len(),
{
    if s.len() == 0 {
        0
    } else {
        digits_value(s.drop_last()) * 10 + (s.last() - 48)
    }
}

/// The digits of a trimmed token, a leading `+` or `-` put aside.
pub open spec fn int_token_digits(t: Seq<u8>) -> Seq<u8> {
    if t.len() > 0 && (t[0] == 43 || t[0] == 45) {
        t.drop_first()
    } else {
        t
    }
}

/// The sign a trimmed token carries: -1 under a leading `-`, else 1.
pub open spec fn int_token_sign(t: Seq<u8>) -> int {
    if t.len() > 0 && t[0] == 45 {
        -1
    } else {
        1
    }
}

/// What parsing a 32-bit integer from the bytes of a string yields: the
/// signed value of the trimmed digit token, or nothing when the token is
/// empty, holds a non-digit, or denotes a value outside the type's range.
pub open spec fn spec_parse_i32(s: Seq<u8>) -> Option<int> {
    let t = trimmed_bytes(s);
    let ds = int_token_digits(t);
    if ds.len() > 0 && all_digits(ds) {
        let v = int_token_sign(t) * digits_value(ds);
        if i32::MIN <= v <= i32::MAX {
            Some(v)
        } else {
            None
        }
    } else {
        None
    }
}

fn ws_prefix_at(bytes: &[u8], lo: usize) -> (k: usize)
    requires
        lo <= bytes@.len(),
    ensures
        k == ws_prefix_len(bytes@.skip(lo as int)),
        lo + k <= bytes@.len(),
{
    let len = bytes.len();
    if lo < len {
        let b0 = *slice_index_get(bytes, lo);
        if b0 == 32 || (9 <= b0 && b0 <= 13) {
            return 1;
        }
        if lo + 1 < len {
            let b1 = *slice_index_get(bytes, lo + 1);
            if b0 == 0xC2 && (b1 == 0x85 || b1 == 0xA0) {
                return 2;
            }
            if lo + 2 < len {
                let b2 = *slice_index_get(bytes, lo + 2);
                if b0 == 0xE1 && b1 == 0x9A && b2 == 0x80 {
                    return 3;
                }
                if b0 == 0xE2 && b1 == 0x80 && (0x80 <= b2 && b2 <= 0x8A || b2 == 0xA8 || b2
                    == 0xA9 || b2 == 0xAF) {
                    return 3;
                }
                if b0 == 0xE2 && b1 == 0x81 && b2 == 0x9F {
                    return 3;
                }
                if b0 == 0xE3 && b1 == 0x80 && b2 == 0x80 {
                    return 3;
                }
            }
        }
    }
    0
}

fn ws_suffix_at(bytes: &[u8], lo: usize, hi: usize) -> (k: usize)
    requires
        lo <= hi <= bytes@.len(),
    ensures
        k == ws_suffix_len(bytes@.subrange(lo as int, hi as int)),
        k <= hi - lo,
{
    if hi > lo {
        let b0 = *slice_index_get(bytes, hi - 1);
        if b0 == 32 || (9 <= b0 && b0 <= 13) {
            return 1;
        }
        if hi - 1 > lo {
            let b1 = *slice_index_get(bytes, hi - 2);
            if b1 == 0xC2 && (b0 == 0x85 || b0 == 0xA0) {
                return 2;
            }
            if hi - 2 > lo {
                let b2 = *slice_index_get(bytes, hi - 3);
                if b2 == 0xE1 && b1 == 0x9A && b0 == 0x80 {
                    return 3;
                }
                if b2 == 0xE2 && b1 == 0x80 && (0x80 <= b0 && b0 <= 0x8A || b0 == 0xA8 || b0
                    == 0xA9 || b0 == 0xAF) {
                    return 3;
                }
                if b2 == 0xE2 && b1 == 0x81 && b0 == 0x9F {
                    return 3;
                }
                if b2 == 0xE3 && b1 == 0x80 && b0 == 0x80 {
                    return 3;
                }
            }
        }
    }
    0
}

proof fn lemma_digits_value_nonneg(s: Seq<u8>)
    requires
        all_digits(s),
    ensures
        digits_value(s) >= 0,
    decreases s.len(),
{
    if s.len() > 0 {
        assert(all_digits(s.drop_last()));
        lemma_digits_value_nonneg(s.drop_last());
    }
}

/// A digit string's value is at least the value of any of its prefixes.
proof fn lemma_digits_value_prefix(s: Seq<u8>, j: int)
    requires
        all_digits(s),
        0 <= j <= s.len(),
    ensures
        digits_value(s) >= digits_value(s.take(j)),
    decreases s.len(),
{
    if j == s.len() {
        assert(s.take(j) =~= s);
    } else {
        let head = s.drop_last();
        assert(all_digits(head));
        assert(head.take(j) =~= s.take(j));
        lemma_digits_value_prefix(head, j);
        lemma_digits_value_nonneg(head);
    }
}

/// Reads a loan-term style integer argument: the decimal 32-bit integer the
/// argument holds after trimming whitespace from both ends, or nothing when
/// it holds none, so that the caller can fall back to asking again.
pub fn process_integer_argument(argument: &str) -> (r: Option<i32>)
    ensures
        match spec_parse_i32(argument.spec_bytes()) {
            Some(v) => r matches Some(n) && n as int == v,
            None => r is None,
        },
{
    let bytes = argument.as_bytes();
    let len = bytes.len();
    let ghost all = bytes@;

    let mut lo: usize = 0;
    proof {
        assert(all.skip(0) =~= all);
    }
    while ws_prefix_at(bytes, lo) > 0
        invariant
            len == all.len(),
            bytes@ == all,
            0 <= lo <= len,
            trim_start_bytes(all) == trim_start_bytes(all.skip(lo as int)),
        decreases len - lo,
    {
        let k = ws_prefix_at(bytes, lo);
        proof {
            assert(all.skip(lo as int).skip(k as int) =~= all.skip(lo as int + k as int));
        }
        lo = lo + k;
    }

    let mut hi: usize = len;
    proof {
        assert(all.subrange(lo as int, len as int) =~= all.skip(lo as int));
    }
    while ws_suffix_at(bytes, lo, hi) > 0
        invariant
            len == all.len(),
            bytes@ == all,
            0 <= lo <= hi <= len,
            trimmed_bytes(all) == trim_end_bytes(all.subrange(lo as int, hi as int)),
        decreases hi,
    {
        let k = ws_suffix_at(bytes, lo, hi);
        proof {
            assert(all.subrange(lo as int, hi as int).take(
                hi as int - lo as int - k as int,
            ) =~= all.subrange(lo as int, hi as int - k as int));
        }
        hi = hi - k;
    }
    let ghost t = all.subrange(lo as int, hi as int);
    proof {
        assert(trimmed_bytes(all) == t);
    }

    let mut pos = lo;
    let mut neg = false;
    if pos < hi {
        let b = *slice_index_get(bytes, pos);
        if b == 43 || b == 45 {
            neg = b == 45;
            pos = pos + 1;
        }
    }
    let ghost ds = all.subrange(pos as int, hi as int);
    proof {
        if pos > lo {
            assert(t.drop_first() =~= ds);
        } else {
            assert(t =~= ds);
        }
        assert(int_token_digits(t) == ds);
        assert(int_token_sign(t) == if neg {
            -1int
        } else {
            1int
        });
    }

    if pos == hi {
        return None;
    }

    let mut acc: i64 = 0;
    let mut k = pos;
    while k < hi
        invariant
            len == all.len(),
            bytes@ == all,
            all == argument.spec_bytes(),
            0 <= pos <= k <= hi <= len,
            pos < hi,
            ds == all.subrange(pos as int, hi as int),
            ds == int_token_digits(trimmed_bytes(all)),
            int_token_sign(trimmed_bytes(all)) == if neg {
                -1int
            } else {
                1int
            },
            all_digits(ds.take(k as int - pos as int)),
            acc == digits_value(ds.take(k as int - pos as int)),
            0 <= acc <= 2147483648,
        decreases hi - k,
    {
        let b = *slice_index_get(bytes, k);
        if !(48 <= b && b <= 57) {
            proof {
                assert(ds[k as int - pos as int] == b);
                assert(!all_digits(ds));
            }
            return None;
        }
        proof {
            assert(ds.take(k as int + 1 - pos as int).drop_last() =~= ds.take(
                k as int - pos as int,
            ));
            assert(ds.take(k as int + 1 - pos as int).last() == b);
        }
        acc = acc * 10 + ((b - 48) as i64);
        if acc > 2147483648 {
            proof {
                let took = k as int + 1 - pos as int;
                if all_digits(ds) {
                    lemma_digits_value_prefix(ds, took);
                    assert(digits_value(ds) >= acc);
                }
            }
            return None;
        }
        k = k + 1;
    }
    proof {
        assert(ds.take(hi as int - pos as int) =~= ds);
    }

    if neg {
        Some((-acc) as i32)
    } else {
        if acc > 2147483647 {
            return None;
        }
        Some(acc as i32)
    }
}

} // verus!
