//! Small string helpers shared by the document walkers.

use vstd::prelude::*;

verus! {

/// Compares two strings character for character.
pub fn str_eq(a: &str, b: &str) -> (r: bool)
    ensures
        r == (a@ == b@),
{
    let na = a.unicode_len();
    let nb = b.unicode_len();
    if na != nb {
        return false;
    }
    let mut i: usize = 0;
    while i < na
        invariant
            na == a@.len(),
            nb == b@.len(),
            na == nb,
            i <= na,
            forall|k: int| 0 <= k < i ==> a@[k] == #[trigger] b@[k],
        decreases na - i,
    {
        let ca = a.get_char(i);
        let cb = b.get_char(i);
        if ca != cb {
            return false;
        }
        i = i + 1;
    }
    proof {
        assert(a@ =~= b@);
    }
    true
}

/// A path stripped of its single leading separator, if it has one.
pub open spec fn strip_lead(p: Seq<char>) -> Seq<char> {
    if p.len() > 0 && p[0] == '/' {
        p.skip(1)
    } else {
        p
    }
}

/// Strips the single filesystem-root-relative leading separator off a
/// component path.
pub fn strip_lead_sep(p: &str) -> (r: &str)
    ensures
        r@ == strip_lead(p@),
{
    let n = p.unicode_len();
    if n > 0 {
        let c = p.get_char(0);
        if c == '/' {
            let r = p.substring_char(1, n);
            proof {
                assert(p@.subrange(1, n as int) =~= p@.skip(1));
            }
            return r;
        }
    }
    p
}

/// A decimal digit character.
pub open spec fn is_dec_digit(c: char) -> bool {
    48 <= c as int <= 57
}

/// Every character of the string is a decimal digit.
pub open spec fn all_dec_digits(s: Seq<char>) -> bool {
    forall|i: int| 0 <= i < s.len() ==> is_dec_digit(#[trigger] s[i])
}

/// The value of a decimal digit string.
pub open spec fn dec_value(s: Seq<char>) -> int
    decreases s.len(),
{
    if s.len() == 0 {
        0
    } else {
        dec_value(s.drop_last()) * 10 + (s.last() as int - 48)
    }
}

/// The canonical decimal digit string of a number: no leading zero
/// except for zero itself.
pub open spec fn dec_chars(n: int) -> Seq<char>
    decreases n,
{
    if n < 10 {
        seq![((48 + n) as u8) as char]
    } else {
        dec_chars(n / 10).push(((48 + n % 10) as u8) as char)
    }
}

/// Reads a number from a decimal digit string: the string must be
/// non-empty, all digits, and its value must fit the machine word.
pub fn parse_decimal(s: &str) -> (r: Option<usize>)
    ensures
        (if s@.len() > 0 && all_dec_digits(s@) && dec_value(s@) <= usize::MAX {
            r matches Some(v) && v == dec_value(s@)
        } else {
            r is None
        }),
{
    let n = s.unicode_len();
    if n == 0 {
        return Option::None;
    }
    let mut acc: usize = 0;
    let mut i: usize = 0;
    while i < n
        invariant
            n == s@.len(),
            i <= n,
            all_dec_digits(s@.take(i as int)),
            acc == dec_value(s@.take(i as int)),
            dec_value(s@.take(i as int)) <= usize::MAX,
        decreases n - i,
    {
        let c = s.get_char(i);
        if !('0' <= c && c <= '9') {
            proof {
                assert(!is_dec_digit(s@[i as int]));
                assert(!all_dec_digits(s@));
            }
            return Option::None;
        }
        let d = (c as u32 - 48) as usize;
        let wide: u128 = (acc as u128) * 10 + (d as u128);
        proof {
            assert(s@.take(i + 1).drop_last() =~= s@.take(i as int));
            assert(s@.take(i + 1).last() == s@[i as int]);
        }
        if wide > (usize::MAX as u128) {
            proof {
                assert(dec_value(s@.take(i + 1)) > usize::MAX);
                lemma_dec_value_prefix_overflow(s@, i + 1);
            }
            return Option::None;
        }
        acc = wide as usize;
        i = i + 1;
    }
    proof {
        assert(s@.take(n as int) =~= s@);
    }
    Option::Some(acc)
}

/// A digit string worth more than the machine word at some prefix is
/// worth more than it as a whole.
proof fn lemma_dec_value_prefix_overflow(s: Seq<char>, i: int)
    requires
        0 <= i <= s.len(),
        dec_value(s.take(i)) > usize::MAX,
        all_dec_digits(s.take(i)),
    ensures
        dec_value(s) > usize::MAX || !all_dec_digits(s),
    decreases s.len() - i,
{
    if i < s.len() {
        if is_dec_digit(s[i]) {
            assert(s.take(i + 1).drop_last() =~= s.take(i));
            assert(s.take(i + 1).last() == s[i]);
            assert(dec_value(s.take(i + 1)) >= dec_value(s.take(i)) * 10);
            lemma_dec_value_prefix_overflow(s, i + 1);
        } else {
            assert(!all_dec_digits(s));
        }
    } else {
        assert(s.take(i) =~= s);
    }
}

/// Writes a number as its canonical decimal digit string.
pub fn usize_to_string(v: usize) -> (r: String)
    ensures
        r@ == dec_chars(v as int),
{
    let mut low_first: Vec<u8> = Vec::new();
    let mut cur: usize = v;
    while cur >= 10
        invariant
            forall|k: int| 0 <= k < low_first@.len() ==> 48 <= #[trigger] low_first@[k] < 58,
            dec_chars(v as int) =~= dec_chars(cur as int) + Seq::new(
                low_first@.len(),
                |k: int| (low_first@[low_first@.len() - 1 - k] as u8) as char,
            ),
        decreases cur,
    {
        let ghost pre = low_first@;
        let d: u8 = (cur % 10) as u8;
        low_first.push(48 + d);
        cur = cur / 10;
        proof {
            assert forall|k: int|
                0 <= k < low_first@.len() implies #[trigger] dec_chars(v as int)[dec_chars(
                cur as int,
            ).len() + k] == (low_first@[low_first@.len() - 1 - k] as u8) as char by {
                if k == 0 {
                    assert(dec_chars((cur * 10 + d) as int) == dec_chars(cur as int).push(
                        ((48 + d) as u8) as char,
                    ));
                } else {
                    assert(low_first@[low_first@.len() - 1 - k] == pre[pre.len() - 1 - (k - 1)]);
                }
            }
            assert(dec_chars(v as int) =~= dec_chars(cur as int) + Seq::new(
                low_first@.len(),
                |k: int| (low_first@[low_first@.len() - 1 - k] as u8) as char,
            ));
        }
    }
    let mut bytes: Vec<u8> = Vec::new();
    bytes.push(48 + (cur as u8));
    let m = low_first.len();
    let mut i: usize = 0;
    while i < m
        invariant
            m == low_first@.len(),
            i <= m,
            forall|k: int| 0 <= k < low_first@.len() ==> 48 <= #[trigger] low_first@[k] < 58,
            bytes@.len() == i + 1,
            bytes@[0] == 48 + (cur as u8),
            forall|k: int| 1 <= k < i + 1 ==> #[trigger] bytes@[k] == low_first@[m - k],
        decreases m - i,
    {
        bytes.push(low_first[m - 1 - i]);
        i = i + 1;
    }
    let ghost tail = Seq::new(
        low_first@.len(),
        |k: int| (low_first@[low_first@.len() - 1 - k] as u8) as char,
    );
    proof {
        assert(cur < 10);
        assert(dec_chars(cur as int) == seq![((48 + cur) as u8) as char]);
        assert forall|k: int| 0 <= k < bytes@.len() implies #[trigger] bytes@[k] < 128 by {
            if k >= 1 {
                assert(bytes@[k] == low_first@[m - k]);
            }
        }
    }
    let r = ascii_to_string(bytes);
    proof {
        assert forall|k: int| 0 <= k < r@.len() implies r@[k] == dec_chars(v as int)[k] by {
            if k == 0 {
                assert(r@[0] == (bytes@[0] as u8) as char);
            } else {
                assert(r@[k] == (bytes@[k] as u8) as char);
                assert(bytes@[k] == low_first@[m - k]);
                assert(tail[k - 1] == (low_first@[m - k] as u8) as char);
                assert(dec_chars(v as int)[k] == tail[k - 1]);
            }
        }
        assert(r@ =~= dec_chars(v as int));
    }
    r
}

/// Builds a `String` from ASCII codes.
///
/// Relies on `String::from_utf8`: bytes below 128 are valid UTF-8 and
/// decode to the characters with the same code points.
#[verifier::external_body]
pub fn ascii_to_string(bytes: Vec<u8>) -> (r: String)
    requires
        forall|i: int| 0 <= i < bytes@.len() ==> #[trigger] bytes@[i] < 128,
    ensures
        r@.len() == bytes@.len(),
        forall|i: int| 0 <= i < bytes@.len() ==> #[trigger] r@[i] == bytes@[i] as char,
{
    String::from_utf8(bytes).unwrap_or_default()
}

/// Compares an optional string against a string.
pub fn opt_str_is(o: &Option<String>, key: &str) -> (r: bool)
    ensures
        r == (o matches Some(s) && s@ == key@),
{
    match o {
        Option::Some(s) => str_eq(s.as_str(), key),
        Option::None => false,
    }
}

} // verus!
