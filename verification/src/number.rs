//! The grammar of a number in the input text, and a type for one.
//!
//! A token is a number when it is an optional sign followed by `inf`,
//! `infinity` or `nan` in any mix of cases, or by a decimal:
//!
//! ```text
//! Decimal  ::= Mantissa Exponent?
//! Mantissa ::= Digit+ | Digit+ '.' Digit* | Digit* '.' Digit+
//! Exponent ::= ('e' | 'E') Sign? Digit+
//! ```
//!
//! This is the set of texts that the standard library reads as a
//! double-precision number. The library decides which tokens are numbers and
//! keeps their text; turning one into its value is left to the caller.
use crate::search::{first_from, lemma_first_from_bounds, lemma_first_from_is};
use vstd::prelude::*;
use vstd::slice::slice_subrange;

verus! {

/// The decimal point.
pub const POINT: u8 = 0x2e;

/// Whether `b` is one of the ten decimal digits.
pub open spec fn is_digit(b: u8) -> bool {
    0x30 <= b && b <= 0x39
}

/// Whether `b` is `+` or `-`.
pub open spec fn is_sign(b: u8) -> bool {
    b == 0x2b || b == 0x2d
}

/// Whether `b` is `e` or `E`.
pub open spec fn is_exponent_mark(b: u8) -> bool {
    b == 0x65 || b == 0x45
}

/// The lower-case form of an ASCII letter; any other byte is unchanged.
pub open spec fn lower(b: u8) -> u8 {
    if 0x41 <= b && b <= 0x5a {
        (b + 0x20) as u8
    } else {
        b
    }
}

/// Whether every byte of `s` is a digit.
pub open spec fn all_digits(s: Seq<u8>) -> bool {
    forall|i: int| 0 <= i < s.len() ==> is_digit(#[trigger] s[i])
}

/// Whether `s` reads `inf`, `infinity` or `nan`, whatever the case of its
/// letters.
pub open spec fn is_special(s: Seq<u8>) -> bool {
    let w = s.map_values(|b: u8| lower(b));
    ||| w == seq![0x69u8, 0x6eu8, 0x66u8]
    ||| w == seq![0x6eu8, 0x61u8, 0x6eu8]
    ||| w == seq![0x69u8, 0x6eu8, 0x66u8, 0x69u8, 0x6eu8, 0x69u8, 0x74u8, 0x79u8]
}

/// Whether `s` is digits, a point at `p`, and digits, with a digit on at
/// least one side of the point.
pub open spec fn is_pointed_at(s: Seq<u8>, p: int) -> bool {
    &&& 0 <= p < s.len()
    &&& s[p] == POINT
    &&& s.len() > 1
    &&& all_digits(s.take(p))
    &&& all_digits(s.skip(p + 1))
}

/// Whether `s` is a mantissa: digits, with at most one point among them.
pub open spec fn is_mantissa(s: Seq<u8>) -> bool {
    ||| s.len() > 0 && all_digits(s)
    ||| exists|p: int| is_pointed_at(s, p)
}

/// Whether `s` is an exponent: the mark, an optional sign, then digits.
pub open spec fn is_exponent(s: Seq<u8>) -> bool {
    &&& s.len() > 0
    &&& is_exponent_mark(s[0])
    &&& {
        let digits = if s.len() > 1 && is_sign(s[1]) {
            s.skip(2)
        } else {
            s.skip(1)
        };
        digits.len() > 0 && all_digits(digits)
    }
}

/// Whether `s` is a mantissa up to `k` and, where anything follows, an
/// exponent from there.
pub open spec fn is_decimal_cut_at(s: Seq<u8>, k: int) -> bool {
    &&& 0 <= k <= s.len()
    &&& is_mantissa(s.take(k))
    &&& (k == s.len() || is_exponent(s.skip(k)))
}

/// Whether `s` is a decimal: a mantissa, then an optional exponent.
pub open spec fn is_decimal(s: Seq<u8>) -> bool {
    exists|k: int| is_decimal_cut_at(s, k)
}

/// What is left of a token after its sign, if it has one.
pub open spec fn unsigned_part(t: Seq<u8>) -> Seq<u8> {
    if t.len() > 0 && is_sign(t[0]) {
        t.skip(1)
    } else {
        t
    }
}

/// Whether the token `t` is a number.
pub open spec fn is_number(t: Seq<u8>) -> bool {
    is_special(unsigned_part(t)) || is_decimal(unsigned_part(t))
}

/// The predicate that holds of a byte that is no digit.
pub open spec fn is_no_digit() -> spec_fn(u8) -> bool {
    |b: u8| !is_digit(b)
}

/// The end of the digits that start at `from`: the least index at or after
/// `from` that holds no digit, or the length of `s`.
pub open spec fn digits_end(s: Seq<u8>, from: int) -> int {
    first_from(s, is_no_digit(), from)
}

/// `digits_end(s, from)` is `to` when digits fill `s` from `from` to `to`
/// and none stands at `to`.
pub proof fn lemma_digits_end(s: Seq<u8>, from: int, to: int)
    requires
        0 <= from <= to <= s.len(),
        forall|j: int| from <= j < to ==> is_digit(#[trigger] s[j]),
        to == s.len() || !is_digit(s[to]),
    ensures
        digits_end(s, from) == to,
{
    lemma_first_from_is(s, is_no_digit(), from, to);
}

/// Digits fill `s` from `from` to `digits_end(s, from)`, and none stands
/// there.
pub proof fn lemma_digits_end_bounds(s: Seq<u8>, from: int)
    requires
        0 <= from <= s.len(),
    ensures
        from <= digits_end(s, from) <= s.len(),
        forall|j: int| from <= j < digits_end(s, from) ==> is_digit(#[trigger] s[j]),
        digits_end(s, from) < s.len() ==> !is_digit(s[digits_end(s, from)]),
{
    lemma_first_from_bounds(s, is_no_digit(), from);
    assert forall|j: int| from <= j < digits_end(s, from) implies is_digit(#[trigger] s[j]) by {
        assert(!is_no_digit()(s[j]));
    }
}

/// Where the mantissa of `s` ends when `s` is read from the left: after the
/// leading digits and, if a point follows them, after the digits behind it.
pub open spec fn mantissa_end(s: Seq<u8>) -> int {
    let i = digits_end(s, 0);
    if i < s.len() && s[i] == POINT {
        digits_end(s, i + 1)
    } else {
        i
    }
}

/// How many digits the mantissa of `s` holds when `s` is read from the
/// left.
pub open spec fn mantissa_digits(s: Seq<u8>) -> int {
    let i = digits_end(s, 0);
    if i < s.len() && s[i] == POINT {
        mantissa_end(s) - 1
    } else {
        i
    }
}

/// Where the digits of an exponent start, if its mark stands at `j`.
pub open spec fn exponent_digits_start(s: Seq<u8>, j: int) -> int {
    if j + 1 < s.len() && is_sign(s[j + 1]) {
        j + 2
    } else {
        j + 1
    }
}

/// Reading `s` from the left finds a decimal exactly when `s` is one.
pub proof fn lemma_decimal_by_reading(s: Seq<u8>)
    ensures
        is_decimal(s) <==> {
            let j = mantissa_end(s);
            &&& mantissa_digits(s) > 0
            &&& (j == s.len() || {
                let k = exponent_digits_start(s, j);
                &&& is_exponent_mark(s[j])
                &&& k < s.len()
                &&& digits_end(s, k) == s.len()
            })
        },
{
    let i = digits_end(s, 0);
    let j = mantissa_end(s);
    let n = s.len() as int;
    lemma_digits_end_bounds(s, 0);
    if i < n && s[i] == POINT {
        lemma_digits_end_bounds(s, i + 1);
    }
    let read = {
        &&& mantissa_digits(s) > 0
        &&& (j == n || {
            let k = exponent_digits_start(s, j);
            &&& is_exponent_mark(s[j])
            &&& k < n
            &&& digits_end(s, k) == n
        })
    };
    if read {
        let m = s.take(j);
        if i < n && s[i] == POINT {
            assert(m.take(i) =~= s.take(i));
            assert(all_digits(m.take(i)));
            assert forall|x: int| 0 <= x < m.skip(i + 1).len() implies is_digit(
                #[trigger] m.skip(i + 1)[x],
            ) by {
                assert(m.skip(i + 1)[x] == s[i + 1 + x]);
            }
            assert(is_pointed_at(m, i));
        } else {
            assert(all_digits(m));
        }
        assert(is_mantissa(m));
        if j < n {
            let k = exponent_digits_start(s, j);
            let e = s.skip(j);
            lemma_digits_end_bounds(s, k);
            let digits = if e.len() > 1 && is_sign(e[1]) {
                e.skip(2)
            } else {
                e.skip(1)
            };
            assert(digits =~= s.skip(k));
            assert forall|x: int| 0 <= x < digits.len() implies is_digit(#[trigger] digits[x]) by {
                assert(digits[x] == s[k + x]);
            }
            assert(is_exponent(e));
        }
        assert(is_decimal_cut_at(s, j));
    }
    if is_decimal(s) {
        let c = choose|c: int| is_decimal_cut_at(s, c);
        let m = s.take(c);
        assert(c == n || !is_digit(s[c])) by {
            if c < n {
                assert(s.skip(c)[0] == s[c]);
            }
        }
        if m.len() > 0 && all_digits(m) {
            assert forall|x: int| 0 <= x < c implies is_digit(#[trigger] s[x]) by {
                assert(m[x] == s[x]);
            }
            lemma_digits_end(s, 0, c);
            assert(c == n || s[c] != POINT) by {
                if c < n {
                    assert(s.skip(c)[0] == s[c]);
                }
            }
            assert(j == c);
        } else {
            let p = choose|p: int| is_pointed_at(m, p);
            assert(m[p] == s[p]);
            assert forall|x: int| 0 <= x < p implies is_digit(#[trigger] s[x]) by {
                assert(m.take(p)[x] == s[x]);
            }
            lemma_digits_end(s, 0, p);
            assert forall|x: int| p + 1 <= x < c implies is_digit(#[trigger] s[x]) by {
                assert(m.skip(p + 1)[x - p - 1] == s[x]);
            }
            lemma_digits_end(s, p + 1, c);
            assert(j == c);
        }
        if c < n {
            let e = s.skip(c);
            let k = exponent_digits_start(s, c);
            assert(e[0] == s[c]);
            if e.len() > 1 {
                assert(e[1] == s[c + 1]);
            }
            let digits = if e.len() > 1 && is_sign(e[1]) {
                e.skip(2)
            } else {
                e.skip(1)
            };
            assert(digits =~= s.skip(k));
            assert forall|x: int| k <= x < n implies is_digit(#[trigger] s[x]) by {
                assert(digits[x - k] == s[x]);
            }
            lemma_digits_end(s, k, n);
        }
        assert(read);
    }
}

/// Whether a byte is a decimal digit.
pub fn byte_is_digit(b: u8) -> (r: bool)
    ensures
        r == is_digit(b),
{
    0x30 <= b && b <= 0x39
}

/// Whether a byte is `+` or `-`.
pub fn byte_is_sign(b: u8) -> (r: bool)
    ensures
        r == is_sign(b),
{
    b == 0x2b || b == 0x2d
}

/// The lower-case form of an ASCII letter; any other byte is unchanged.
pub fn to_lower(b: u8) -> (r: u8)
    ensures
        r == lower(b),
{
    if 0x41 <= b && b <= 0x5a {
        b + 0x20
    } else {
        b
    }
}

/// Finds where the digits that start at `from` end.
pub fn find_digits_end(s: &[u8], from: usize) -> (end: usize)
    requires
        from <= s@.len(),
    ensures
        end == digits_end(s@, from as int),
        from <= end <= s@.len(),
{
    let mut i: usize = from;
    while i < s.len() && byte_is_digit(s[i])
        invariant
            from <= i <= s@.len(),
            digits_end(s@, i as int) == digits_end(s@, from as int),
        decreases s@.len() - i,
    {
        i += 1;
    }
    i
}

/// Whether `s` reads `inf`, `infinity` or `nan` in any mix of cases.
pub fn check_special(s: &[u8]) -> (ok: bool)
    ensures
        ok == is_special(s@),
{
    let ghost w = s@.map_values(|b: u8| lower(b));
    let ghost inf_word = seq![0x69u8, 0x6eu8, 0x66u8];
    let ghost nan_word = seq![0x6eu8, 0x61u8, 0x6eu8];
    let ghost infinity_word = seq![0x69u8, 0x6eu8, 0x66u8, 0x69u8, 0x6eu8, 0x69u8, 0x74u8, 0x79u8];
    assert(inf_word.len() == 3 && inf_word[0] == 0x69 && inf_word[1] == 0x6e && inf_word[2]
        == 0x66);
    assert(nan_word.len() == 3 && nan_word[0] == 0x6e && nan_word[1] == 0x61 && nan_word[2]
        == 0x6e);
    assert(infinity_word.len() == 8 && infinity_word[0] == 0x69 && infinity_word[1] == 0x6e
        && infinity_word[2] == 0x66 && infinity_word[3] == 0x69 && infinity_word[4] == 0x6e
        && infinity_word[5] == 0x69 && infinity_word[6] == 0x74 && infinity_word[7] == 0x79);
    assert(w.len() == s@.len());
    if s.len() == 3 {
        let a = to_lower(s[0]);
        let b = to_lower(s[1]);
        let c = to_lower(s[2]);
        assert(w[0] == a && w[1] == b && w[2] == c);
        let inf = a == 0x69 && b == 0x6e && c == 0x66;
        let nan = a == 0x6e && b == 0x61 && c == 0x6e;
        assert(inf ==> w =~= inf_word);
        assert(nan ==> w =~= nan_word);
        inf || nan
    } else if s.len() == 8 {
        let a = to_lower(s[0]);
        let b = to_lower(s[1]);
        let c = to_lower(s[2]);
        let d = to_lower(s[3]);
        let e = to_lower(s[4]);
        let f = to_lower(s[5]);
        let g = to_lower(s[6]);
        let h = to_lower(s[7]);
        assert(w[0] == a && w[1] == b && w[2] == c && w[3] == d);
        assert(w[4] == e && w[5] == f && w[6] == g && w[7] == h);
        let infinity = a == 0x69 && b == 0x6e && c == 0x66 && d == 0x69 && e == 0x6e && f == 0x69
            && g == 0x74 && h == 0x79;
        assert(infinity ==> w =~= infinity_word);
        infinity
    } else {
        false
    }
}

/// Whether `s` is a decimal.
pub fn check_decimal(s: &[u8]) -> (ok: bool)
    ensures
        ok == is_decimal(s@),
{
    proof {
        lemma_decimal_by_reading(s@);
    }
    let n = s.len();
    let i = find_digits_end(s, 0);
    let pointed = i < n && s[i] == POINT;
    let j = if pointed {
        find_digits_end(s, i + 1)
    } else {
        i
    };
    let digits = if pointed {
        j - 1
    } else {
        j
    };
    if digits == 0 {
        return false;
    }
    if j == n {
        return true;
    }
    if !(s[j] == 0x65 || s[j] == 0x45) {
        return false;
    }
    let k = if j + 1 < n && byte_is_sign(s[j + 1]) {
        j + 2
    } else {
        j + 1
    };
    if k >= n {
        return false;
    }
    find_digits_end(s, k) == n
}

/// Whether the token `t` is a number.
pub fn check_number(t: &[u8]) -> (ok: bool)
    ensures
        ok == is_number(t@),
{
    let n = t.len();
    let start: usize = if n > 0 && byte_is_sign(t[0]) {
        1
    } else {
        0
    };
    let body = slice_subrange(t, start, n);
    assert(body@ =~= unsigned_part(t@));
    check_special(body) || check_decimal(body)
}

/// The text of one number of the input.
#[derive(Debug, PartialEq, Eq)]
pub struct Number {
    bytes: Vec<u8>,
}

impl View for Number {
    type V = Seq<u8>;

    /// The bytes of the number's text.
    closed spec fn view(&self) -> Seq<u8> {
        self.bytes@
    }
}

impl Number {
    #[verifier::type_invariant]
    spec fn well_formed(self) -> bool {
        is_number(self.bytes@)
    }

    /// Keeps `token` as a number, if it is one.
    pub fn new(token: &[u8]) -> (r: Option<Number>)
        ensures
            r is Some <==> is_number(token@),
            r matches Some(n) ==> n@ == token@,
    {
        if check_number(token) {
            Some(Number { bytes: vstd::slice::slice_to_vec(token) })
        } else {
            None
        }
    }

    /// The number's text, which is a number by the grammar.
    pub fn as_bytes(&self) -> (r: &[u8])
        ensures
            r@ == self@,
            is_number(r@),
    {
        proof {
            use_type_invariant(self);
        }
        self.bytes.as_slice()
    }
}

impl Clone for Number {
    fn clone(&self) -> (r: Self)
        ensures
            r@ == self@,
    {
        proof {
            use_type_invariant(self);
        }
        Number { bytes: vstd::slice::slice_to_vec(self.bytes.as_slice()) }
    }
}

/// What a vector of numbers holds: the text of each.
pub open spec fn numbers_view(v: Seq<Number>) -> Seq<Seq<u8>> {
    Seq::new(v.len(), |i: int| v[i]@)
}

} // verus!
