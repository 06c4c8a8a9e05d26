//! Text helpers: conversions between strings and character sequences, and
//! the splitting, joining and number syntax that the engine relies on.

use vstd::prelude::*;
use vstd::std_specs::iter::IteratorSpec;

verus! {

/// `str`'s `==`: two string slices are equal exactly when they hold the same
/// characters.
pub assume_specification[ <str as PartialEq>::eq ](a: &str, b: &str) -> (r: bool)
    ensures
        r == (a@ == b@),
;

/// The characters of `s`, in order.
pub fn chars_of(s: &str) -> (r: Vec<char>)
    ensures
        r@ == s@,
{
    broadcast use vstd::string::group_string_axioms;

    let mut it = s.chars();
    let mut out: Vec<char> = Vec::new();
    loop
        invariant
            out@ + IteratorSpec::remaining(&it) == s@,
            IteratorSpec::decrease(&it) is Some,
        decreases IteratorSpec::decrease(&it)->0,
    {
        match it.next() {
            Some(c) => {
                out.push(c);
                assert(out@ + IteratorSpec::remaining(&it) =~= s@);
            },
            None => {
                assert(out@ =~= s@);
                return out;
            },
        }
    }
}

/// `String::push`: appends the character to the string.
#[verifier::external_body]
fn push_char(s: &mut String, c: char)
    ensures
        final(s)@ == old(s)@.push(c),
{
    s.push(c);
}

/// The string made of `chars`, in order.
pub fn string_of(chars: &Vec<char>) -> (r: String)
    ensures
        r@ == chars@,
{
    let mut out = String::new();
    let mut i: usize = 0;
    while i < chars.len()
        invariant
            0 <= i <= chars.len(),
            out@ == chars@.take(i as int),
        decreases chars.len() - i,
    {
        push_char(&mut out, chars[i]);
        i += 1;
        assert(out@ =~= chars@.take(i as int));
    }
    assert(chars@.take(chars.len() as int) =~= chars@);
    out
}

/// `String::from_utf8`: the text that `bytes` encode, or `None` when they are
/// not valid UTF-8.
#[verifier::external_body]
pub(crate) fn string_from_utf8(bytes: Vec<u8>) -> (r: Option<String>)
    ensures
        r is Some <==> vstd::utf8::valid_utf8(bytes@),
        r matches Some(s) ==> s@ == vstd::utf8::decode_utf8(bytes@),
{
    String::from_utf8(bytes).ok()
}

/// The views of a sequence of strings.
pub open spec fn texts(v: Seq<String>) -> Seq<Seq<char>> {
    v.map_values(|s: String| s@)
}

/// A copy of the characters of `v` from `from` up to `to`.
pub fn sub_chars(v: &Vec<char>, from: usize, to: usize) -> (r: Vec<char>)
    requires
        from <= to <= v.len(),
    ensures
        r@ == v@.subrange(from as int, to as int),
{
    let mut out: Vec<char> = Vec::new();
    let mut i: usize = from;
    while i < to
        invariant
            from <= i <= to <= v.len(),
            out@ == v@.subrange(from as int, i as int),
        decreases to - i,
    {
        out.push(v[i]);
        i += 1;
        assert(out@ =~= v@.subrange(from as int, i as int));
    }
    out
}

/// Whether `v` holds exactly the characters of `word`.
pub fn chars_are(v: &Vec<char>, word: &str) -> (r: bool)
    ensures
        r == (v@ == word@),
{
    let s = string_of(v);
    s.as_str().eq(word)
}

/// The position of the first `c` in `s`, or the length of `s` when it holds
/// none.
pub open spec fn index_of(s: Seq<char>, c: char) -> int
    decreases s.len(),
{
    if s.len() == 0 {
        0
    } else if s[0] == c {
        0
    } else {
        1 + index_of(s.skip(1), c)
    }
}

/// The pieces of `s` between occurrences of `sep`; a text without `sep` is one
/// piece, and so is the empty text.
pub open spec fn split(s: Seq<char>, sep: char) -> Seq<Seq<char>>
    decreases s.len(),
{
    let i = index_of(s, sep);
    if 0 <= i < s.len() {
        seq![s.take(i)] + split(s.skip(i + 1), sep)
    } else {
        seq![s]
    }
}

/// `index_of` is the least position that holds `c`.
pub proof fn lemma_index_of(s: Seq<char>, c: char, k: int)
    requires
        0 <= k <= s.len(),
        forall|j: int| 0 <= j < k ==> s[j] != c,
    ensures
        k < s.len() && s[k] == c ==> index_of(s, c) == k,
        k <= index_of(s, c) <= s.len(),
    decreases k,
{
    if s.len() == 0 {
    } else if k == 0 {
        lemma_index_of_bound(s, c);
    } else {
        let t = s.skip(1);
        assert forall|j: int| 0 <= j < k - 1 implies t[j] != c by {
            assert(t[j] == s[j + 1]);
        }
        lemma_index_of(t, c, k - 1);
        assert(s[0] != c);
    }
}

/// `index_of` never passes the end of the text.
pub proof fn lemma_index_of_bound(s: Seq<char>, c: char)
    ensures
        0 <= index_of(s, c) <= s.len(),
    decreases s.len(),
{
    if s.len() != 0 && s[0] != c {
        lemma_index_of_bound(s.skip(1), c);
    }
}

/// Splits `text` at every `sep`.
pub fn split_text(text: &str, sep: char) -> (r: Vec<String>)
    ensures
        texts(r@) == split(text@, sep),
{
    let chars = chars_of(text);
    let mut out: Vec<String> = Vec::new();
    let mut start: usize = 0;
    let mut i: usize = 0;
    assert(chars@.skip(0) =~= chars@);
    assert(texts(out@) =~= Seq::<Seq<char>>::empty());
    while i < chars.len()
        invariant
            0 <= start <= i <= chars.len(),
            chars@ == text@,
            split(text@, sep) == texts(out@) + split(chars@.skip(start as int), sep),
            forall|j: int| start <= j < i ==> chars@[j] != sep,
        decreases chars.len() - i,
    {
        if chars[i] == sep {
            let piece = sub_chars(&chars, start, i);
            let word = string_of(&piece);
            proof {
                let rest = chars@.skip(start as int);
                assert forall|j: int| 0 <= j < i - start implies rest[j] != sep by {
                    assert(rest[j] == chars@[start + j]);
                }
                lemma_index_of(rest, sep, i - start);
                assert(rest.take(i - start) =~= chars@.subrange(start as int, i as int));
                assert(rest.skip(i - start + 1) =~= chars@.skip(i + 1));
                assert(texts(out@.push(word)) =~= texts(out@) + seq![word@]);
            }
            out.push(word);
            start = i + 1;
        }
        i += 1;
    }
    let piece = sub_chars(&chars, start, chars.len());
    let word = string_of(&piece);
    proof {
        let rest = chars@.skip(start as int);
        assert forall|j: int| 0 <= j < rest.len() implies rest[j] != sep by {
            assert(rest[j] == chars@[start + j]);
        }
        lemma_index_of(rest, sep, rest.len() as int);
        assert(rest =~= chars@.subrange(start as int, chars.len() as int));
        assert(texts(out@.push(word)) =~= texts(out@) + seq![word@]);
    }
    out.push(word);
    out
}

/// The texts of `parts` in order, with `sep` between neighbours.
pub open spec fn join(parts: Seq<Seq<char>>, sep: Seq<char>) -> Seq<char>
    decreases parts.len(),
{
    if parts.len() == 0 {
        Seq::empty()
    } else if parts.len() == 1 {
        parts[0]
    } else {
        join(parts.drop_last(), sep) + sep + parts.last()
    }
}

/// Joins the strings of `parts` from position `from` on, with `sep` between
/// neighbours.
pub fn join_from(parts: &Vec<String>, from: usize, sep: &str) -> (r: String)
    requires
        from <= parts.len(),
    ensures
        r@ == join(texts(parts@.skip(from as int)), sep@),
{
    let mut out = String::new();
    if from >= parts.len() {
        assert(parts@.skip(from as int).len() == 0);
        assert(texts(parts@.skip(from as int)).len() == 0);
        return out;
    }
    let mut i: usize = from;
    while i < parts.len()
        invariant
            from <= i <= parts.len(),
            from < parts.len(),
            out@ == join(texts(parts@.subrange(from as int, i as int)), sep@),
        decreases parts.len() - i,
    {
        proof {
            let before = texts(parts@.subrange(from as int, i as int));
            let after = texts(parts@.subrange(from as int, i + 1));
            assert(after.drop_last() =~= before);
            assert(after.last() == parts@[i as int]@);
        }
        if i > from {
            out.append(sep);
        }
        out.append(parts[i].as_str());
        i += 1;
        proof {
            let after = texts(parts@.subrange(from as int, i as int));
            if i - 1 == from {
                assert(after.len() == 1);
                assert(out@ =~= after[0]);
            }
        }
    }
    assert(parts@.subrange(from as int, parts.len() as int) =~= parts@.skip(from as int));
    out
}

/// Whether `c` is a decimal digit.
pub open spec fn is_digit(c: char) -> bool {
    '0' <= c && c <= '9'
}

/// The number that the digit `c` stands for.
pub open spec fn digit_value(c: char) -> int {
    c as int - '0' as int
}

/// Whether `s` holds decimal digits only.
pub open spec fn all_digits(s: Seq<char>) -> bool {
    forall|i: int| 0 <= i < s.len() ==> is_digit(#[trigger] s[i])
}

/// The number that the decimal digits `s` write.
pub open spec fn digits_value(s: Seq<char>) -> int
    decreases s.len(),
{
    if s.len() == 0 {
        0
    } else {
        digits_value(s.drop_last()) * 10 + digit_value(s.last())
    }
}

/// The number that `s` writes without a minus sign: one or more digits,
/// after an optional `+`.
pub open spec fn unsigned_number(s: Seq<char>) -> Option<int> {
    let digits = if s.len() > 0 && s[0] == '+' {
        s.skip(1)
    } else {
        s
    };
    if digits.len() > 0 && all_digits(digits) {
        Some(digits_value(digits))
    } else {
        None
    }
}

/// The number that `s` writes: one or more digits, after an optional `+` or
/// `-`.
pub open spec fn signed_number(s: Seq<char>) -> Option<int> {
    if s.len() > 0 && s[0] == '-' {
        if s.len() > 1 && all_digits(s.skip(1)) {
            Some(-digits_value(s.skip(1)))
        } else {
            None
        }
    } else {
        unsigned_number(s)
    }
}

/// `n` when it lies between `low` and `high`.
pub open spec fn within(n: Option<int>, low: int, high: int) -> Option<int> {
    match n {
        Some(v) => if low <= v <= high {
            Some(v)
        } else {
            None
        },
        None => None,
    }
}

/// A longer run of digits writes no smaller number than any beginning of it.
pub proof fn lemma_digits_grow(s: Seq<char>, k: int)
    requires
        all_digits(s),
        0 <= k <= s.len(),
    ensures
        0 <= digits_value(s.take(k)) <= digits_value(s),
    decreases s.len() - k,
{
    lemma_digits_nonnegative(s.take(k));
    if k < s.len() {
        lemma_digits_grow(s, k + 1);
        assert(s.take(k + 1).drop_last() =~= s.take(k));
        assert(is_digit(s[k]));
        assert(s.take(k + 1).last() == s[k]);
    } else {
        assert(s.take(k) =~= s);
    }
}

/// A run of digits writes no negative number.
pub proof fn lemma_digits_nonnegative(s: Seq<char>)
    requires
        all_digits(s),
    ensures
        0 <= digits_value(s),
    decreases s.len(),
{
    if s.len() > 0 {
        lemma_digits_nonnegative(s.drop_last());
        assert(is_digit(s.last()));
    }
}

/// Reads the digits of `v` from `from` on, as far as their number stays at or
/// under `limit`.
fn read_digits(v: &Vec<char>, from: usize, limit: u128) -> (r: Option<u128>)
    requires
        from <= v.len(),
        limit <= 0x1_0000_0000_0000_0000,
    ensures
        r == if v@.skip(from as int).len() > 0 && all_digits(v@.skip(from as int))
            && digits_value(v@.skip(from as int)) <= limit {
            Some(digits_value(v@.skip(from as int)) as u128)
        } else {
            None
        },
{
    let ghost digits = v@.skip(from as int);
    if from == v.len() {
        return None;
    }
    let mut acc: u128 = 0;
    let mut i: usize = from;
    assert(digits.take(0) =~= Seq::<char>::empty());
    while i < v.len()
        invariant
            from <= i <= v.len(),
            digits == v@.skip(from as int),
            limit <= 0x1_0000_0000_0000_0000,
            all_digits(digits.take(i - from)),
            acc == digits_value(digits.take(i - from)),
            acc <= limit,
        decreases v.len() - i,
    {
        let c = v[i];
        assert(digits[i - from] == c);
        if !('0' <= c && c <= '9') {
            assert(!is_digit(digits[i - from]));
            return None;
        }
        let d: u128 = (c as u32 - '0' as u32) as u128;
        proof {
            assert(digits.take(i - from + 1).drop_last() =~= digits.take(i - from));
            assert(digits.take(i - from + 1).last() == c);
            assert forall|j: int| 0 <= j < i - from + 1 implies is_digit(
                #[trigger] digits.take(i - from + 1)[j],
            ) by {
                if j < i - from {
                    assert(digits.take(i - from + 1)[j] == digits.take(i - from)[j]);
                }
            }
        }
        acc = acc * 10 + d;
        i += 1;
        if acc > limit {
            proof {
                if all_digits(digits) {
                    lemma_digits_grow(digits, i - from);
                }
            }
            return None;
        }
    }
    assert(digits.take(i - from) =~= digits);
    Some(acc)
}

/// Reads a machine integer in decimal notation, as `str::parse` does: an
/// optional sign, then digits; `None` on any other text and on a number that
/// does not fit.
pub fn parse_isize(text: &str) -> (r: Option<isize>)
    ensures
        r == match within(signed_number(text@), isize::MIN as int, isize::MAX as int) {
            Some(v) => Some(v as isize),
            None => None,
        },
{
    let v = chars_of(text);
    if v.len() > 0 && v[0] == '-' {
        let limit: u128 = (isize::MAX as u128) + 1;
        proof {
            assert(limit == isize::MAX as int + 1);
            assert(isize::MIN as int == -(isize::MAX as int) - 1);
            if v.len() > 1 && all_digits(v@.skip(1)) {
                lemma_digits_nonnegative(v@.skip(1));
            }
        }
        match read_digits(&v, 1, limit) {
            Some(m) => {
                if m == limit {
                    Some(isize::MIN)
                } else {
                    let n: isize = m as isize;
                    Some(-n)
                }
            },
            None => None,
        }
    } else {
        let from: usize = if v.len() > 0 && v[0] == '+' {
            1
        } else {
            0
        };
        assert(v@.skip(0) =~= v@);
        proof {
            if unsigned_number(text@) is Some {
                lemma_digits_nonnegative(v@.skip(from as int));
            }
        }
        match read_digits(&v, from, isize::MAX as u128) {
            Some(m) => Some(m as isize),
            None => None,
        }
    }
}

/// Reads an index in decimal notation: digits after an optional `+`; `None`
/// on any other text and on a number that does not fit.
pub fn parse_usize(text: &str) -> (r: Option<usize>)
    ensures
        r == match within(unsigned_number(text@), 0, usize::MAX as int) {
            Some(v) => Some(v as usize),
            None => None,
        },
{
    let v = chars_of(text);
    let from: usize = if v.len() > 0 && v[0] == '+' {
        1
    } else {
        0
    };
    assert(v@.skip(0) =~= v@);
    proof {
        if unsigned_number(text@) is Some {
            lemma_digits_nonnegative(v@.skip(from as int));
        }
    }
    match read_digits(&v, from, usize::MAX as u128) {
        Some(m) => Some(m as usize),
        None => None,
    }
}

/// Reads a byte in decimal notation: digits after an optional `+`; `None` on
/// any other text and on a number above 255.
pub fn parse_u8(text: &str) -> (r: Option<u8>)
    ensures
        r == match within(unsigned_number(text@), 0, 255) {
            Some(v) => Some(v as u8),
            None => None,
        },
{
    let v = chars_of(text);
    let from: usize = if v.len() > 0 && v[0] == '+' {
        1
    } else {
        0
    };
    assert(v@.skip(0) =~= v@);
    proof {
        if unsigned_number(text@) is Some {
            lemma_digits_nonnegative(v@.skip(from as int));
        }
    }
    match read_digits(&v, from, 255) {
        Some(m) => Some(m as u8),
        None => None,
    }
}

/// The character that writes the digit `d`.
pub open spec fn digit_char(d: int) -> char {
    ((48 + d) as u8) as char
}

/// The decimal notation of a natural number, without leading zeros.
pub open spec fn nat_text(n: nat) -> Seq<char>
    decreases n,
{
    if n < 10 {
        seq![digit_char(n as int)]
    } else {
        nat_text(n / 10).push(digit_char((n % 10) as int))
    }
}

/// The decimal notation of an integer: a minus sign before the digits of a
/// negative number.
pub open spec fn int_text(i: int) -> Seq<char> {
    if i < 0 {
        seq!['-'] + nat_text((-i) as nat)
    } else {
        nat_text(i as nat)
    }
}

/// Writes `i` in decimal notation.
pub fn isize_to_string(i: isize) -> (r: String)
    ensures
        r@ == int_text(i as int),
{
    let negative = i < 0;
    let n: u128 = if negative {
        (-(i as i128)) as u128
    } else {
        i as u128
    };
    let mut digits: Vec<char> = Vec::new();
    digits.push((48u8 + (n % 10) as u8) as char);
    let mut rest: u128 = n / 10;
    assert(digits@.reverse() =~= seq![digit_char((n % 10) as int)]);
    while rest > 0
        invariant
            digits.len() > 0,
            nat_text(n as nat) == if rest > 0 {
                nat_text(rest as nat) + digits@.reverse()
            } else {
                digits@.reverse()
            },
        decreases rest,
    {
        let c = (48u8 + (rest % 10) as u8) as char;
        proof {
            assert(digits@.push(c).reverse() =~= seq![c] + digits@.reverse());
            if rest >= 10 {
                assert(nat_text(rest as nat) + digits@.reverse() =~= nat_text((rest / 10) as nat)
                    + digits@.push(c).reverse());
            } else {
                assert(nat_text(rest as nat) + digits@.reverse() =~= digits@.push(c).reverse());
            }
        }
        digits.push(c);
        rest = rest / 10;
    }
    let mut out: Vec<char> = Vec::new();
    if negative {
        out.push('-');
    }
    let ghost sign = out@;
    let mut k: usize = digits.len();
    while k > 0
        invariant
            0 <= k <= digits.len(),
            out@ == sign + digits@.reverse().take(digits.len() - k),
        decreases k,
    {
        k -= 1;
        out.push(digits[k]);
        assert(out@ =~= sign + digits@.reverse().take(digits.len() - k));
    }
    assert(digits@.reverse().take(digits.len() as int) =~= digits@.reverse());
    assert(sign =~= if negative { seq!['-'] } else { Seq::<char>::empty() });
    assert(out@ =~= int_text(i as int));
    string_of(&out)
}

} // verus!
