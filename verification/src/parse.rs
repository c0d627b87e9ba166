//! Reading text: suffixes, pieces, and decimal numbers.

use vstd::prelude::*;
use crate::text;

verus! {

/// A text ends with another.
pub open spec fn has_suffix(s: Seq<char>, suffix: Seq<char>) -> bool {
    suffix.len() <= s.len() && s.skip(s.len() - suffix.len()) == suffix
}

/// A text without its last characters.
pub open spec fn cut_end(s: Seq<char>, n: nat) -> Seq<char> {
    s.take(s.len() - n)
}

/// A text ends with another.
pub fn ends_with(s: &str, suffix: &str) -> (r: bool)
    ensures
        r == has_suffix(s@, suffix@),
{
    let n: usize = s.unicode_len();
    let m: usize = suffix.unicode_len();
    if m > n {
        return false;
    }
    let tail = s.substring_char(n - m, n);
    assert(tail@ =~= s@.skip(n - m));
    text::str_eq(tail, suffix)
}

/// A text without its last characters.
pub fn without_end<'a>(s: &'a str, n: usize) -> (r: &'a str)
    requires
        n <= s@.len(),
    ensures
        r@ == cut_end(s@, n as nat),
{
    let len: usize = s.unicode_len();
    let r = s.substring_char(0, len - n);
    assert(r@ =~= cut_end(s@, n as nat));
    r
}

/// A text begins with another.
pub open spec fn has_prefix(s: Seq<char>, prefix: Seq<char>) -> bool {
    prefix.len() <= s.len() && s.take(prefix.len() as int) == prefix
}

/// A text begins with another.
pub fn begins_with(s: &str, prefix: &str) -> (r: bool)
    ensures
        r == has_prefix(s@, prefix@),
{
    let n: usize = s.unicode_len();
    let m: usize = prefix.unicode_len();
    if m > n {
        return false;
    }
    let head = s.substring_char(0, m);
    assert(head@ =~= s@.take(m as int));
    text::str_eq(head, prefix)
}

/// The value of a decimal digit.
pub open spec fn digit_value(c: char) -> Option<int> {
    if '0' <= c && c <= '9' {
        Some(c as int - '0' as int)
    } else {
        None
    }
}

/// Every character is a decimal digit.
pub open spec fn all_digits(s: Seq<char>) -> bool {
    forall|i: int| 0 <= i < s.len() ==> digit_value(#[trigger] s[i]) is Some
}

/// The number that decimal digits stand for.
pub open spec fn digits_value(s: Seq<char>) -> int
    decreases s.len(),
{
    if s.len() == 0 {
        0
    } else {
        digits_value(s.drop_last()) * 10 + digit_value(s.last())->0
    }
}

/// The text after an optional plus sign.
pub open spec fn unsigned(s: Seq<char>) -> Seq<char> {
    if s.len() > 0 && s[0] == '+' {
        s.skip(1)
    } else {
        s
    }
}

/// The 64-bit number that a text stands for: decimal digits, at least one,
/// after an optional plus sign.
pub open spec fn number(s: Seq<char>) -> Option<u64> {
    let d = unsigned(s);
    if d.len() > 0 && all_digits(d) && digits_value(d) <= u64::MAX {
        Some(digits_value(d) as u64)
    } else {
        None
    }
}

/// Digits stand for no negative number, and more digits for no smaller one.
proof fn lemma_value_grows(s: Seq<char>, i: int)
    requires
        0 <= i <= s.len(),
        all_digits(s),
    ensures
        0 <= digits_value(s.take(i)) <= digits_value(s),
    decreases s.len(),
{
    assert(s.take(s.len() as int) =~= s);
    if s.len() > 0 {
        let t = s.drop_last();
        assert(digit_value(s[s.len() - 1]) is Some);
        assert forall|j: int| 0 <= j < t.len() implies digit_value(#[trigger] t[j]) is Some by {
            assert(t[j] == s[j]);
        }
        if i < s.len() {
            lemma_value_grows(t, i);
            assert(t.take(i) =~= s.take(i));
        } else {
            lemma_value_grows(t, t.len() as int);
            assert(t.take(t.len() as int) =~= t);
        }
    }
}

/// The value of a decimal digit.
fn digit_of(c: char) -> (r: Option<u64>)
    ensures
        r is Some <==> digit_value(c) is Some,
        r is Some ==> r->0 == digit_value(c)->0 && r->0 <= 9,
{
    if '0' <= c && c <= '9' {
        Some(c as u64 - '0' as u64)
    } else {
        None
    }
}

/// The 64-bit number that a text stands for.
pub fn parse_u64(s: &str) -> (r: Option<u64>)
    ensures
        r == number(s@),
{
    let n: usize = s.unicode_len();
    let mut i: usize = 0;
    if n > 0 && s.get_char(0) == '+' {
        i = 1;
    }
    let ghost d = unsigned(s@);
    let start: usize = i;
    assert(d =~= s@.skip(start as int));
    if i == n {
        return None;
    }
    let mut v: u64 = 0;
    assert(d.take(0) =~= seq![]);
    while i < n
        invariant
            start <= i <= n == s@.len(),
            d == s@.skip(start as int),
            d == unsigned(s@),
            d.len() > 0,
            forall|j: int| 0 <= j < i - start ==> digit_value(#[trigger] d[j]) is Some,
            v == digits_value(d.take(i - start)),
        decreases n - i,
    {
        let c: char = s.get_char(i);
        let ghost k = i - start;
        assert(c == d[k]);
        assert(d.take(k + 1).drop_last() =~= d.take(k));
        match digit_of(c) {
            None => {
                assert(digit_value(d[k]) is None);
                return None;
            },
            Some(x) => {
                if v > 1844674407370955161 || v * 10 > u64::MAX - x {
                    proof {
                        if all_digits(d) {
                            lemma_value_grows(d, k + 1);
                        }
                    }
                    return None;
                }
                v = v * 10 + x;
            },
        }
        i += 1;
    }
    assert(d.take(i - start) =~= d);
    Some(v)
}

/// Ten to the power of `n`.
pub open spec fn pow10(n: nat) -> nat
    decreases n,
{
    if n == 0 {
        1
    } else {
        10 * pow10((n - 1) as nat)
    }
}

/// The digits of a number in a fixed width read back as the number, if it
/// fits.
pub proof fn lemma_fixed_reads_back(n: nat, w: nat)
    requires
        n < pow10(w),
    ensures
        text::dec_fixed(n, w).len() == w,
        all_digits(text::dec_fixed(n, w)),
        digits_value(text::dec_fixed(n, w)) == n,
    decreases w,
{
    if w > 0 {
        let m = (w - 1) as nat;
        lemma_fixed_reads_back(n / 10, m);
        let s = text::dec_fixed(n, w);
        let t = text::dec_fixed(n / 10, m);
        assert(s.drop_last() =~= t);
        let c = text::digit_char((n % 10) as int);
        assert(digit_value(c) == Some((n % 10) as int));
        assert forall|j: int| 0 <= j < s.len() implies digit_value(#[trigger] s[j]) is Some by {
            if j < t.len() {
                assert(s[j] == t[j]);
            }
        }
    }
}

/// A 64-bit number at twenty digits reads back.
pub proof fn lemma_twenty_digits_read_back(n: u64)
    ensures
        number(text::dec_fixed(n as nat, 20)) == Some(n),
        text::dec_fixed(n as nat, 20).len() == 20,
{
    assert(pow10(20) == 100_000_000_000_000_000_000) by {
        reveal_with_fuel(pow10, 21);
    }
    lemma_fixed_reads_back(n as nat, 20);
    let s = text::dec_fixed(n as nat, 20);
    assert(digit_value(s[0]) is Some);
    assert(unsigned(s) == s);
}

/// A character is white space.
pub open spec fn is_white(c: char) -> bool {
    let n = c as u32;
    (9 <= n <= 13) || n == 0x20 || n == 0x85 || n == 0xA0 || n == 0x1680 || (0x2000 <= n <= 0x200A)
        || n == 0x2028 || n == 0x2029 || n == 0x202F || n == 0x205F || n == 0x3000
}

/// A text without the white space in front of it.
pub open spec fn trim_front(s: Seq<char>) -> Seq<char>
    decreases s.len(),
{
    if s.len() > 0 && is_white(s[0]) {
        trim_front(s.skip(1))
    } else {
        s
    }
}

/// A text without the white space behind it.
pub open spec fn trim_back(s: Seq<char>) -> Seq<char>
    decreases s.len(),
{
    if s.len() > 0 && is_white(s.last()) {
        trim_back(s.drop_last())
    } else {
        s
    }
}

/// A text without the white space around it.
pub open spec fn trimmed(s: Seq<char>) -> Seq<char> {
    trim_back(trim_front(s))
}

/// A character is white space.
fn white(c: char) -> (r: bool)
    ensures
        r == is_white(c),
{
    let n: u32 = c as u32;
    (9 <= n && n <= 13) || n == 0x20 || n == 0x85 || n == 0xA0 || n == 0x1680 || (0x2000 <= n && n
        <= 0x200A) || n == 0x2028 || n == 0x2029 || n == 0x202F || n == 0x205F || n == 0x3000
}

/// A text without the white space around it.
pub fn trim<'a>(s: &'a str) -> (r: &'a str)
    ensures
        r@ == trimmed(s@),
{
    let n: usize = s.unicode_len();
    let mut a: usize = 0;
    assert(s@.skip(0) =~= s@);
    while a < n && white(s.get_char(a))
        invariant
            a <= n == s@.len(),
            trim_front(s@) == trim_front(s@.skip(a as int)),
        decreases n - a,
    {
        assert(s@.skip(a as int)[0] == s@[a as int]);
        assert(s@.skip(a as int).skip(1) =~= s@.skip(a + 1));
        a += 1;
    }
    if a < n {
        assert(s@.skip(a as int)[0] == s@[a as int]);
    }
    assert(trim_front(s@) == s@.skip(a as int));
    let ghost f = s@.skip(a as int);
    let mut b: usize = n;
    assert(f.take(b - a) =~= f);
    while b > a && white(s.get_char(b - 1))
        invariant
            a <= b <= n == s@.len(),
            f == s@.skip(a as int),
            trim_back(f) == trim_back(f.take(b - a)),
        decreases b,
    {
        let ghost t = f.take(b - a);
        assert(t.last() == s@[b - 1]);
        assert(t.drop_last() =~= f.take(b - 1 - a));
        b -= 1;
    }
    if b > a {
        assert(f.take(b - a).last() == s@[b - 1]);
    }
    let r = s.substring_char(a, b);
    assert(r@ =~= f.take(b - a));
    r
}

/// A text ends, or begins, with another exactly when it is something
/// followed, or preceded, by it; what is left without it is that
/// something.
pub proof fn law_ends_are_what_was_joined(a: Seq<char>, b: Seq<char>, s: Seq<char>)
    ensures
        has_suffix(a + b, b),
        has_prefix(a + b, a),
        cut_end(a + b, b.len()) == a,
        has_suffix(s, b) ==> s == cut_end(s, b.len()) + b,
        has_prefix(s, a) ==> s == a + s.skip(a.len() as int),
{
    assert((a + b).skip((a + b).len() - b.len()) =~= b);
    assert((a + b).take(a.len() as int) =~= a);
    assert(cut_end(a + b, b.len()) =~= a);
    if has_suffix(s, b) {
        assert(s =~= s.take(s.len() - b.len()) + s.skip(s.len() - b.len()));
    }
    if has_prefix(s, a) {
        assert(s =~= s.take(a.len() as int) + s.skip(a.len() as int));
    }
}

/// The decimal digits of a number read back as the number.
pub proof fn lemma_decimal_reads_back(n: nat)
    ensures
        text::dec(n).len() > 0,
        all_digits(text::dec(n)),
        digits_value(text::dec(n)) == n,
    decreases n,
{
    let s = text::dec(n);
    let d = text::digit_char((n % 10) as int);
    assert(digit_value(d) == Some((n % 10) as int));
    if n < 10 {
        assert(s =~= seq![d]);
        assert(s.drop_last() =~= seq![]);
        assert(digits_value(s.drop_last()) == 0);
    } else {
        lemma_decimal_reads_back(n / 10);
        assert(s.drop_last() =~= text::dec(n / 10));
        assert forall|i: int| 0 <= i < s.len() implies digit_value(#[trigger] s[i]) is Some by {
            if i < s.len() - 1 {
                assert(s[i] == text::dec(n / 10)[i]);
            }
        }
    }
}

/// A number written in decimal reads back, with or without a plus sign in
/// front; one that does not fit 64 bits is refused.
pub proof fn law_number_reads_back(n: nat)
    ensures
        n <= u64::MAX ==> number(text::dec(n)) == Some(n as u64),
        n <= u64::MAX ==> number(seq!['+'] + text::dec(n)) == Some(n as u64),
        n > u64::MAX ==> number(text::dec(n)) is None,
{
    lemma_decimal_reads_back(n);
    let s = text::dec(n);
    assert(digit_value(s[0]) is Some);
    assert(unsigned(s) == s);
    let p = seq!['+'] + s;
    assert(unsigned(p) =~= s);
}

/// A text that holds anything but decimal digits, after a plus sign at
/// most, is no number; nor is an empty one, or a plus sign alone.
pub proof fn law_only_digits_are_a_number(s: Seq<char>, i: int)
    ensures
        number(seq![]) is None,
        number(seq!['+']) is None,
        0 < i < s.len() && !('0' <= s[i] && s[i] <= '9') ==> number(s) is None,
        s.len() > 0 && s[0] != '+' && !('0' <= s[0] && s[0] <= '9') ==> number(s) is None,
        number(s) matches Some(n) ==> n as int == digits_value(unsigned(s)),
{
    assert(unsigned(seq!['+']).len() == 0);
    if 0 < i < s.len() && !('0' <= s[i] && s[i] <= '9') {
        if s[0] == '+' {
            assert(s.skip(1)[i - 1] == s[i]);
            assert(digit_value(s.skip(1)[i - 1]) is None);
        } else {
            assert(digit_value(s[i]) is None);
        }
    }
    if s.len() > 0 && s[0] != '+' && !('0' <= s[0] && s[0] <= '9') {
        assert(digit_value(s[0]) is None);
    }
    if number(s) is Some {
        lemma_value_grows(unsigned(s), 0);
    }
}

/// Digits are worth their place: one more digit multiplies by ten and adds
/// its own value.
pub proof fn law_digits_are_worth_their_place(s: Seq<char>, c: char)
    requires
        '0' <= c && c <= '9',
    ensures
        digits_value(seq![]) == 0,
        digits_value(s.push(c)) == 10 * digits_value(s) + (c as int - '0' as int),
        pow10(0) == 1,
        pow10(s.len() + 1) == 10 * pow10(s.len()),
{
    assert(s.push(c).drop_last() =~= s);
}

/// Among the characters of seven bits the blank, the tabulators and the
/// line ends are white, and no other; above them the separators are.
pub proof fn law_blanks_and_line_ends_are_white(c: char)
    ensures
        (c as u32) < 128 ==> (is_white(c) <==> (c == ' ' || c == '\t' || c == '\n' || c == '\r'
            || c as u32 == 11 || c as u32 == 12)),
        (c as u32) >= 128 ==> (is_white(c) <==> (c as u32 == 0x85 || c as u32 == 0xA0 || c as u32
            == 0x1680 || (0x2000 <= c as u32 && c as u32 <= 0x200A) || c as u32 == 0x2028
            || c as u32 == 0x2029 || c as u32 == 0x202F || c as u32 == 0x205F || c as u32
            == 0x3000)),
{
}

/// What trimming in front takes away is white, and what it leaves does not
/// start white.
pub proof fn law_trimmed_front_is_white(s: Seq<char>) -> (k: int)
    ensures
        0 <= k <= s.len(),
        trim_front(s) == s.skip(k),
        forall|i: int| 0 <= i < k ==> is_white(#[trigger] s[i]),
        k < s.len() ==> !is_white(s[k]),
    decreases s.len(),
{
    if s.len() > 0 && is_white(s[0]) {
        let j = law_trimmed_front_is_white(s.skip(1));
        assert(s.skip(1).skip(j) =~= s.skip(j + 1));
        assert forall|i: int| 0 <= i < j + 1 implies is_white(#[trigger] s[i]) by {
            if i > 0 {
                assert(s.skip(1)[i - 1] == s[i]);
            }
        }
        if j + 1 < s.len() {
            assert(s.skip(1)[j] == s[j + 1]);
        }
        j + 1
    } else {
        assert(s.skip(0) =~= s);
        0
    }
}

/// What trimming behind takes away is white, and what it leaves does not
/// end white.
pub proof fn law_trimmed_back_is_white(s: Seq<char>) -> (k: int)
    ensures
        0 <= k <= s.len(),
        trim_back(s) == s.take(k),
        forall|i: int| k <= i < s.len() ==> is_white(#[trigger] s[i]),
        k > 0 ==> !is_white(s[k - 1]),
    decreases s.len(),
{
    if s.len() > 0 && is_white(s.last()) {
        let t = s.drop_last();
        let k = law_trimmed_back_is_white(t);
        assert(t.take(k) =~= s.take(k));
        assert forall|i: int| k <= i < s.len() implies is_white(#[trigger] s[i]) by {
            if i < t.len() {
                assert(t[i] == s[i]);
            }
        }
        k
    } else {
        assert(s.take(s.len() as int) =~= s);
        s.len() as int
    }
}

/// A trimmed text neither starts nor ends white, and is the text itself
/// without white space at its ends.
pub proof fn law_trimmed_text_is_the_middle(s: Seq<char>)
    ensures
        trimmed(s).len() > 0 ==> !is_white(trimmed(s)[0]) && !is_white(trimmed(s).last()),
        exists|a: int, b: int|
            0 <= a <= b <= s.len() && trimmed(s) == #[trigger] s.subrange(a, b) && (forall|i: int|
                0 <= i < a ==> is_white(#[trigger] s[i])) && (forall|i: int|
                b <= i < s.len() ==> is_white(#[trigger] s[i])),
        trimmed(s).len() == 0 <==> forall|i: int| 0 <= i < s.len() ==> is_white(#[trigger] s[i]),
{
    let a = law_trimmed_front_is_white(s);
    let t = s.skip(a);
    let k = law_trimmed_back_is_white(t);
    assert(trimmed(s) == t.take(k));
    assert(t.take(k) =~= s.subrange(a, a + k));
    assert forall|i: int| a + k <= i < s.len() implies is_white(#[trigger] s[i]) by {
        assert(t[i - a] == s[i]);
    }
    if k > 0 {
        assert(t[0] == s[a]);
        assert(trimmed(s)[0] == s[a]);
        assert(trimmed(s).last() == t[k - 1]);
        assert(!is_white(s[a]));
    } else {
        assert forall|i: int| 0 <= i < s.len() implies is_white(#[trigger] s[i]) by {
            if i >= a {
                assert(t[i - a] == s[i]);
            }
        }
    }
}

} // verus!
