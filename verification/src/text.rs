//! Message text: numbers in decimal and strings put together from parts.
use vstd::prelude::*;
use vstd::string::*;

verus! {

/// The contents of an optional text.
pub open spec fn text_view(s: Option<&str>) -> Option<Seq<char>> {
    match s {
        Some(s) => Some(s@),
        None => None,
    }
}

/// The contents of an optional text that is owned.
pub open spec fn string_view(s: Option<String>) -> Option<Seq<char>> {
    match s {
        Some(s) => Some(s@),
        None => None,
    }
}

/// The decimal digit `d` as a character.
pub open spec fn digit(d: nat) -> char {
    (48 + d) as char
}

/// The decimal numeral of `v`, without leading zeros.
pub open spec fn dec(v: nat) -> Seq<char>
    decreases v,
{
    if v < 10 {
        seq![digit(v)]
    } else {
        dec(v / 10).push(digit(v % 10))
    }
}

fn digit_text(d: u64) -> (r: &'static str)
    requires
        d < 10,
    ensures
        r@ == seq![digit(d as nat)],
{
    proof {
        reveal_strlit("0");
        reveal_strlit("1");
        reveal_strlit("2");
        reveal_strlit("3");
        reveal_strlit("4");
        reveal_strlit("5");
        reveal_strlit("6");
        reveal_strlit("7");
        reveal_strlit("8");
        reveal_strlit("9");
    }
    if d == 0 {
        "0"
    } else if d == 1 {
        "1"
    } else if d == 2 {
        "2"
    } else if d == 3 {
        "3"
    } else if d == 4 {
        "4"
    } else if d == 5 {
        "5"
    } else if d == 6 {
        "6"
    } else if d == 7 {
        "7"
    } else if d == 8 {
        "8"
    } else {
        "9"
    }
}

/// The decimal numeral of `v`.
pub fn decimal(v: u64) -> (r: String)
    ensures
        r@ == dec(v as nat),
    decreases v,
{
    if v < 10 {
        digit_text(v).to_owned()
    } else {
        let mut s: String = decimal(v / 10);
        s.append(digit_text(v % 10));
        assert(s@ =~= dec(v as nat));
        s
    }
}

/// Appends the decimal numeral of `v`.
pub fn append_decimal(s: &mut String, v: u64)
    ensures
        final(s)@ == old(s)@ + dec(v as nat),
{
    let t: String = decimal(v);
    s.append(t.as_str());
}

/// Different numbers have different numerals.
pub proof fn lemma_dec_injective(a: nat, b: nat)
    ensures
        dec(a) == dec(b) ==> a == b,
    decreases a,
{
    if dec(a) == dec(b) {
        lemma_dec_nonempty(a / 10);
        lemma_dec_nonempty(b / 10);
        assert(dec(a).last() == digit(a % 10));
        assert(dec(b).last() == digit(b % 10));
        if a >= 10 && b >= 10 {
            assert(dec(a).drop_last() =~= dec(a / 10));
            assert(dec(b).drop_last() =~= dec(b / 10));
            lemma_dec_injective(a / 10, b / 10);
        }
    }
}

proof fn lemma_dec_nonempty(a: nat)
    ensures
        dec(a).len() >= 1,
    decreases a,
{
    if a >= 10 {
        lemma_dec_nonempty(a / 10);
    }
}

/// The decimal numeral of a signed number.
pub open spec fn signed_dec(v: int) -> Seq<char> {
    if v < 0 {
        "-"@ + dec((-v) as nat)
    } else {
        dec(v as nat)
    }
}

fn append_signed(s: &mut String, v: i64)
    ensures
        final(s)@ == old(s)@ + signed_dec(v as int),
{
    if v < 0 {
        s.append("-");
        let magnitude: u64 = if v == i64::MIN {
            0x8000_0000_0000_0000u64
        } else {
            (-v) as u64
        };
        append_decimal(s, magnitude);
        assert(s@ =~= old(s)@ + signed_dec(v as int));
    } else {
        append_decimal(s, v as u64);
    }
}

/// The numerals of the first `n` numbers, separated by commas.
pub open spec fn listed(v: Seq<int>, n: nat) -> Seq<char>
    decreases n,
{
    if n == 0 {
        Seq::empty()
    } else if n == 1 {
        signed_dec(v[0])
    } else {
        listed(v, (n - 1) as nat) + ", "@ + signed_dec(v[n - 1])
    }
}

/// A list of numbers in square brackets.
pub open spec fn bracketed(v: Seq<int>) -> Seq<char> {
    "["@ + listed(v, v.len()) + "]"@
}

/// Appends a list of signed numbers in square brackets.
pub fn append_dims(s: &mut String, v: &[i64])
    ensures
        final(s)@ == old(s)@ + bracketed(v@.map_values(|x: i64| x as int)),
{
    let ghost start = s@;
    let ghost nums = v@.map_values(|x: i64| x as int);
    s.append("[");
    let mut i: usize = 0;
    while i < v.len()
        invariant
            i <= v@.len(),
            nums == v@.map_values(|x: i64| x as int),
            s@ =~= start + "["@ + listed(nums, i as nat),
        decreases v.len() - i,
    {
        if i > 0 {
            s.append(", ");
        }
        append_signed(s, v[i]);
        i = i + 1;
    }
    s.append("]");
    assert(s@ =~= start + bracketed(nums));
}

/// Appends a list of sizes in square brackets.
pub fn append_sizes(s: &mut String, v: &[usize])
    ensures
        final(s)@ == old(s)@ + bracketed(v@.map_values(|x: usize| x as int)),
{
    let ghost start = s@;
    let ghost nums = v@.map_values(|x: usize| x as int);
    s.append("[");
    let mut i: usize = 0;
    while i < v.len()
        invariant
            i <= v@.len(),
            nums == v@.map_values(|x: usize| x as int),
            s@ =~= start + "["@ + listed(nums, i as nat),
        decreases v.len() - i,
    {
        if i > 0 {
            s.append(", ");
        }
        append_decimal(s, v[i] as u64);
        i = i + 1;
    }
    s.append("]");
    assert(s@ =~= start + bracketed(nums));
}

/// How a string is written between quotes, with its special characters escaped.
pub uninterp spec fn quoted(s: Seq<char>) -> Seq<char>;

/// The debug form of a string, by `std`'s formatting of `str` with `{:?}`. The
/// result depends on the string alone; how single characters are escaped is
/// left to `std`.
#[verifier::external_body]
pub(crate) fn quote(s: &str) -> (r: String)
    ensures
        r@ == quoted(s@),
{
    format!("{s:?}")
}

// ---------------------------------------------------------------------
// Reading text
// ---------------------------------------------------------------------
/// Whether two texts are the same.
pub fn same_text(a: &str, b: &str) -> (r: bool)
    ensures
        r == (a@ == b@),
{
    let x: String = a.to_owned();
    let y: String = b.to_owned();
    x == y
}

/// Whether `s` ends with `tail`.
pub open spec fn has_suffix(s: Seq<char>, tail: Seq<char>) -> bool {
    s.len() >= tail.len() && s.skip(s.len() - tail.len()) == tail
}

/// Whether `s` ends with `tail`.
pub fn ends_with(s: &str, tail: &str) -> (r: bool)
    ensures
        r == has_suffix(s@, tail@),
{
    let n: usize = s.unicode_len();
    let k: usize = tail.unicode_len();
    if n < k {
        return false;
    }
    let mut i: usize = 0;
    while i < k
        invariant
            n == s@.len(),
            k == tail@.len(),
            i <= k <= n,
            forall|j: int| 0 <= j < i ==> s@[n - k + j] == #[trigger] tail@[j],
        decreases k - i,
    {
        if s.get_char(n - k + i) != tail.get_char(i) {
            assert(s@.skip(n - k)[i as int] == s@[n - k + i]);
            return false;
        }
        i = i + 1;
    }
    assert(s@.skip(n - k) =~= tail@);
    true
}

/// A decimal digit.
pub open spec fn is_digit(c: char) -> bool {
    '0' <= c <= '9'
}

/// The number that a row of digits stands for.
pub open spec fn numeral(s: Seq<char>) -> nat
    decreases s.len(),
{
    if s.len() == 0 {
        0
    } else {
        numeral(s.drop_last()) * 10 + (s.last() as nat - 48) as nat
    }
}

/// Only digits, and at least one.
pub open spec fn is_numeral(s: Seq<char>) -> bool {
    s.len() > 0 && forall|i: int| 0 <= i < s.len() ==> is_digit(#[trigger] s[i])
}

/// The text without a leading plus sign.
pub open spec fn unsigned(s: Seq<char>) -> Seq<char> {
    if s.len() > 0 && s[0] == '+' {
        s.skip(1)
    } else {
        s
    }
}

/// The unsigned number that `s` stands for, if it stands for one of at most
/// `max`: digits, perhaps behind a plus sign.
pub open spec fn parsed(s: Seq<char>, max: nat) -> Option<nat> {
    let d = unsigned(s);
    if is_numeral(d) && numeral(d) <= max {
        Some(numeral(d))
    } else {
        None
    }
}

proof fn lemma_numeral_grows(s: Seq<char>, k: int)
    requires
        0 <= k <= s.len(),
    ensures
        numeral(s.take(k)) <= numeral(s),
    decreases s.len(),
{
    if k == s.len() {
        assert(s.take(k) =~= s);
    } else {
        lemma_numeral_grows(s.drop_last(), k);
        assert(s.drop_last().take(k) =~= s.take(k));
    }
}

/// Reads an unsigned number of at most `max`.
pub fn parse_unsigned(s: &str, max: u64) -> (r: Option<u64>)
    ensures
        match r {
            Some(v) => parsed(s@, max as nat) == Some(v as nat),
            None => parsed(s@, max as nat) is None,
        },
{
    let n: usize = s.unicode_len();
    let start: usize = if n > 0 && s.get_char(0) == '+' {
        1
    } else {
        0
    };
    let ghost d = unsigned(s@);
    assert(d =~= s@.skip(start as int));
    if n == start {
        return None;
    }
    let mut value: u64 = 0;
    let mut i: usize = start;
    assert(d.take(0) =~= Seq::<char>::empty());
    while i < n
        invariant
            n == s@.len(),
            start <= i <= n,
            start < n,
            d == unsigned(s@),
            d == s@.skip(start as int),
            forall|j: int| 0 <= j < i - start ==> is_digit(#[trigger] d[j]),
            value == numeral(d.take(i - start)),
            value <= max,
        decreases n - i,
    {
        let c: char = s.get_char(i);
        assert(c == d[i - start]);
        if c < '0' || c > '9' {
            return None;
        }
        let digit_value: u128 = (c as u32 - 48) as u128;
        proof {
            let t = d.take(i - start + 1);
            assert(t.drop_last() =~= d.take(i - start));
            assert(t.last() == c);
            lemma_numeral_grows(d, i - start + 1);
        }
        let next: u128 = value as u128 * 10 + digit_value;
        if next > max as u128 {
            return None;
        }
        value = next as u64;
        i = i + 1;
    }
    assert(d.take(n - start) =~= d);
    Some(value)
}

/// White space.
pub open spec fn is_white(c: char) -> bool {
    ||| '\u{9}' <= c <= '\u{d}'
    ||| c == ' '
    ||| c == '\u{85}'
    ||| c == '\u{a0}'
    ||| c == '\u{1680}'
    ||| '\u{2000}' <= c <= '\u{200a}'
    ||| c == '\u{2028}'
    ||| c == '\u{2029}'
    ||| c == '\u{202f}'
    ||| c == '\u{205f}'
    ||| c == '\u{3000}'
}

fn white(c: char) -> (r: bool)
    ensures
        r == is_white(c),
{
    ('\u{9}' <= c && c <= '\u{d}') || c == ' ' || c == '\u{85}' || c == '\u{a0}' || c
        == '\u{1680}' || ('\u{2000}' <= c && c <= '\u{200a}') || c == '\u{2028}' || c == '\u{2029}'
        || c == '\u{202f}' || c == '\u{205f}' || c == '\u{3000}'
}

/// `r` is `s` without the white space around it.
pub open spec fn is_trimmed(s: Seq<char>, r: Seq<char>) -> bool {
    exists|a: int, b: int|
        {
            &&& 0 <= a <= b <= s.len()
            &&& r == #[trigger] s.subrange(a, b)
            &&& forall|i: int| 0 <= i < a || b <= i < s.len() ==> is_white(#[trigger] s[i])
            &&& a < b ==> !is_white(s[a]) && !is_white(s[b - 1])
        }
}

/// The text without the white space around it.
pub fn trim(s: &str) -> (r: &str)
    ensures
        is_trimmed(s@, r@),
{
    let n: usize = s.unicode_len();
    let mut a: usize = 0;
    while a < n && white(s.get_char(a))
        invariant
            n == s@.len(),
            a <= n,
            forall|i: int| 0 <= i < a ==> is_white(#[trigger] s@[i]),
        decreases n - a,
    {
        a = a + 1;
    }
    let mut b: usize = n;
    while b > a && white(s.get_char(b - 1))
        invariant
            n == s@.len(),
            a <= b <= n,
            forall|i: int| b <= i < n ==> is_white(#[trigger] s@[i]),
        decreases b,
    {
        b = b - 1;
    }
    let ghost t = s@.subrange(a as int, b as int);
    s.substring_char(a, b)
}

/// A letter of the alphabet in lower case, any other character as it is.
pub open spec fn lower_char(c: char) -> char {
    if 'A' <= c <= 'Z' {
        (c as u32 + 32) as char
    } else {
        c
    }
}

/// The text with the letters of the alphabet in lower case.
pub open spec fn lowered(s: Seq<char>) -> Seq<char> {
    s.map_values(|c: char| lower_char(c))
}

/// Lower case by `str::to_ascii_lowercase` of the standard library: the letters
/// `A` to `Z` become `a` to `z`, every other character stays.
#[verifier::external_body]
pub(crate) fn to_lower(s: &str) -> (r: String)
    ensures
        r@ == lowered(s@),
{
    s.to_ascii_lowercase()
}

} // verus!
