//! Character-level helpers on strings, stated over `Seq<char>`.

use vstd::prelude::*;

verus! {

broadcast use vstd::string::group_string_axioms;

/// The characters of `s`, in order.
pub fn to_chars(s: &str) -> (chars: Vec<char>)
    ensures
        chars@ == s@,
{
    let mut chars: Vec<char> = Vec::new();
    for c in it: s.chars()
        invariant
            it.seq() == s@,
            chars@ == it.seq().take(it.index() as int),
    {
        chars.push(c);
    }
    chars
}

/// Whether two strings hold the same characters.
pub fn same_text(a: &str, b: &str) -> (same: bool)
    ensures
        same == (a@ == b@),
{
    let left = to_chars(a);
    let right = to_chars(b);
    if left.len() != right.len() {
        return false;
    }
    let mut i: usize = 0;
    while i < left.len()
        invariant
            i <= left.len(),
            left.len() == right.len(),
            left@ == a@,
            right@ == b@,
            forall|k: int| 0 <= k < i ==> left@[k] == right@[k],
        decreases left.len() - i,
    {
        if left[i] != right[i] {
            return false;
        }
        i += 1;
    }
    assert(left@ =~= right@);
    true
}

/// The code points with the Unicode property White_Space.
pub open spec fn is_white_space(c: char) -> bool {
    let u = c as u32;
    ||| 0x09 <= u <= 0x0D
    ||| u == 0x20
    ||| u == 0x85
    ||| u == 0xA0
    ||| u == 0x1680
    ||| 0x2000 <= u <= 0x200A
    ||| u == 0x2028
    ||| u == 0x2029
    ||| u == 0x202F
    ||| u == 0x205F
    ||| u == 0x3000
}

/// Whether `c` is a white-space character.
pub fn is_whitespace(c: char) -> (white: bool)
    ensures
        white == is_white_space(c),
{
    let u: u32 = c as u32;
    (0x09 <= u && u <= 0x0D) || u == 0x20 || u == 0x85 || u == 0xA0 || u == 0x1680 || (0x2000 <= u
        && u <= 0x200A) || u == 0x2028 || u == 0x2029 || u == 0x202F || u == 0x205F || u == 0x3000
}

/// `s` without its leading white space.
pub open spec fn trim_start(s: Seq<char>) -> Seq<char>
    decreases s.len(),
{
    if s.len() > 0 && is_white_space(s[0]) {
        trim_start(s.drop_first())
    } else {
        s
    }
}

/// `s` without its trailing white space.
pub open spec fn trim_end(s: Seq<char>) -> Seq<char>
    decreases s.len(),
{
    if s.len() > 0 && is_white_space(s.last()) {
        trim_end(s.drop_last())
    } else {
        s
    }
}

/// `s` without leading and trailing white space.
pub open spec fn trimmed(s: Seq<char>) -> Seq<char> {
    trim_end(trim_start(s))
}

/// If the first `k` characters of `s` are white space and the next one is
/// not, `trim_start` removes exactly those `k`.
pub proof fn lemma_trim_start_skips(s: Seq<char>, k: int)
    requires
        0 <= k <= s.len(),
        forall|i: int| 0 <= i < k ==> is_white_space(s[i]),
        k < s.len() ==> !is_white_space(s[k]),
    ensures
        trim_start(s) == s.skip(k),
    decreases k,
{
    if k > 0 {
        lemma_trim_start_skips(s.drop_first(), k - 1);
    }
}

/// If the last `s.len() - k` characters of `s` are white space and the one
/// before them is not, `trim_end` keeps exactly the first `k`.
pub proof fn lemma_trim_end_takes(s: Seq<char>, k: int)
    requires
        0 <= k <= s.len(),
        forall|i: int| k <= i < s.len() ==> is_white_space(s[i]),
        0 < k ==> !is_white_space(s[k - 1]),
    ensures
        trim_end(s) == s.take(k),
    decreases s.len() - k,
{
    if k < s.len() {
        lemma_trim_end_takes(s.drop_last(), k);
    }
}

/// `s` without leading and trailing white space.
pub fn trim(s: &str) -> (t: &str)
    ensures
        t@ == trimmed(s@),
{
    let chars = to_chars(s);
    let n = chars.len();
    let mut start: usize = 0;
    while start < n && is_whitespace(chars[start])
        invariant
            start <= n,
            n == chars.len(),
            forall|i: int| 0 <= i < start ==> is_white_space(chars@[i]),
        decreases n - start,
    {
        start += 1;
    }
    let mut end: usize = n;
    while end > start && is_whitespace(chars[end - 1])
        invariant
            start <= end <= n,
            n == chars.len(),
            forall|i: int| end <= i < n ==> is_white_space(chars@[i]),
        decreases end,
    {
        end -= 1;
    }
    proof {
        lemma_trim_start_skips(s@, start as int);
        lemma_trim_end_takes(s@.skip(start as int), end - start);
    }
    s.substring_char(start, end)
}

/// `s` without the run of `c` at its start.
pub open spec fn without_leading(s: Seq<char>, c: char) -> Seq<char>
    decreases s.len(),
{
    if s.len() > 0 && s[0] == c {
        without_leading(s.drop_first(), c)
    } else {
        s
    }
}

/// If the first `k` characters of `s` are `c` and the next one is not,
/// `without_leading` removes exactly those `k`.
pub proof fn lemma_without_leading_skips(s: Seq<char>, c: char, k: int)
    requires
        0 <= k <= s.len(),
        forall|i: int| 0 <= i < k ==> s[i] == c,
        k < s.len() ==> s[k] != c,
    ensures
        without_leading(s, c) == s.skip(k),
    decreases k,
{
    if k > 0 {
        lemma_without_leading_skips(s.drop_first(), c, k - 1);
    }
}

/// What `without_leading` returns is `s` from some position on, before which
/// `s` holds `c` only.
pub proof fn lemma_without_leading_is_suffix(s: Seq<char>, c: char) -> (k: int)
    ensures
        0 <= k <= s.len(),
        without_leading(s, c) == s.skip(k),
        forall|i: int| 0 <= i < k ==> s[i] == c,
    decreases s.len(),
{
    if s.len() > 0 && s[0] == c {
        let rest = s.drop_first();
        let k = lemma_without_leading_is_suffix(rest, c);
        assert forall|i: int| 0 <= i < k + 1 implies s[i] == c by {
            if i > 0 {
                assert(rest[i - 1] == s[i]);
            }
        }
        k + 1
    } else {
        0
    }
}

/// `s` without the run of `c` at its start.
pub fn strip_leading(s: &str, c: char) -> (t: &str)
    ensures
        t@ == without_leading(s@, c),
{
    let chars = to_chars(s);
    let n = chars.len();
    let mut start: usize = 0;
    while start < n && chars[start] == c
        invariant
            start <= n,
            n == chars.len(),
            forall|i: int| 0 <= i < start ==> chars@[i] == c,
        decreases n - start,
    {
        start += 1;
    }
    proof {
        lemma_without_leading_skips(s@, c, start as int);
    }
    s.substring_char(start, n)
}

/// The position of the first `x` in `s`, or the length of `s` where it holds
/// none.
pub open spec fn first_position<A>(s: Seq<A>, x: A) -> nat
    decreases s.len(),
{
    if s.len() == 0 || s[0] == x {
        0
    } else {
        1 + first_position(s.drop_first(), x)
    }
}

/// If none of the first `k` items of `s` is `x` and the next one is, or `s`
/// ends there, then `k` is the first position of `x`.
pub proof fn lemma_first_position_is<A>(s: Seq<A>, x: A, k: int)
    requires
        0 <= k <= s.len(),
        forall|i: int| 0 <= i < k ==> s[i] != x,
        k < s.len() ==> s[k] == x,
    ensures
        first_position(s, x) == k,
    decreases k,
{
    if k > 0 {
        lemma_first_position_is(s.drop_first(), x, k - 1);
    }
}

/// The first position of `x` lies within `s` exactly where `s` holds `x`;
/// nothing before it is `x`.
pub proof fn lemma_first_position_bounds<A>(s: Seq<A>, x: A)
    ensures
        first_position(s, x) <= s.len(),
        first_position(s, x) < s.len() <==> s.contains(x),
        first_position(s, x) < s.len() ==> s[first_position(s, x) as int] == x,
        forall|i: int| 0 <= i < first_position(s, x) ==> s[i] != x,
    decreases s.len(),
{
    if s.len() > 0 && s[0] != x {
        let rest = s.drop_first();
        lemma_first_position_bounds(rest, x);
        let p = first_position(rest, x);
        if s.contains(x) {
            let i = choose|i: int| 0 <= i < s.len() && s[i] == x;
            assert(rest[i - 1] == x);
        }
        assert forall|i: int| 0 <= i < 1 + p implies s[i] != x by {
            if i > 0 {
                assert(rest[i - 1] == s[i]);
            }
        }
    }
}

/// The position of the first `c` in `s`, or the length of `s` in characters
/// where it holds none.
pub fn find(s: &str, c: char) -> (at: usize)
    ensures
        at == first_position(s@, c),
        at <= s@.len(),
{
    let chars = to_chars(s);
    let mut at: usize = 0;
    while at < chars.len() && chars[at] != c
        invariant
            at <= chars.len(),
            forall|i: int| 0 <= i < at ==> chars@[i] != c,
        decreases chars.len() - at,
    {
        at += 1;
    }
    proof {
        lemma_first_position_is(s@, c, at as int);
    }
    at
}

/// Whether `needle` stands in `hay` at position `at`.
pub open spec fn occurs_at(needle: Seq<char>, hay: Seq<char>, at: int) -> bool {
    &&& 0 <= at
    &&& at + needle.len() <= hay.len()
    &&& hay.subrange(at, at + needle.len()) == needle
}

/// Whether `needle` is a contiguous part of `hay`.
pub open spec fn occurs_in(needle: Seq<char>, hay: Seq<char>) -> bool {
    exists|at: int| occurs_at(needle, hay, at)
}

/// Whether `needle` stands in `hay` at position `at`.
fn matches_at(needle: &Vec<char>, hay: &Vec<char>, at: usize) -> (found: bool)
    requires
        at + needle.len() <= hay.len(),
    ensures
        found == occurs_at(needle@, hay@, at as int),
{
    let mut k: usize = 0;
    while k < needle.len()
        invariant
            k <= needle.len(),
            at + needle.len() <= hay.len(),
            forall|j: int| 0 <= j < k ==> hay@[at + j] == needle@[j],
        decreases needle.len() - k,
    {
        if hay[at + k] != needle[k] {
            return false;
        }
        k += 1;
    }
    assert(hay@.subrange(at as int, at + needle.len()) =~= needle@);
    true
}

/// Whether `needle` is a contiguous part of `hay`.
pub fn contains(hay: &str, needle: &str) -> (found: bool)
    ensures
        found == occurs_in(needle@, hay@),
{
    let hay_chars = to_chars(hay);
    let needle_chars = to_chars(needle);
    if needle_chars.len() > hay_chars.len() {
        return false;
    }
    if needle_chars.len() == 0 {
        assert(hay@.subrange(0, 0) =~= needle@);
        assert(occurs_at(needle@, hay@, 0));
        return true;
    }
    let mut at: usize = 0;
    while at <= hay_chars.len() - needle_chars.len()
        invariant
            0 < needle_chars.len() <= hay_chars.len(),
            at <= hay_chars.len() - needle_chars.len() + 1,
            hay_chars@ == hay@,
            needle_chars@ == needle@,
            forall|j: int| 0 <= j < at ==> !occurs_at(needle@, hay@, j),
        decreases hay_chars.len() - at,
    {
        if matches_at(&needle_chars, &hay_chars, at) {
            return true;
        }
        at += 1;
    }
    false
}

/// The character that stands for the digit `d`.
pub open spec fn digit_char(d: nat) -> char
    recommends
        d < 10,
{
    (d + 48) as char
}

/// The decimal numeral of `n`, without leading zeros.
pub open spec fn decimal(n: nat) -> Seq<char>
    decreases n,
{
    if n < 10 {
        seq![digit_char(n)]
    } else {
        decimal(n / 10).push(digit_char(n % 10))
    }
}

/// The one-character text of the digit `d`.
fn digit_text(d: usize) -> (t: &'static str)
    requires
        d < 10,
    ensures
        t@ == seq![digit_char(d as nat)],
{
    proof {
        reveal_strlit("0");
        reveal_strlit("1");
        reveal_strlit("2");
        reveal_strlit("3");
        reveal_strlit("4");
        reveal_strlit("5");
        reveal_strlit("6");
        reveal_strlit("7");
        reveal_strlit("8");
        reveal_strlit("9");
    }
    if d == 0 {
        "0"
    } else if d == 1 {
        "1"
    } else if d == 2 {
        "2"
    } else if d == 3 {
        "3"
    } else if d == 4 {
        "4"
    } else if d == 5 {
        "5"
    } else if d == 6 {
        "6"
    } else if d == 7 {
        "7"
    } else if d == 8 {
        "8"
    } else {
        "9"
    }
}

/// The decimal numeral of `n`, without leading zeros.
pub fn render_decimal(n: usize) -> (text: String)
    ensures
        text@ == decimal(n as nat),
    decreases n,
{
    if n < 10 {
        String::from_str(digit_text(n))
    } else {
        let mut text = render_decimal(n / 10);
        text.append(digit_text(n % 10));
        text
    }
}

/// Whether `c` is one of the ten decimal digits.
pub open spec fn is_digit(c: char) -> bool {
    48 <= c as u32 <= 57
}

/// The number that the digit `c` stands for.
pub open spec fn digit_of(c: char) -> nat
    recommends
        is_digit(c),
{
    (c as u32 - 48) as nat
}

/// Whether `s` holds decimal digits only.
pub open spec fn all_digits(s: Seq<char>) -> bool {
    forall|i: int| 0 <= i < s.len() ==> is_digit(#[trigger] s[i])
}

/// The number that the digit string `s` denotes; the empty string denotes 0.
pub open spec fn digits_value(s: Seq<char>) -> nat
    decreases s.len(),
{
    if s.len() == 0 {
        0
    } else {
        10 * digits_value(s.drop_last()) + digit_of(s.last())
    }
}

/// The number that `s` denotes as a decimal numeral: an optional `+`, then
/// one or more digits. Anything else denotes nothing.
pub open spec fn decimal_value(s: Seq<char>) -> Option<nat> {
    let digits = if s.len() > 0 && s[0] == '+' {
        s.drop_first()
    } else {
        s
    };
    if digits.len() > 0 && all_digits(digits) {
        Some(digits_value(digits))
    } else {
        None
    }
}

/// A digit string denotes at least what any of its prefixes denotes.
pub proof fn lemma_digits_value_grows(s: Seq<char>, k: int)
    requires
        0 <= k <= s.len(),
    ensures
        digits_value(s.take(k)) <= digits_value(s),
    decreases s.len() - k,
{
    if k == s.len() {
        assert(s.take(k) =~= s);
    } else {
        lemma_digits_value_grows(s.drop_last(), k);
        assert(s.drop_last().take(k) =~= s.take(k));
    }
}

/// Reads `s` as a decimal numeral that fits in `usize`.
pub fn parse_decimal(s: &str) -> (value: Option<usize>)
    ensures
        value == match decimal_value(s@) {
            Some(v) => if v <= usize::MAX {
                Some(v as usize)
            } else {
                None
            },
            None => None,
        },
{
    let chars = to_chars(s);
    let n = chars.len();
    let first: usize = if n > 0 && chars[0] == '+' {
        1
    } else {
        0
    };
    if first == n {
        return None;
    }
    let ghost digits = s@.skip(first as int);
    assert(digits =~= if s@.len() > 0 && s@[0] == '+' {
        s@.drop_first()
    } else {
        s@
    });
    assert(decimal_value(s@) == if all_digits(digits) {
        Some(digits_value(digits))
    } else {
        None
    });
    let mut acc: usize = 0;
    let mut i: usize = first;
    while i < n
        invariant
            first <= i <= n,
            n == chars.len(),
            chars@ == s@,
            digits == s@.skip(first as int),
            decimal_value(s@) == if all_digits(digits) {
                Some(digits_value(digits))
            } else {
                None
            },
            all_digits(digits.take(i - first)),
            acc == digits_value(digits.take(i - first)),
        decreases n - i,
    {
        let c = chars[i];
        let u: u32 = c as u32;
        if u < 48 || u > 57 {
            assert(!is_digit(digits[i - first]));
            return None;
        }
        let d: usize = (u - 48) as usize;
        let ghost longer = digits.take(i - first + 1);
        proof {
            assert(longer.drop_last() =~= digits.take(i - first));
            assert(all_digits(longer));
        }
        if acc > (usize::MAX - d) / 10 {
            proof {
                if all_digits(digits) {
                    lemma_digits_value_grows(digits, i - first + 1);
                }
            }
            return None;
        }
        acc = acc * 10 + d;
        i += 1;
    }
    assert(digits.take(n - first) =~= digits);
    Some(acc)
}

/// The numeral of `n` holds digits only, at least one, and denotes `n`.
pub proof fn lemma_decimal_digits(n: nat)
    ensures
        decimal(n).len() > 0,
        all_digits(decimal(n)),
        digits_value(decimal(n)) == n,
    decreases n,
{
    let s = decimal(n);
    if n < 10 {
        assert(digits_value(s.drop_last()) == 0);
    } else {
        lemma_decimal_digits(n / 10);
        assert(s.drop_last() =~= decimal(n / 10));
        assert(all_digits(s));
    }
}

/// Reading the numeral of a number gives the number back, also where white
/// space is trimmed first.
pub proof fn lemma_decimal_round_trip(n: nat)
    ensures
        decimal_value(decimal(n)) == Some(n),
        trimmed(decimal(n)) == decimal(n),
{
    lemma_decimal_digits(n);
}

} // verus!
