//! Text as sequences of characters: numbers in decimal, bytes in hexadecimal,
//! and the comparisons that ignore ASCII case.

use vstd::prelude::*;

verus! {

/// `String::push` of std: the character is appended, and nothing else changes.
pub assume_specification[ String::push ](text: &mut String, c: char)
    ensures
        final(text)@ == old(text)@.push(c),
;

/// The character that stands for a decimal or hexadecimal digit, in lower case.
pub open spec fn digit_char(d: int) -> char {
    if d < 10 {
        (48 + d) as char
    } else {
        (87 + d) as char
    }
}

/// A natural number in decimal, without leading zeros.
pub open spec fn digits(n: nat) -> Seq<char>
    decreases n,
{
    if n < 10 {
        seq![digit_char(n as int)]
    } else {
        digits(n / 10).push(digit_char((n % 10) as int))
    }
}

/// An integer in decimal, with a minus sign where it is negative.
pub open spec fn decimal(n: int) -> Seq<char> {
    if n < 0 {
        seq!['-'] + digits((-n) as nat)
    } else {
        digits(n as nat)
    }
}

/// The character that stands for `d`.
fn digit(d: u8) -> (c: char)
    requires
        d < 16,
    ensures
        c == digit_char(d as int),
{
    if d < 10 {
        (48 + d) as char
    } else {
        (87 + d) as char
    }
}

/// `n` in decimal.
pub fn decimal_u64(n: u64) -> (text: String)
    ensures
        text@ == decimal(n as int),
    decreases n,
{
    if n < 10 {
        let mut text = String::new();
        text.push(digit(n as u8));
        assert(text@ =~= digits(n as nat));
        text
    } else {
        let mut text = decimal_u64(n / 10);
        text.push(digit((n % 10) as u8));
        text
    }
}

/// `n` in decimal, with a minus sign where it is negative.
pub fn decimal_i64(n: i64) -> (text: String)
    ensures
        text@ == decimal(n as int),
{
    if n < 0 {
        let mut text = String::new();
        text.push('-');
        let size = decimal_u64((-(n as i128)) as u64);
        text.append(size.as_str());
        assert(text@ =~= decimal(n as int));
        text
    } else {
        decimal_u64(n as u64)
    }
}

/// The characters of a text, one by one.
pub fn chars_of(text: &str) -> (chars: Vec<char>)
    ensures
        chars@ == text@,
{
    let mut chars: Vec<char> = Vec::new();
    for c in it: text.chars()
        invariant
            chars@ == text@.take(it.index() as int),
            it.seq() == text@,
    {
        chars.push(c);
        assert(text@.take(it.index() + 1) =~= text@.take(it.index() as int).push(c));
    }
    assert(text@.take(text@.len() as int) =~= text@);
    chars
}

/// Texts, seen as their characters.
pub open spec fn texts(list: Seq<String>) -> Seq<Seq<char>> {
    list.map_values(|text: String| text@)
}

// Case.

/// A character with ASCII capitals made small.
pub open spec fn small(c: char) -> char {
    if 'A' <= c <= 'Z' {
        (c as int + 32) as char
    } else {
        c
    }
}

pub open spec fn smalls(s: Seq<char>) -> Seq<char> {
    s.map_values(|c: char| small(c))
}

fn to_small(c: char) -> (r: char)
    ensures
        r == small(c),
{
    if 'A' <= c && c <= 'Z' {
        ((c as u8) + 32) as char
    } else {
        c
    }
}

/// The characters of a text with ASCII capitals made small.
pub fn small_chars(text: &str) -> (chars: Vec<char>)
    ensures
        chars@ == smalls(text@),
{
    let all = chars_of(text);
    let mut chars: Vec<char> = Vec::new();
    let mut i: usize = 0;
    while i < all.len()
        invariant
            i <= all.len(),
            all@ == text@,
            chars@ == smalls(text@.take(i as int)),
        decreases all.len() - i,
    {
        chars.push(to_small(all[i]));
        assert(smalls(text@.take(i + 1)) =~= smalls(text@.take(i as int)).push(
            small(text@[i as int]),
        ));
        i += 1;
    }
    assert(text@.take(i as int) =~= text@);
    chars
}

/// Whether two sequences of characters are the same.
pub fn same_chars(a: &Vec<char>, b: &Vec<char>) -> (same: bool)
    ensures
        same == (a@ == b@),
{
    if a.len() != b.len() {
        return false;
    }
    let mut i: usize = 0;
    while i < a.len()
        invariant
            i <= a.len() == b.len(),
            forall|j: int| 0 <= j < i ==> a@[j] == b@[j],
        decreases a.len() - i,
    {
        if a[i] != b[i] {
            return false;
        }
        i += 1;
    }
    assert(a@ =~= b@);
    true
}

/// Whether two texts are the same but for the case of ASCII letters.
pub fn same_but_for_case(a: &str, b: &str) -> (same: bool)
    ensures
        same == (smalls(a@) == smalls(b@)),
{
    same_chars(&small_chars(a), &small_chars(b))
}

// Finding one text in another.

/// `part` stands in `s` at `i`.
pub open spec fn stands_at(s: Seq<char>, part: Seq<char>, i: int) -> bool {
    0 <= i && i + part.len() <= s.len() && s.subrange(i, i + part.len()) == part
}

/// `part` stands somewhere in `s`, unbroken.
pub open spec fn holds(s: Seq<char>, part: Seq<char>) -> bool {
    exists|i: int| stands_at(s, part, i)
}

/// Whether `part` stands somewhere in `s`.
pub fn find(s: &Vec<char>, part: &Vec<char>) -> (found: bool)
    ensures
        found == holds(s@, part@),
{
    if part.len() > s.len() {
        return false;
    }
    let last = s.len() - part.len();
    let mut i: usize = 0;
    while i <= last
        invariant
            part.len() <= s.len(),
            last == s.len() - part.len(),
            i <= last + 1,
            forall|k: int| 0 <= k < i ==> !stands_at(s@, part@, k),
        decreases last + 1 - i,
    {
        let mut j: usize = 0;
        while j < part.len() && s[i + j] == part[j]
            invariant
                i + part.len() <= s.len(),
                j <= part.len(),
                forall|k: int| 0 <= k < j ==> s@[i + k] == part@[k],
            decreases part.len() - j,
        {
            j += 1;
        }
        if j == part.len() {
            assert(s@.subrange(i as int, i + part.len()) =~= part@);
            assert(stands_at(s@, part@, i as int));
            return true;
        }
        assert(!stands_at(s@, part@, i as int)) by {
            if stands_at(s@, part@, i as int) {
                assert(s@.subrange(i as int, i + part.len())[j as int] == part@[j as int]);
            }
        }
        if i == last {
            return false;
        }
        i += 1;
    }
    false
}

// White space.

/// The characters that Unicode counts as white space.
pub open spec fn is_white(c: char) -> bool {
    ||| '\u{9}' <= c <= '\u{d}'
    ||| c == ' '
    ||| c == '\u{85}'
    ||| c == '\u{a0}'
    ||| c == '\u{1680}'
    ||| '\u{2000}' <= c <= '\u{200a}'
    ||| c == '\u{2028}'
    ||| c == '\u{2029}'
    ||| c == '\u{202f}'
    ||| c == '\u{205f}'
    ||| c == '\u{3000}'
}

fn white(c: char) -> (is: bool)
    ensures
        is == is_white(c),
{
    ('\u{9}' <= c && c <= '\u{d}') || c == ' ' || c == '\u{85}' || c == '\u{a0}' || c == '\u{1680}'
        || ('\u{2000}' <= c && c <= '\u{200a}') || c == '\u{2028}' || c == '\u{2029}' || c
        == '\u{202f}' || c == '\u{205f}' || c == '\u{3000}'
}

/// A text without the white space at its beginning.
pub open spec fn without_front(s: Seq<char>) -> Seq<char>
    decreases s.len(),
{
    if s.len() > 0 && is_white(s[0]) {
        without_front(s.skip(1))
    } else {
        s
    }
}

/// A text without the white space at its end.
pub open spec fn without_back(s: Seq<char>) -> Seq<char>
    decreases s.len(),
{
    if s.len() > 0 && is_white(s.last()) {
        without_back(s.drop_last())
    } else {
        s
    }
}

/// A text without the white space at its two ends.
pub open spec fn trimmed(s: Seq<char>) -> Seq<char> {
    without_back(without_front(s))
}

/// A text without the white space at its two ends.
pub fn trim(text: &str) -> (inner: String)
    ensures
        inner@ == trimmed(text@),
{
    let chars = chars_of(text);
    let mut start: usize = 0;
    assert(chars@.skip(0) =~= chars@);
    while start < chars.len() && white(chars[start])
        invariant
            start <= chars.len(),
            without_front(chars@.skip(start as int)) == without_front(chars@),
        decreases chars.len() - start,
    {
        assert(chars@.skip(start as int)[0] == chars@[start as int]);
        assert(chars@.skip(start as int).skip(1) =~= chars@.skip(start + 1));
        start += 1;
    }
    let ghost rest = chars@.skip(start as int);
    assert(start < chars.len() ==> rest[0] == chars@[start as int]);
    assert(without_front(chars@) == rest);
    let mut end: usize = chars.len();
    assert(chars@.subrange(start as int, end as int) =~= rest);
    while start < end && white(chars[end - 1])
        invariant
            start <= end <= chars.len(),
            without_back(chars@.subrange(start as int, end as int)) == without_back(rest),
        decreases end - start,
    {
        let ghost part = chars@.subrange(start as int, end as int);
        assert(part.last() == chars@[end - 1]);
        assert(part.drop_last() =~= chars@.subrange(start as int, end - 1));
        end -= 1;
    }
    let ghost part = chars@.subrange(start as int, end as int);
    assert(start < end ==> part.last() == chars@[end - 1]);
    let mut inner = String::new();
    let mut i: usize = start;
    while i < end
        invariant
            start <= i <= end <= chars.len(),
            inner@ == chars@.subrange(start as int, i as int),
        decreases end - i,
    {
        inner.push(chars[i]);
        assert(chars@.subrange(start as int, i + 1) =~= chars@.subrange(
            start as int,
            i as int,
        ).push(chars@[i as int]));
        i += 1;
    }
    inner
}

// Numbers read from text.

/// What a decimal digit counts for.
pub open spec fn digit_value(c: char) -> int {
    c as int - 48
}

pub open spec fn is_digit(c: char) -> bool {
    '0' <= c <= '9'
}

/// What a row of decimal digits counts for.
pub open spec fn number(s: Seq<char>) -> nat
    decreases s.len(),
{
    if s.len() == 0 {
        0
    } else {
        (10 * number(s.drop_last()) + digit_value(s.last())) as nat
    }
}

/// The digits of a number that may have a plus sign in front.
pub open spec fn unsigned_digits(s: Seq<char>) -> Seq<char> {
    if s.len() > 0 && s[0] == '+' {
        s.skip(1)
    } else {
        s
    }
}

/// The whole number that a text spells: one or more decimal digits, with or
/// without a plus sign in front.
pub open spec fn spelled(s: Seq<char>) -> Option<nat> {
    let digits = unsigned_digits(s);
    if digits.len() > 0 && forall|i: int| 0 <= i < digits.len() ==> is_digit(#[trigger] digits[i]) {
        Some(number(digits))
    } else {
        None
    }
}

/// The whole number that a text spells, where it is at most `limit`.
pub fn parse_number(text: &str, limit: u64) -> (result: Option<u64>)
    ensures
        match result {
            Some(n) => spelled(text@) == Some(n as nat) && n <= limit,
            None => spelled(text@) is None || spelled(text@)->0 > limit,
        },
{
    let chars = chars_of(text);
    let start: usize = if chars.len() > 0 && chars[0] == '+' {
        1
    } else {
        0
    };
    let ghost digits = unsigned_digits(text@);
    assert(forall|k: int| 0 <= k < digits.len() ==> digits[k] == chars@[k + start]);
    if start == chars.len() {
        return None;
    }
    let mut n: u64 = 0;
    let mut i: usize = start;
    let mut over = false;
    while i < chars.len()
        invariant
            start <= i <= chars.len(),
            digits.len() == chars.len() - start,
            forall|k: int| 0 <= k < digits.len() ==> digits[k] == chars@[k + start],
            forall|k: int| 0 <= k < i - start ==> is_digit(#[trigger] digits[k]),
            !over ==> n == number(digits.take(i - start)) && n <= limit,
            over ==> number(digits.take(i - start)) > limit,
            digits == unsigned_digits(text@),
        decreases chars.len() - i,
    {
        let c = chars[i];
        let ghost k = i - start;
        assert(digits[k] == c);
        if c < '0' || c > '9' {
            assert(!is_digit(digits[k]));
            return None;
        }
        assert(digits.take(k + 1).drop_last() =~= digits.take(k));
        assert(digits.take(k + 1).last() == c);
        let d: u64 = (c as u32 as u64) - 48;
        if !over {
            let next: u128 = 10 * (n as u128) + d as u128;
            if next > limit as u128 {
                over = true;
            } else {
                n = next as u64;
            }
        }
        i += 1;
    }
    assert(digits.take(i - start) =~= digits);
    if over {
        None
    } else {
        Some(n)
    }
}

// Bytes in hexadecimal.

/// The two hexadecimal digits of a byte.
pub open spec fn hex_pair(b: u8) -> Seq<char> {
    seq![digit_char((b / 16) as int), digit_char((b % 16) as int)]
}

/// Bytes in hexadecimal, two digits each, in lower case.
pub open spec fn hex_of(bytes: Seq<u8>) -> Seq<char>
    decreases bytes.len(),
{
    if bytes.len() == 0 {
        Seq::empty()
    } else {
        hex_of(bytes.drop_last()) + hex_pair(bytes.last())
    }
}

/// Bytes in hexadecimal.
pub fn to_hex(bytes: &[u8]) -> (text: String)
    ensures
        text@ == hex_of(bytes@),
{
    let mut text = String::new();
    let mut i: usize = 0;
    while i < bytes.len()
        invariant
            i <= bytes.len(),
            text@ == hex_of(bytes@.take(i as int)),
        decreases bytes.len() - i,
    {
        let b = bytes[i];
        text.push(digit(b / 16));
        text.push(digit(b % 16));
        assert(bytes@.take(i + 1).drop_last() =~= bytes@.take(i as int));
        assert(text@ =~= hex_of(bytes@.take(i as int)) + hex_pair(b));
        i += 1;
    }
    assert(bytes@.take(i as int) =~= bytes@);
    text
}

/// Two different runs of bytes are never the same in hexadecimal, and a run of
/// bytes takes two digits for each.
pub proof fn hex_tells_bytes_apart(a: Seq<u8>, b: Seq<u8>)
    ensures
        hex_of(a).len() == 2 * a.len(),
        hex_of(a) == hex_of(b) ==> a == b,
    decreases a.len(),
{
    hex_len(a);
    hex_len(b);
    if hex_of(a) == hex_of(b) {
        if a.len() == 0 {
            assert(a =~= b);
        } else {
            let x = hex_of(a);
            let y = hex_of(b);
            let n = x.len() as int;
            hex_len(a.drop_last());
            hex_len(b.drop_last());
            assert(x.take(n - 2) =~= hex_of(a.drop_last()));
            assert(y.take(n - 2) =~= hex_of(b.drop_last()));
            hex_tells_bytes_apart(a.drop_last(), b.drop_last());
            assert(x[n - 2] == hex_pair(a.last())[0]);
            assert(y[n - 2] == hex_pair(b.last())[0]);
            assert(x[n - 1] == hex_pair(a.last())[1]);
            assert(y[n - 1] == hex_pair(b.last())[1]);
            assert(a.last() / 16 == b.last() / 16);
            assert(a.last() % 16 == b.last() % 16);
            assert(a =~= a.drop_last().push(a.last()));
            assert(b =~= b.drop_last().push(b.last()));
        }
    }
}

proof fn hex_len(a: Seq<u8>)
    ensures
        hex_of(a).len() == 2 * a.len(),
    decreases a.len(),
{
    if a.len() > 0 {
        hex_len(a.drop_last());
    }
}

/// A number written in decimal reads back as itself.
pub proof fn decimal_reads_back(n: nat)
    ensures
        spelled(decimal(n as int)) == Some(n),
    decreases n,
{
    digits_read_back(n);
    let d = digits(n);
    assert(is_digit(d[0]));
    assert(d[0] != '+');
}

proof fn digits_read_back(n: nat)
    ensures
        digits(n).len() > 0,
        forall|i: int| 0 <= i < digits(n).len() ==> is_digit(#[trigger] digits(n)[i]),
        number(digits(n)) == n,
    decreases n,
{
    if n < 10 {
        let d = digits(n);
        assert(d.drop_last() =~= Seq::empty());
        assert(number(d.drop_last()) == 0);
        assert(d.last() == digit_char(n as int));
    } else {
        digits_read_back(n / 10);
        let front = digits(n / 10);
        let d = digits(n);
        assert(d.drop_last() =~= front);
    }
}

/// A number below ten is its digit, a larger one is its tenth with the last digit
/// behind it, and one below zero has a minus sign in front of its size.
pub proof fn a_number_is_written_digit_by_digit(n: int)
    ensures
        0 <= n < 10 ==> decimal(n) == seq!["0123456789"@[n]],
        n >= 10 ==> decimal(n) == decimal(n / 10).push("0123456789"@[n % 10]),
        n < 0 ==> decimal(n) == seq!['-'] + decimal(-n),
{
    reveal_strlit("0123456789");
}

/// What a text spells: one digit its place among the ten, a digit more ten times
/// as much and the digit, a plus sign in front nothing more; and a text with any
/// other character, or without a digit, spells no number.
pub proof fn a_number_is_read_digit_by_digit(s: Seq<char>, d: int, i: int)
    requires
        0 <= d < 10,
    ensures
        spelled(seq!["0123456789"@[d]]) == Some(d as nat),
        spelled(s) is Some ==> spelled(s.push("0123456789"@[d])) == Some(
            (10 * spelled(s)->0 + d) as nat,
        ),
        s.len() > 0 && s[0] != '+' ==> spelled(seq!['+'] + s) == spelled(s),
        spelled(Seq::empty()) is None,
        spelled(seq!['+']) is None,
        spelled(seq!['+', '+'] + s) is None,
        0 <= i < s.len() && !"0123456789"@.contains(s[i]) && (i > 0 || s[i] != '+') ==> spelled(
            s,
        ) is None,
{
    reveal_strlit("0123456789");
    let c = "0123456789"@[d];
    let one = seq![c];
    assert(one.drop_last() =~= Seq::empty());
    assert(number(one.drop_last()) == 0);
    assert(one.last() == c);
    assert(unsigned_digits(one) == one);
    assert(is_digit(one[0]));
    if spelled(s) is Some {
        let digits = unsigned_digits(s);
        let more = unsigned_digits(s.push(c));
        assert(more =~= digits.push(c));
        assert(more.drop_last() =~= digits);
        assert forall|k: int| 0 <= k < more.len() implies is_digit(#[trigger] more[k]) by {
            if k < digits.len() {
                assert(is_digit(digits[k]));
            }
        }
    }
    if s.len() > 0 && s[0] != '+' {
        assert((seq!['+'] + s).skip(1) =~= s);
    }
    assert(seq!['+'].skip(1) =~= Seq::empty());
    let twice = seq!['+', '+'] + s;
    assert(twice.skip(1)[0] == '+');
    if 0 <= i < s.len() && !"0123456789"@.contains(s[i]) && (i > 0 || s[i] != '+') {
        if is_digit(s[i]) {
            assert("0123456789"@[s[i] as int - 48] == s[i]);
        }
        if s[0] == '+' {
            assert(s.skip(1)[i - 1] == s[i]);
        }
    }
}

/// Bytes in hexadecimal are two digits each, the higher first, in their order.
pub proof fn a_byte_is_two_digits(bytes: Seq<u8>, i: int)
    requires
        0 <= i < bytes.len(),
    ensures
        hex_of(bytes).len() == 2 * bytes.len(),
        hex_of(bytes)[2 * i] == "0123456789abcdef"@[bytes[i] as int / 16],
        hex_of(bytes)[2 * i + 1] == "0123456789abcdef"@[bytes[i] as int % 16],
    decreases bytes.len(),
{
    reveal_strlit("0123456789abcdef");
    hex_len(bytes);
    hex_len(bytes.drop_last());
    if i < bytes.len() - 1 {
        a_byte_is_two_digits(bytes.drop_last(), i);
    }
}

/// The twenty-six capitals are made small and every other character is left.
pub proof fn capitals_are_made_small(s: Seq<char>, i: int, k: int)
    requires
        0 <= i < s.len(),
        0 <= k < 26,
    ensures
        smalls(s).len() == s.len(),
        s[i] == "ABCDEFGHIJKLMNOPQRSTUVWXYZ"@[k] ==> smalls(s)[i]
            == "abcdefghijklmnopqrstuvwxyz"@[k],
        !"ABCDEFGHIJKLMNOPQRSTUVWXYZ"@.contains(s[i]) ==> smalls(s)[i] == s[i],
{
    reveal_strlit("ABCDEFGHIJKLMNOPQRSTUVWXYZ");
    reveal_strlit("abcdefghijklmnopqrstuvwxyz");
    if 'A' <= s[i] <= 'Z' {
        assert("ABCDEFGHIJKLMNOPQRSTUVWXYZ"@[s[i] as int - 65] == s[i]);
    }
}

/// A text is found wherever it stands: between any two others, and nowhere else.
pub proof fn a_text_is_found_where_it_stands(front: Seq<char>, part: Seq<char>, back: Seq<char>)
    ensures
        holds(front + part + back, part),
        forall|s: Seq<char>| #[trigger]
            holds(s, part) ==> exists|a: Seq<char>, b: Seq<char>| s == #[trigger] (a + part + b),
{
    let all = front + part + back;
    assert(all.subrange(front.len() as int, (front.len() + part.len()) as int) =~= part);
    assert(stands_at(all, part, front.len() as int));
    assert forall|s: Seq<char>| #[trigger] holds(s, part) implies exists|
        a: Seq<char>,
        b: Seq<char>,
    | s == #[trigger] (a + part + b) by {
        let i = choose|i: int| stands_at(s, part, i);
        let a = s.take(i);
        let b = s.skip(i + part.len());
        assert(a + s.subrange(i, i + part.len()) + b =~= s);
    }
}

/// Whatever white space stands around a text is taken off, all of it and nothing
/// else: the twenty-five characters that Unicode counts as white space.
pub proof fn white_space_is_taken_off_both_ends(
    front: Seq<char>,
    core: Seq<char>,
    back: Seq<char>,
)
    requires
        forall|i: int|
            0 <= i < front.len() ==> ({
                let c = #[trigger] front[i];
                c == '\u{9}' || c == '\u{a}' || c == '\u{b}' || c == '\u{c}' || c == '\u{d}' || c
                    == '\u{20}' || c == '\u{85}' || c == '\u{a0}' || c == '\u{1680}' || '\u{2000}'
                    <= c <= '\u{200a}' || c == '\u{2028}' || c == '\u{2029}' || c == '\u{202f}'
                    || c == '\u{205f}' || c == '\u{3000}'
            }),
        forall|i: int|
            0 <= i < back.len() ==> ({
                let c = #[trigger] back[i];
                c == '\u{9}' || c == '\u{a}' || c == '\u{b}' || c == '\u{c}' || c == '\u{d}' || c
                    == '\u{20}' || c == '\u{85}' || c == '\u{a0}' || c == '\u{1680}' || '\u{2000}'
                    <= c <= '\u{200a}' || c == '\u{2028}' || c == '\u{2029}' || c == '\u{202f}'
                    || c == '\u{205f}' || c == '\u{3000}'
            }),
        core.len() > 0 ==> ({
            let c = core[0];
            !(c == '\u{9}' || c == '\u{a}' || c == '\u{b}' || c == '\u{c}' || c == '\u{d}' || c
                == '\u{20}' || c == '\u{85}' || c == '\u{a0}' || c == '\u{1680}' || '\u{2000}' <= c
                <= '\u{200a}' || c == '\u{2028}' || c == '\u{2029}' || c == '\u{202f}' || c
                == '\u{205f}' || c == '\u{3000}')
        }),
        core.len() > 0 ==> ({
            let c = core[core.len() - 1];
            !(c == '\u{9}' || c == '\u{a}' || c == '\u{b}' || c == '\u{c}' || c == '\u{d}' || c
                == '\u{20}' || c == '\u{85}' || c == '\u{a0}' || c == '\u{1680}' || '\u{2000}' <= c
                <= '\u{200a}' || c == '\u{2028}' || c == '\u{2029}' || c == '\u{202f}' || c
                == '\u{205f}' || c == '\u{3000}')
        }),
    ensures
        trimmed(front + core + back) == core,
{
    assert(forall|i: int| 0 <= i < front.len() ==> is_white(#[trigger] front[i]));
    assert(forall|i: int| 0 <= i < back.len() ==> is_white(#[trigger] back[i]));
    if core.len() > 0 {
        let rest = core + back;
        assert(rest[0] == core[0]);
        front_is_taken_off(front, rest);
        assert(front + core + back =~= front + rest);
        back_is_taken_off(core, back);
    } else {
        let all = front + back;
        assert(front + core + back =~= all);
        assert forall|i: int| 0 <= i < all.len() implies is_white(#[trigger] all[i]) by {
            if i >= front.len() {
                assert(all[i] == back[i - front.len()]);
            }
        }
        front_is_taken_off(all, core);
        assert(all + core =~= all);
        assert(core =~= Seq::empty());
    }
}

proof fn front_is_taken_off(front: Seq<char>, rest: Seq<char>)
    requires
        forall|i: int| 0 <= i < front.len() ==> is_white(#[trigger] front[i]),
        rest.len() > 0 ==> !is_white(rest[0]),
    ensures
        without_front(front + rest) == rest,
    decreases front.len(),
{
    let all = front + rest;
    if front.len() == 0 {
        assert(all =~= rest);
    } else {
        assert(all[0] == front[0]);
        assert(all.skip(1) =~= front.skip(1) + rest);
        front_is_taken_off(front.skip(1), rest);
    }
}

proof fn back_is_taken_off(core: Seq<char>, back: Seq<char>)
    requires
        forall|i: int| 0 <= i < back.len() ==> is_white(#[trigger] back[i]),
        core.len() > 0 ==> !is_white(core.last()),
    ensures
        without_back(core + back) == core,
    decreases back.len(),
{
    let all = core + back;
    if back.len() == 0 {
        assert(all =~= core);
    } else {
        assert(all.last() == back[back.len() - 1]);
        assert(all.drop_last() =~= core + back.drop_last());
        back_is_taken_off(core, back.drop_last());
    }
}

/// Texts are seen one by one, in their order.
pub proof fn texts_are_seen_one_by_one(list: Seq<String>)
    ensures
        texts(list).len() == list.len(),
        forall|i: int| 0 <= i < list.len() ==> #[trigger] texts(list)[i] == list[i]@,
{
}

}
