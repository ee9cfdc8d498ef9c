//! Text: numbers in decimal, searching, joining, and letters without regard to case.

use vstd::prelude::*;

verus! {

/// The decimal digit of a number below ten.
pub open spec fn digit(d: nat) -> char {
    (d + 48) as char
}

/// A number in decimal, without leading zeros.
pub open spec fn decimal(n: nat) -> Seq<char>
    decreases n,
{
    if n < 10 {
        seq![digit(n)]
    } else {
        decimal(n / 10).push(digit(n % 10))
    }
}

/// A number in decimal, with a minus sign if it is negative.
pub open spec fn signed_decimal(n: int) -> Seq<char> {
    if n < 0 {
        seq!['-'] + decimal((-n) as nat)
    } else {
        decimal(n as nat)
    }
}

/// The parts with a separator between any two.
pub open spec fn joined(parts: Seq<Seq<char>>, separator: Seq<char>) -> Seq<char>
    decreases parts.len(),
{
    if parts.len() == 0 {
        Seq::empty()
    } else if parts.len() == 1 {
        parts[0]
    } else {
        joined(parts.drop_last(), separator) + separator + parts.last()
    }
}

/// The views of a list of strings.
pub open spec fn texts(strings: Seq<String>) -> Seq<Seq<char>> {
    strings.map_values(|s: String| s@)
}

/// The view of an optional string.
pub open spec fn optional_text(s: Option<String>) -> Option<Seq<char>> {
    match s {
        Some(text) => Some(text@),
        None => None,
    }
}

/// `needle` stands in `text` at position `at`.
pub open spec fn occurs_at(text: Seq<char>, needle: Seq<char>, at: int) -> bool {
    0 <= at && at + needle.len() <= text.len() && text.subrange(at, at + needle.len()) == needle
}

/// The first position from `from` on at which `needle` stands in `text`.
pub open spec fn find_from(text: Seq<char>, needle: Seq<char>, from: nat) -> Option<nat>
    decreases text.len() - from,
{
    if from + needle.len() > text.len() {
        None
    } else if occurs_at(text, needle, from as int) {
        Some(from)
    } else if from == text.len() {
        None
    } else {
        find_from(text, needle, from + 1)
    }
}

/// The ASCII letter in lower case; any other character as it is.
pub open spec fn lower(c: char) -> char {
    if 'A' <= c <= 'Z' {
        ((c as u8) + 32) as char
    } else {
        c
    }
}

/// A text with its ASCII letters in lower case.
pub open spec fn lowered(text: Seq<char>) -> Seq<char> {
    text.map_values(|c: char| lower(c))
}

/// What `find_from` finds is the first place at which the text stands; where it finds none, there
/// is no such place.
pub proof fn lemma_find_from(text: Seq<char>, needle: Seq<char>, from: nat)
    requires
        from <= text.len(),
    ensures
        match find_from(text, needle, from) {
            Some(at) => {
                &&& from <= at
                &&& occurs_at(text, needle, at as int)
                &&& forall|k: int| from <= k < at ==> !occurs_at(text, needle, k)
            },
            None => forall|k: int| from <= k ==> !occurs_at(text, needle, k),
        },
    decreases text.len() - from,
{
    if from + needle.len() > text.len() || occurs_at(text, needle, from as int) || from
        == text.len() {
    } else {
        lemma_find_from(text, needle, from + 1);
    }
}

/// The characters of a string.
pub(crate) fn to_chars(text: &str) -> (chars: Vec<char>)
    ensures
        chars@ == text@,
{
    let mut chars: Vec<char> = Vec::new();
    for c in it: text.chars()
        invariant
            chars@.len() == it.index(),
            it.seq() == text@,
            forall|j: int| 0 <= j < chars@.len() ==> chars@[j] == text@[j],
    {
        chars.push(c);
    }
    assert(chars@ =~= text@);
    chars
}

/// Whether `needle` stands in `text` at position `at`.
fn matches_at(text: &Vec<char>, needle: &Vec<char>, at: usize) -> (found: bool)
    requires
        at + needle@.len() <= text@.len(),
    ensures
        found == occurs_at(text@, needle@, at as int),
{
    let mut i: usize = 0;
    while i < needle.len()
        invariant
            0 <= i <= needle@.len(),
            at + needle@.len() <= text.len(),
            forall|j: int| 0 <= j < i ==> text@[at + j] == needle@[j],
        decreases needle@.len() - i,
    {
        if text[at + i] != needle[i] {
            assert(text@.subrange(at as int, at + needle@.len())[i as int] != needle@[i as int]);
            return false;
        }
        i = i + 1;
    }
    assert(text@.subrange(at as int, at + needle@.len()) =~= needle@);
    true
}

/// The first position at which `needle` stands in `text`.
pub(crate) fn find(text: &Vec<char>, needle: &Vec<char>) -> (r: Option<usize>)
    ensures
        match r {
            Some(at) => find_from(text@, needle@, 0) == Some(at as nat),
            None => find_from(text@, needle@, 0) is None,
        },
{
    if needle.len() > text.len() {
        return None;
    }
    let last: usize = text.len() - needle.len();
    let mut at: usize = 0;
    loop
        invariant
            0 <= at <= last,
            last == text@.len() - needle@.len(),
            find_from(text@, needle@, 0) == find_from(text@, needle@, at as nat),
        decreases last - at,
    {
        if matches_at(text, needle, at) {
            return Some(at);
        }
        if at == last {
            assert(find_from(text@, needle@, (at + 1) as nat) is None || at == text@.len());
            return None;
        }
        at = at + 1;
    }
}

/// Whether a text is `word` when its ASCII letters are in lower case.
pub(crate) fn is_lowered(text: &Vec<char>, word: &str) -> (same: bool)
    ensures
        same == (lowered(text@) == word@),
{
    let letters: Vec<char> = to_chars(word);
    if text.len() != letters.len() {
        assert(lowered(text@).len() == text@.len());
        return false;
    }
    let mut i: usize = 0;
    while i < text.len()
        invariant
            0 <= i <= text@.len(),
            text@.len() == letters@.len(),
            letters@ == word@,
            forall|j: int| 0 <= j < i ==> lower(text@[j]) == letters@[j],
        decreases text@.len() - i,
    {
        if to_lower(text[i]) != letters[i] {
            assert(lowered(text@)[i as int] != word@[i as int]);
            return false;
        }
        i = i + 1;
    }
    assert(lowered(text@) =~= word@);
    true
}

/// The ASCII letter in lower case; any other character as it is.
fn to_lower(c: char) -> (l: char)
    ensures
        l == lower(c),
{
    if 'A' <= c && c <= 'Z' {
        let small: u8 = (c as u8) + 32;
        small as char
    } else {
        c
    }
}

/// A decimal digit as a text of one character.
fn digit_text(d: u64) -> (text: &'static str)
    requires
        d < 10,
    ensures
        text@ == seq![digit(d as nat)],
{
    proof {
        reveal_strlit("0");
        reveal_strlit("1");
        reveal_strlit("2");
        reveal_strlit("3");
        reveal_strlit("4");
        reveal_strlit("5");
        reveal_strlit("6");
        reveal_strlit("7");
        reveal_strlit("8");
        reveal_strlit("9");
    }
    let text: &'static str = if d == 0 {
        "0"
    } else if d == 1 {
        "1"
    } else if d == 2 {
        "2"
    } else if d == 3 {
        "3"
    } else if d == 4 {
        "4"
    } else if d == 5 {
        "5"
    } else if d == 6 {
        "6"
    } else if d == 7 {
        "7"
    } else if d == 8 {
        "8"
    } else {
        "9"
    };
    assert(text@ =~= seq![digit(d as nat)]);
    text
}

/// Writes a number in decimal behind a text.
pub(crate) fn append_decimal(text: &mut String, n: u64)
    ensures
        final(text)@ == old(text)@ + decimal(n as nat),
    decreases n,
{
    if n >= 10 {
        append_decimal(text, n / 10);
    }
    text.append(digit_text(n % 10));
    assert(text@ =~= old(text)@ + decimal(n as nat));
}

/// Writes a signed number in decimal behind a text.
pub(crate) fn append_signed(text: &mut String, n: i64)
    ensures
        final(text)@ == old(text)@ + signed_decimal(n as int),
{
    if n < 0 {
        proof {
            reveal_strlit("-");
        }
        text.append("-");
        let magnitude: u64 = (-(n as i128)) as u64;
        append_decimal(text, magnitude);
        assert(text@ =~= old(text)@ + signed_decimal(n as int));
    } else {
        append_decimal(text, n as u64);
    }
}

/// Writes the parts one behind the other, with a separator between any two.
pub(crate) fn join(parts: &Vec<String>, separator: &str) -> (text: String)
    ensures
        text@ == joined(texts(parts@), separator@),
{
    let mut text: String = String::new();
    let mut i: usize = 0;
    while i < parts.len()
        invariant
            0 <= i <= parts@.len(),
            text@ == joined(texts(parts@).take(i as int), separator@),
        decreases parts@.len() - i,
    {
        if i > 0 {
            text.append(separator);
        }
        text.append(parts[i].as_str());
        proof {
            let all = texts(parts@);
            let next = all.take(i + 1);
            assert(next.drop_last() =~= all.take(i as int));
            assert(next.last() == all[i as int]);
            assert(text@ =~= joined(next, separator@));
        }
        i = i + 1;
    }
    assert(texts(parts@).take(i as int) =~= texts(parts@));
    text
}

/// A number in decimal ends in the digit of its units, before which stands the number of its tens;
/// a number below ten is its digit alone.
pub proof fn law_decimal_digits(n: nat)
    ensures
        decimal(n).len() > 0,
        decimal(n).last() as nat == '0' as nat + n % 10,
        n < 10 ==> decimal(n).len() == 1,
        n >= 10 ==> decimal(n).drop_last() == decimal(n / 10),
{
    if n >= 10 {
        assert(decimal(n).drop_last() =~= decimal(n / 10));
    }
}

/// Two numbers are not written alike.
pub proof fn law_decimal_tells(a: nat, b: nat)
    requires
        decimal(a) == decimal(b),
    ensures
        a == b,
    decreases a,
{
    law_decimal_digits(a);
    law_decimal_digits(b);
    if a >= 10 {
        lemma_decimal_starts(a / 10);
        lemma_decimal_starts(b / 10);
        if b < 10 {
            assert(decimal(a).len() == 1);
            law_decimal_digits(a / 10);
            assert(decimal(a / 10).len() == 0);
        }
        law_decimal_tells(a / 10, b / 10);
    } else if b >= 10 {
        law_decimal_digits(b / 10);
        assert(decimal(b / 10).len() == 0);
    }
}

/// A number in decimal starts with a digit.
proof fn lemma_decimal_starts(n: nat)
    ensures
        decimal(n).len() > 0,
        '0' <= decimal(n)[0] <= '9',
    decreases n,
{
    if n >= 10 {
        lemma_decimal_starts(n / 10);
        assert(decimal(n)[0] == decimal(n / 10)[0]);
    }
}

/// A negative number is its size with a minus sign before it, any other is its size alone; and no two
/// numbers are written alike.
pub proof fn law_signed_decimal_tells(a: int, b: int)
    ensures
        a >= 0 ==> signed_decimal(a) == decimal(a as nat),
        a < 0 ==> {
            &&& signed_decimal(a)[0] == '-'
            &&& signed_decimal(a).drop_first() == decimal((-a) as nat)
        },
        signed_decimal(a) == signed_decimal(b) ==> a == b,
{
    if a < 0 {
        assert(signed_decimal(a).drop_first() =~= decimal((-a) as nat));
    } else {
        lemma_decimal_starts(a as nat);
    }
    if b < 0 {
        assert(signed_decimal(b).drop_first() =~= decimal((-b) as nat));
    } else {
        lemma_decimal_starts(b as nat);
    }
    if signed_decimal(a) == signed_decimal(b) {
        if a < 0 && b < 0 {
            law_decimal_tells((-a) as nat, (-b) as nat);
        } else if a >= 0 && b >= 0 {
            law_decimal_tells(a as nat, b as nat);
        }
    }
}

/// A text is found exactly if it stands somewhere, and it is found where it stands first.
pub proof fn law_found_where_it_stands_first(text: Seq<char>, needle: Seq<char>)
    ensures
        match find_from(text, needle, 0) {
            Some(at) => {
                &&& at + needle.len() <= text.len()
                &&& text.subrange(at as int, (at + needle.len()) as int) == needle
                &&& forall|k: int|
                    0 <= k < at ==> #[trigger] text.subrange(k, k + needle.len()) != needle
            },
            None => forall|k: int|
                0 <= k <= text.len() - needle.len() ==> #[trigger] text.subrange(
                    k,
                    k + needle.len(),
                ) != needle,
        },
{
    lemma_find_from(text, needle, 0);
    match find_from(text, needle, 0) {
        Some(at) => {
            assert forall|k: int| 0 <= k < at implies #[trigger] text.subrange(
                k,
                k + needle.len(),
            ) != needle by {
                assert(!occurs_at(text, needle, k));
            }
        },
        None => {
            assert forall|k: int| 0 <= k <= text.len() - needle.len() implies #[trigger]
            text.subrange(k, k + needle.len()) != needle by {
                assert(!occurs_at(text, needle, k));
            }
        },
    }
}

/// Only capital letters of ASCII change, each to the small letter 32 places on, and a text keeps its
/// length.
pub proof fn law_lowered_letters(text: Seq<char>, i: int)
    requires
        0 <= i < text.len(),
    ensures
        lowered(text).len() == text.len(),
        'A' <= text[i] <= 'Z' ==> lowered(text)[i] as nat == text[i] as nat + 32,
        !('A' <= text[i] <= 'Z') ==> lowered(text)[i] == text[i],
{
}

/// Parts that are joined keep their order: the first comes alone, and each further one behind a
/// separator.
pub proof fn law_joined_in_order(parts: Seq<Seq<char>>, last: Seq<char>, separator: Seq<char>)
    ensures
        joined(Seq::empty(), separator).len() == 0,
        parts.len() == 0 ==> joined(parts.push(last), separator) == last,
        parts.len() > 0 ==> joined(parts.push(last), separator) == joined(parts, separator)
            + separator + last,
{
    assert(parts.push(last).drop_last() =~= parts);
}

}
