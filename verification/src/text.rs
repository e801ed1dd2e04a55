//! Reading and writing the short texts of control files and mount options.

use vstd::prelude::*;
use crate::bytes::{push_bytes, same_bytes};

verus! {

/// Whether two strings are the same text.
pub fn same_text(a: &str, b: &str) -> (same: bool)
    ensures
        same == (a@ == b@),
{
    let same = same_bytes(a.as_bytes(), b.as_bytes());
    proof {
        vstd::utf8::encode_utf8_decode_utf8(a@);
        vstd::utf8::encode_utf8_decode_utf8(b@);
    }
    same
}

/// Whether a list of strings holds a text.
pub open spec fn lists(names: Seq<String>, name: Seq<char>) -> bool {
    exists|i: int| 0 <= i < names.len() && (#[trigger] names[i])@ == name
}

pub fn list_contains(names: &Vec<String>, name: &str) -> (found: bool)
    ensures
        found == lists(names@, name@),
{
    let mut index: usize = 0;
    while index < names.len()
        invariant
            index <= names@.len(),
            forall|i: int| 0 <= i < index ==> (#[trigger] names@[i])@ != name@,
        decreases names@.len() - index,
    {
        if same_text(names[index].as_str(), name) {
            return true;
        }
        index = index + 1;
    }
    false
}

/// Append a text.
pub fn push_text(out: &mut Vec<u8>, text: &str)
    ensures
        final(out)@ == old(out)@ + vstd::utf8::encode_utf8(text@),
{
    push_bytes(out, text.as_bytes());
}

/// `core::str::from_utf8`: the text that the bytes encode, where they are UTF-8.
#[verifier::external_body]
pub(crate) fn decoded(data: &[u8]) -> (text: Option<&str>)
    ensures
        text is Some == vstd::utf8::valid_utf8(data@),
        text is Some ==> text->0@ == vstd::utf8::decode_utf8(data@),
{
    core::str::from_utf8(data).ok()
}

/// The text that some bytes encode.
pub open spec fn text_of(data: Seq<u8>) -> Option<Seq<char>> {
    if vstd::utf8::valid_utf8(data) {
        Some(vstd::utf8::decode_utf8(data))
    } else {
        None
    }
}

pub fn chars_of(text: &str) -> (chars: Vec<char>)
    ensures
        chars@ == text@,
{
    let mut chars: Vec<char> = Vec::new();
    for c in iter: text.chars()
        invariant
            chars@ == iter.seq().take(iter.index() as int),
            iter.seq() == text@,
    {
        chars.push(c);
        assert(iter.seq().take(iter.index() as int + 1) =~= iter.seq().take(
            iter.index() as int,
        ).push(c));
    }
    assert(text@.take(text@.len() as int) =~= text@);
    chars
}

/// The text that some bytes encode, as characters.
pub fn text_chars(data: &[u8]) -> (chars: Option<Vec<char>>)
    ensures
        chars is Some == text_of(data@) is Some,
        chars is Some ==> chars->0@ == text_of(data@)->0,
{
    match decoded(data) {
        Some(text) => Some(chars_of(text)),
        None => None,
    }
}

/// Whether a character is white space in Unicode.
pub open spec fn is_space(c: char) -> bool {
    ||| '\u{9}' <= c <= '\u{d}'
    ||| c == ' '
    ||| c == '\u{85}'
    ||| c == '\u{a0}'
    ||| c == '\u{1680}'
    ||| '\u{2000}' <= c <= '\u{200a}'
    ||| c == '\u{2028}'
    ||| c == '\u{2029}'
    ||| c == '\u{202f}'
    ||| c == '\u{205f}'
    ||| c == '\u{3000}'
}

/// Whether a character is white space in ASCII.
pub open spec fn is_ascii_space(c: char) -> bool {
    c == ' ' || c == '\t' || c == '\n' || c == '\u{c}' || c == '\r'
}

fn space(c: char) -> (space: bool)
    ensures
        space == is_space(c),
{
    ('\u{9}' <= c && c <= '\u{d}') || c == ' ' || c == '\u{85}' || c == '\u{a0}' || c == '\u{1680}'
        || ('\u{2000}' <= c && c <= '\u{200a}') || c == '\u{2028}' || c == '\u{2029}' || c
        == '\u{202f}' || c == '\u{205f}' || c == '\u{3000}'
}

fn ascii_space(c: char) -> (space: bool)
    ensures
        space == is_ascii_space(c),
{
    c == ' ' || c == '\t' || c == '\n' || c == '\u{c}' || c == '\r'
}

/// A text without the white space before it.
pub open spec fn left_trimmed(s: Seq<char>) -> Seq<char>
    decreases s.len(),
{
    if s.len() > 0 && is_space(s[0]) {
        left_trimmed(s.subrange(1, s.len() as int))
    } else {
        s
    }
}

/// A text without the white space after it.
pub open spec fn right_trimmed(s: Seq<char>) -> Seq<char>
    decreases s.len(),
{
    if s.len() > 0 && is_space(s[s.len() - 1]) {
        right_trimmed(s.subrange(0, s.len() - 1))
    } else {
        s
    }
}

/// A text without the white space around it.
pub open spec fn trimmed(s: Seq<char>) -> Seq<char> {
    right_trimmed(left_trimmed(s))
}

/// The part of `chars` from `from` to `to`.
pub fn part(chars: &Vec<char>, from: usize, to: usize) -> (part: Vec<char>)
    requires
        from <= to <= chars@.len(),
    ensures
        part@ == chars@.subrange(from as int, to as int),
{
    let mut part: Vec<char> = Vec::new();
    let mut index: usize = from;
    while index < to
        invariant
            from <= index <= to <= chars@.len(),
            part@ == chars@.subrange(from as int, index as int),
        decreases to - index,
    {
        part.push(chars[index]);
        assert(chars@.subrange(from as int, index as int + 1) =~= chars@.subrange(
            from as int,
            index as int,
        ).push(chars@[index as int]));
        index = index + 1;
    }
    part
}

pub fn trim(chars: &Vec<char>) -> (rest: Vec<char>)
    ensures
        rest@ == trimmed(chars@),
{
    let mut from: usize = 0;
    assert(chars@.subrange(0, chars@.len() as int) =~= chars@);
    while from < chars.len() && space(chars[from])
        invariant
            from <= chars@.len(),
            left_trimmed(chars@) == left_trimmed(
                chars@.subrange(from as int, chars@.len() as int),
            ),
        decreases chars@.len() - from,
    {
        assert(chars@.subrange(from as int, chars@.len() as int).subrange(
            1,
            chars@.len() - from,
        ) =~= chars@.subrange(from as int + 1, chars@.len() as int));
        from = from + 1;
    }
    assert(left_trimmed(chars@) == chars@.subrange(from as int, chars@.len() as int));
    let mut to: usize = chars.len();
    while from < to && space(chars[to - 1])
        invariant
            from <= to <= chars@.len(),
            trimmed(chars@) == right_trimmed(chars@.subrange(from as int, to as int)),
        decreases to - from,
    {
        assert(chars@.subrange(from as int, to as int).subrange(0, to - from - 1) =~= chars@.subrange(
            from as int,
            to - 1,
        ));
        to = to - 1;
    }
    part(chars, from, to)
}

/// The parts of a text between separators.
pub open spec fn split(s: Seq<char>, by: char) -> Seq<Seq<char>>
    decreases s.len(),
{
    if s.len() == 0 {
        seq![Seq::empty()]
    } else {
        let before = split(s.subrange(0, s.len() - 1), by);
        if s[s.len() - 1] == by {
            before.push(Seq::empty())
        } else {
            before.update(before.len() - 1, before[before.len() - 1].push(s[s.len() - 1]))
        }
    }
}

/// Texts as the sequences of their characters.
pub open spec fn views(parts: Seq<Vec<char>>) -> Seq<Seq<char>> {
    parts.map_values(|p: Vec<char>| p@)
}

pub fn split_on(chars: &Vec<char>, by: char) -> (parts: Vec<Vec<char>>)
    ensures
        views(parts@) == split(chars@, by),
{
    let mut parts: Vec<Vec<char>> = Vec::new();
    let mut current: Vec<char> = Vec::new();
    let mut index: usize = 0;
    assert(chars@.subrange(0, 0) =~= Seq::empty());
    assert(views(parts@).push(current@) =~= seq![Seq::<char>::empty()]);
    while index < chars.len()
        invariant
            index <= chars@.len(),
            views(parts@).push(current@) == split(chars@.subrange(0, index as int), by),
        decreases chars@.len() - index,
    {
        let c: char = chars[index];
        let ghost done = chars@.subrange(0, index as int + 1);
        let ghost before = split(chars@.subrange(0, index as int), by);
        assert(done.subrange(0, done.len() - 1) =~= chars@.subrange(0, index as int));
        assert(done[done.len() - 1] == c);
        if c == by {
            let ghost held = parts@;
            let ghost last = current@;
            parts.push(current);
            current = Vec::new();
            assert(views(parts@) =~= views(held).push(last));
            assert(views(parts@).push(current@) =~= before.push(Seq::empty()));
        } else {
            let ghost last = current@;
            current.push(c);
            assert(views(parts@).push(current@) =~= before.update(
                before.len() - 1,
                last.push(c),
            ));
        }
        index = index + 1;
    }
    assert(chars@.subrange(0, chars@.len() as int) =~= chars@);
    let ghost held = parts@;
    let ghost last = current@;
    parts.push(current);
    assert(views(parts@) =~= views(held).push(last));
    parts
}

/// The words of a text: what stands between ASCII white space, and what follows
/// the last of it.
pub open spec fn words_and_rest(s: Seq<char>) -> (Seq<Seq<char>>, Seq<char>)
    decreases s.len(),
{
    if s.len() == 0 {
        (Seq::empty(), Seq::empty())
    } else {
        let (words, rest) = words_and_rest(s.subrange(0, s.len() - 1));
        let c = s[s.len() - 1];
        if !is_ascii_space(c) {
            (words, rest.push(c))
        } else if rest.len() == 0 {
            (words, rest)
        } else {
            (words.push(rest), Seq::empty())
        }
    }
}

/// The words of a text, which ASCII white space parts.
pub open spec fn words(s: Seq<char>) -> Seq<Seq<char>> {
    let (words, rest) = words_and_rest(s);
    if rest.len() == 0 {
        words
    } else {
        words.push(rest)
    }
}

pub fn words_of(chars: &Vec<char>) -> (found: Vec<Vec<char>>)
    ensures
        views(found@) == words(chars@),
{
    let mut found: Vec<Vec<char>> = Vec::new();
    let mut rest: Vec<char> = Vec::new();
    let mut index: usize = 0;
    assert(chars@.subrange(0, 0) =~= Seq::empty());
    assert(views(found@) =~= Seq::empty());
    while index < chars.len()
        invariant
            index <= chars@.len(),
            (views(found@), rest@) == words_and_rest(chars@.subrange(0, index as int)),
        decreases chars@.len() - index,
    {
        let c: char = chars[index];
        let ghost done = chars@.subrange(0, index as int + 1);
        assert(done.subrange(0, done.len() - 1) =~= chars@.subrange(0, index as int));
        assert(done[done.len() - 1] == c);
        if !ascii_space(c) {
            rest.push(c);
        } else if rest.len() > 0 {
            let ghost held = found@;
            let ghost last = rest@;
            found.push(rest);
            rest = Vec::new();
            assert(views(found@) =~= views(held).push(last));
            assert(rest@ =~= Seq::empty());
        }
        index = index + 1;
    }
    assert(chars@.subrange(0, chars@.len() as int) =~= chars@);
    if rest.len() > 0 {
        let ghost held = found@;
        let ghost last = rest@;
        found.push(rest);
        assert(views(found@) =~= views(held).push(last));
    }
    found
}

/// Whether characters are those of a text.
pub fn is_text(chars: &Vec<char>, text: &str) -> (same: bool)
    ensures
        same == (chars@ == text@),
{
    let expected = chars_of(text);
    if chars.len() != expected.len() {
        return false;
    }
    let mut index: usize = 0;
    while index < chars.len()
        invariant
            index <= chars@.len(),
            chars@.len() == expected@.len(),
            expected@ == text@,
            forall|i: int| 0 <= i < index ==> chars@[i] == expected@[i],
        decreases chars@.len() - index,
    {
        if chars[index] != expected[index] {
            return false;
        }
        index = index + 1;
    }
    assert(chars@ =~= expected@);
    true
}

/// Whether a list of strings holds a text.
pub fn lists_chars(names: &Vec<String>, name: &Vec<char>) -> (found: bool)
    ensures
        found == lists(names@, name@),
{
    let mut index: usize = 0;
    while index < names.len()
        invariant
            index <= names@.len(),
            forall|i: int| 0 <= i < index ==> (#[trigger] names@[i])@ != name@,
        decreases names@.len() - index,
    {
        if is_text(name, names[index].as_str()) {
            return true;
        }
        index = index + 1;
    }
    false
}

/// The number that decimal digits write.
pub open spec fn digits_value(s: Seq<char>) -> nat
    decreases s.len(),
{
    if s.len() == 0 {
        0
    } else {
        digits_value(s.subrange(0, s.len() - 1)) * 10 + (s[s.len() - 1] as int - '0' as int) as nat
    }
}

pub open spec fn is_digit(c: char) -> bool {
    '0' <= c <= '9'
}

/// The digits of a number that may have a plus sign before it.
pub open spec fn unsigned(s: Seq<char>) -> Seq<char> {
    if s.len() > 0 && s[0] == '+' {
        s.subrange(1, s.len() as int)
    } else {
        s
    }
}

/// The number that a text writes in decimal, up to a largest one.
pub open spec fn number(s: Seq<char>, max: nat) -> Option<nat> {
    let digits = unsigned(s);
    if digits.len() > 0 && (forall|i: int|
        0 <= i < digits.len() ==> is_digit(#[trigger] digits[i])) && digits_value(digits) <= max {
        Some(digits_value(digits))
    } else {
        None
    }
}

/// A longer run of digits writes no smaller number.
pub proof fn more_digits_are_no_less(s: Seq<char>, n: int)
    requires
        0 <= n <= s.len(),
    ensures
        digits_value(s.subrange(0, n)) <= digits_value(s),
    decreases s.len() - n,
{
    if n == s.len() {
        assert(s.subrange(0, n) =~= s);
    } else {
        more_digits_are_no_less(s, n + 1);
        assert(s.subrange(0, n + 1).subrange(0, n) =~= s.subrange(0, n));
    }
}

/// Read a number up to `max`.
pub fn parse_number(chars: &Vec<char>, max: u64) -> (value: Option<u64>)
    ensures
        value == (match number(chars@, max as nat) {
            Some(n) => Some(n as u64),
            None => None,
        }),
{
    let from: usize = if chars.len() > 0 && chars[0] == '+' {
        1
    } else {
        0
    };
    let ghost digits = unsigned(chars@);
    assert(digits =~= chars@.subrange(from as int, chars@.len() as int));
    if from == chars.len() {
        return None;
    }
    let mut value: u64 = 0;
    let mut index: usize = from;
    assert(digits.subrange(0, 0) =~= Seq::empty());
    while index < chars.len()
        invariant
            from <= index <= chars@.len(),
            digits == chars@.subrange(from as int, chars@.len() as int),
            digits == unsigned(chars@),
            digits.len() > 0,
            value == digits_value(digits.subrange(0, index - from)),
            value <= max,
            forall|i: int| 0 <= i < index - from ==> is_digit(#[trigger] digits[i]),
        decreases chars@.len() - index,
    {
        let c: char = chars[index];
        assert(digits[index - from] == c);
        if !('0' <= c && c <= '9') {
            return None;
        }
        let digit: u64 = c as u64 - '0' as u64;
        let ghost done = digits.subrange(0, index - from + 1);
        assert(done.subrange(0, done.len() - 1) =~= digits.subrange(0, index - from));
        assert(digits_value(done) == value * 10 + digit);
        let next: u128 = value as u128 * 10 + digit as u128;
        if next > max as u128 {
            proof {
                more_digits_are_no_less(digits, index - from + 1);
            }
            return None;
        }
        value = next as u64;
        index = index + 1;
    }
    assert(digits.subrange(0, digits.len() as int) =~= digits);
    Some(value)
}

/// The decimal digits of a number.
pub open spec fn decimal(n: nat) -> Seq<u8>
    decreases n,
{
    if n < 10 {
        seq![(48 + n) as u8]
    } else {
        decimal(n / 10).push((48 + n % 10) as u8)
    }
}

/// Append the decimal digits of a number.
pub fn push_decimal(out: &mut Vec<u8>, n: u128)
    ensures
        final(out)@ == old(out)@ + decimal(n as nat),
    decreases n,
{
    if n < 10 {
        out.push(48 + n as u8);
        assert(out@ =~= old(out)@ + decimal(n as nat));
    } else {
        push_decimal(out, n / 10);
        out.push(48 + (n % 10) as u8);
        assert(out@ =~= old(out)@ + decimal(n as nat));
    }
}

/// The bytes of digits, as characters.
pub open spec fn as_chars(digits: Seq<u8>) -> Seq<char> {
    digits.map_values(|b: u8| b as char)
}

/// A number's decimal digits write that number.
pub proof fn law_decimal_digits_read_back(n: nat)
    ensures
        number(as_chars(decimal(n)), n) == Some(n),
{
    decimal_is_digits(n);
    let s = as_chars(decimal(n));
    assert(is_digit(s[0]));
    assert(unsigned(s) == s);
}

/// Decimal digits are digits, and their value is the number.
pub proof fn decimal_is_digits(n: nat)
    ensures
        decimal(n).len() > 0,
        forall|i: int| 0 <= i < decimal(n).len() ==> is_digit(#[trigger] as_chars(decimal(n))[i]),
        digits_value(as_chars(decimal(n))) == n,
    decreases n,
{
    let s = as_chars(decimal(n));
    if n < 10 {
        assert(s.subrange(0, 0) =~= Seq::empty());
        reveal_with_fuel(digits_value, 2);
    } else {
        decimal_is_digits(n / 10);
        let rest = as_chars(decimal(n / 10));
        assert(s.subrange(0, s.len() - 1) =~= rest);
        assert forall|i: int| 0 <= i < s.len() implies is_digit(#[trigger] s[i]) by {
            if i < s.len() - 1 {
                assert(s[i] == rest[i]);
            }
        }
    }
}

proof fn left_trim_ends(s: Seq<char>, n: int)
    requires
        0 <= n <= s.len(),
        forall|i: int| 0 <= i < n ==> is_space(#[trigger] s[i]),
        n < s.len() ==> !is_space(s[n]),
    ensures
        left_trimmed(s) == s.subrange(n, s.len() as int),
    decreases n,
{
    if n > 0 {
        let rest = s.subrange(1, s.len() as int);
        assert(is_space(s[0]));
        assert forall|i: int| 0 <= i < n - 1 implies is_space(#[trigger] rest[i]) by {
            assert(rest[i] == s[i + 1]);
        }
        left_trim_ends(rest, n - 1);
        assert(rest.subrange(n - 1, rest.len() as int) =~= s.subrange(n, s.len() as int));
    } else {
        assert(s.subrange(0, s.len() as int) =~= s);
    }
}

proof fn right_trim_ends(s: Seq<char>, n: int)
    requires
        0 <= n <= s.len(),
        forall|i: int| n <= i < s.len() ==> is_space(#[trigger] s[i]),
        n > 0 ==> !is_space(s[n - 1]),
    ensures
        right_trimmed(s) == s.subrange(0, n),
    decreases s.len() - n,
{
    if n < s.len() {
        let rest = s.subrange(0, s.len() - 1);
        assert(is_space(s[s.len() - 1]));
        right_trim_ends(rest, n);
        assert(rest.subrange(0, n) =~= s.subrange(0, n));
    } else {
        assert(s.subrange(0, n) =~= s);
    }
}

/// White space around a text is cut off, and nothing else of it.
pub proof fn law_white_space_around_a_text_is_cut(front: Seq<char>, core: Seq<char>, back: Seq<char>)
    requires
        forall|i: int| 0 <= i < front.len() ==> is_space(#[trigger] front[i]),
        forall|i: int| 0 <= i < back.len() ==> is_space(#[trigger] back[i]),
        core.len() > 0 ==> !is_space(core[0]) && !is_space(core.last()),
    ensures
        trimmed(front + core + back) == core,
{
    let s = front + core + back;
    if core.len() > 0 {
        left_trim_ends(s, front.len() as int);
        let t = core + back;
        assert(s.subrange(front.len() as int, s.len() as int) =~= t);
        right_trim_ends(t, core.len() as int);
        assert(t.subrange(0, core.len() as int) =~= core);
    } else {
        left_trim_ends(s, s.len() as int);
        assert(s.subrange(s.len() as int, s.len() as int) =~= Seq::<char>::empty());
        assert(core =~= Seq::<char>::empty());
    }
}

/// A text falls into its parts at every separator: the parts of two texts with a separator between
/// them are the parts of the first and then those of the second, and a text without one is its only
/// part.
pub proof fn law_parts_are_between_separators(a: Seq<char>, b: Seq<char>, by: char)
    ensures
        split(a.push(by) + b, by) == split(a, by) + split(b, by),
        !a.contains(by) ==> split(a, by) == seq![a],
        split(a, by).len() > 0,
    decreases b.len(), a.len(),
{
    split_is_never_empty(a, by);
    split_is_never_empty(b, by);
    if b.len() == 0 {
        let all = a.push(by) + b;
        assert(all =~= a.push(by));
        assert(all.subrange(0, all.len() - 1) =~= a);
        assert(split(all, by) =~= split(a, by) + split(b, by));
    } else {
        let last = b[b.len() - 1];
        let rest = b.subrange(0, b.len() - 1);
        law_parts_are_between_separators(a, rest, by);
        split_is_never_empty(rest, by);
        let all = a.push(by) + b;
        assert(all.subrange(0, all.len() - 1) =~= a.push(by) + rest);
        assert(all[all.len() - 1] == last);
        assert(split(all, by) =~= split(a, by) + split(b, by));
    }
    if !a.contains(by) {
        one_part(a, by);
    }
}

proof fn one_part(a: Seq<char>, by: char)
    requires
        !a.contains(by),
    ensures
        split(a, by) == seq![a],
    decreases a.len(),
{
    if a.len() > 0 {
        let rest = a.subrange(0, a.len() - 1);
        assert(!rest.contains(by)) by {
            if rest.contains(by) {
                let i = choose|i: int| 0 <= i < rest.len() && rest[i] == by;
                assert(a[i] == by);
            }
        }
        one_part(rest, by);
        assert(a[a.len() - 1] != by);
        assert(rest.push(a[a.len() - 1]) =~= a);
        assert(split(a, by) =~= seq![a]);
    } else {
        assert(a =~= Seq::<char>::empty());
        assert(split(a, by) =~= seq![a]);
    }
}

proof fn split_is_never_empty(s: Seq<char>, by: char)
    ensures
        split(s, by).len() > 0,
    decreases s.len(),
{
    if s.len() > 0 {
        split_is_never_empty(s.subrange(0, s.len() - 1), by);
    }
}

/// The words of a text are what stands between its white space: the words of two texts with a space
/// between them are those of the first and then those of the second, and a text without white
/// space is its only word.
pub proof fn law_words_are_between_spaces(a: Seq<char>, space: char, b: Seq<char>)
    requires
        is_ascii_space(space),
    ensures
        words(a.push(space) + b) == words(a) + words(b),
        a.len() > 0 && (forall|i: int| 0 <= i < a.len() ==> !is_ascii_space(#[trigger] a[i]))
            ==> words(a) == seq![a],
        words(Seq::empty()) == Seq::<Seq<char>>::empty(),
{
    words_so_far(a, space, b);
    let all = words_and_rest(a.push(space) + b);
    let second = words_and_rest(b);
    if second.1.len() == 0 {
        assert(words(a.push(space) + b) =~= words(a) + words(b));
    } else {
        assert(words(a.push(space) + b) =~= words(a) + words(b));
    }
    if a.len() > 0 && (forall|i: int| 0 <= i < a.len() ==> !is_ascii_space(#[trigger] a[i])) {
        one_word(a);
        assert(words(a) =~= seq![a]);
    }
}

proof fn words_so_far(a: Seq<char>, space: char, b: Seq<char>)
    requires
        is_ascii_space(space),
    ensures
        words_and_rest(a.push(space) + b) == (words(a) + words_and_rest(b).0, words_and_rest(b).1),
    decreases b.len(),
{
    let all = a.push(space) + b;
    if b.len() == 0 {
        assert(all =~= a.push(space));
        assert(all.subrange(0, all.len() - 1) =~= a);
        assert(words(a) + words_and_rest(b).0 =~= words(a));
    } else {
        let rest = b.subrange(0, b.len() - 1);
        words_so_far(a, space, rest);
        assert(all.subrange(0, all.len() - 1) =~= a.push(space) + rest);
        assert(all[all.len() - 1] == b[b.len() - 1]);
        assert(words(a) + words_and_rest(b).0 =~= words_and_rest(all).0);
    }
}

proof fn one_word(a: Seq<char>)
    requires
        forall|i: int| 0 <= i < a.len() ==> !is_ascii_space(#[trigger] a[i]),
    ensures
        words_and_rest(a) == (Seq::<Seq<char>>::empty(), a),
    decreases a.len(),
{
    if a.len() > 0 {
        let rest = a.subrange(0, a.len() - 1);
        assert forall|i: int| 0 <= i < rest.len() implies !is_ascii_space(#[trigger] rest[i]) by {
            assert(rest[i] == a[i]);
        }
        one_word(rest);
        assert(!is_ascii_space(a[a.len() - 1]));
        assert(rest.push(a[a.len() - 1]) =~= a);
    } else {
        assert(a =~= Seq::<char>::empty());
    }
}

/// A text is a number only where it is digits, with a plus sign before them at most; one more digit
/// is ten times the number and the digit, and a number over the largest is refused.
pub proof fn law_numbers_are_read_by_their_digits(s: Seq<char>, c: char, max: nat)
    requires
        s.len() > 0,
        s[0] != '+',
    ensures
        number(s, max) is Some && '0' <= c <= '9' && 10 * number(s, max)->0 + (c as int - '0' as int)
            <= max ==> number(s.push(c), max) == Some(
            (10 * number(s, max)->0 + (c as int - '0' as int)) as nat,
        ),
        !('0' <= c <= '9') ==> number(s.push(c), max) is None,
        number(seq!['+'] + s, max) == number(s, max),
        number(s, max) is Some ==> number(s, max)->0 <= max,
        number(Seq::empty(), max) is None,
{
    let more = s.push(c);
    assert(unsigned(s) == s && unsigned(more) == more);
    assert(more.subrange(0, more.len() - 1) =~= s);
    if '0' <= c <= '9' && number(s, max) is Some {
        assert forall|i: int| 0 <= i < more.len() implies is_digit(#[trigger] more[i]) by {
            if i < s.len() {
                assert(more[i] == s[i]);
            }
        }
    } else if !('0' <= c <= '9') {
        assert(!is_digit(more[s.len() as int]));
    }
    assert(unsigned(seq!['+'] + s) =~= s);
}

} // verus!
