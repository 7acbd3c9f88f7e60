//! Text handling: case folding, trimming, searching and number rendering.

use vstd::prelude::*;
use vstd::string::*;

verus! {

/// `String::push` appends one character.
pub assume_specification[ String::push ](text: &mut String, c: char)
    ensures
        final(text)@ == old(text)@.push(c),
;

/// The lower-case form of an ASCII capital; other characters stay.
pub open spec fn lower_char(c: char) -> char {
    if 'A' <= c && c <= 'Z' {
        ((c as u8 + 32) as u8) as char
    } else {
        c
    }
}

/// The text with its ASCII capitals folded.
pub open spec fn lowered(text: Seq<char>) -> Seq<char> {
    text.map_values(|c: char| lower_char(c))
}

/// The characters of a text.
pub fn chars_of(text: &str) -> (chars: Vec<char>)
    ensures
        chars@ == text@,
{
    let mut chars: Vec<char> = Vec::new();
    for c in it: text.chars()
        invariant
            it.seq() == text@,
            chars@ == text@.take(it.index()),
    {
        assert(text@.take(it.index() + 1) =~= text@.take(it.index()).push(c));
        chars.push(c);
    }
    assert(text@.take(text@.len() as int) =~= text@);
    chars
}

/// The text of the characters from `from` up to `to`.
pub fn text_between(chars: &Vec<char>, from: usize, to: usize) -> (text: String)
    requires
        from <= to <= chars@.len(),
    ensures
        text@ == chars@.subrange(from as int, to as int),
{
    let mut text = String::new();
    let mut i: usize = from;
    while i < to
        invariant
            from <= i <= to <= chars@.len(),
            text@ == chars@.subrange(from as int, i as int),
        decreases to - i,
    {
        assert(chars@.subrange(from as int, i + 1) =~= chars@.subrange(from as int, i as int).push(
            chars@[i as int],
        ));
        text.push(chars[i]);
        i = i + 1;
    }
    text
}

pub fn lower(text: &str) -> (folded: String)
    ensures
        folded@ == lowered(text@),
{
    let chars = chars_of(text);
    let mut folded = String::new();
    let mut i: usize = 0;
    while i < chars.len()
        invariant
            i <= chars@.len(),
            chars@ == text@,
            folded@ == lowered(text@.take(i as int)),
        decreases chars@.len() - i,
    {
        let c = chars[i];
        assert(lowered(text@.take(i + 1)) =~= lowered(text@.take(i as int)).push(lower_char(c)));
        if 'A' <= c && c <= 'Z' {
            folded.push((c as u8 + 32) as char);
        } else {
            folded.push(c);
        }
        i = i + 1;
    }
    assert(text@.take(text@.len() as int) =~= text@);
    folded
}

/// Whether two texts are the same.
pub fn same_text(one: &str, other: &str) -> (same: bool)
    ensures
        same == (one@ == other@),
{
    one.to_owned() == other.to_owned()
}

/// Characters with the Unicode property White_Space.
pub open spec fn white_space(c: char) -> bool {
    let code = c as u32;
    ||| 0x09 <= code <= 0x0d
    ||| code == 0x20
    ||| code == 0x85
    ||| code == 0xa0
    ||| code == 0x1680
    ||| 0x2000 <= code <= 0x200a
    ||| code == 0x2028
    ||| code == 0x2029
    ||| code == 0x202f
    ||| code == 0x205f
    ||| code == 0x3000
}

pub fn is_white_space(c: char) -> (yes: bool)
    ensures
        yes == white_space(c),
{
    let code: u32 = c as u32;
    (0x09 <= code && code <= 0x0d) || code == 0x20 || code == 0x85 || code == 0xa0 || code == 0x1680
        || (0x2000 <= code && code <= 0x200a) || code == 0x2028 || code == 0x2029 || code == 0x202f
        || code == 0x205f || code == 0x3000
}

/// The text without the white space at its start.
pub open spec fn trimmed_start(text: Seq<char>) -> Seq<char>
    decreases text.len(),
{
    if text.len() > 0 && white_space(text.first()) {
        trimmed_start(text.skip(1))
    } else {
        text
    }
}

/// The text without the white space at its end.
pub open spec fn trimmed_end(text: Seq<char>) -> Seq<char>
    decreases text.len(),
{
    if text.len() > 0 && white_space(text.last()) {
        trimmed_end(text.drop_last())
    } else {
        text
    }
}

/// The text without the white space at either end.
pub open spec fn trimmed(text: Seq<char>) -> Seq<char> {
    trimmed_end(trimmed_start(text))
}

pub fn trim(text: &str) -> (rest: String)
    ensures
        rest@ == trimmed(text@),
{
    let chars = chars_of(text);
    let mut from: usize = 0;
    assert(text@.skip(0) =~= text@);
    while from < chars.len() && is_white_space(chars[from])
        invariant
            from <= chars@.len(),
            chars@ == text@,
            trimmed_start(text@) == trimmed_start(text@.skip(from as int)),
        decreases chars@.len() - from,
    {
        assert(text@.skip(from as int).skip(1) =~= text@.skip(from + 1));
        from = from + 1;
    }
    let ghost middle = text@.skip(from as int);
    assert(trimmed_start(text@) == middle);
    let mut to: usize = chars.len();
    assert(text@.subrange(from as int, to as int) =~= middle);
    while from < to && is_white_space(chars[to - 1])
        invariant
            from <= to <= chars@.len(),
            chars@ == text@,
            trimmed_end(middle) == trimmed_end(text@.subrange(from as int, to as int)),
        decreases to - from,
    {
        assert(text@.subrange(from as int, to as int).drop_last() =~= text@.subrange(
            from as int,
            to - 1,
        ));
        to = to - 1;
    }
    text_between(&chars, from, to)
}

/// `fragment` stands at position `at` of `text`.
pub open spec fn stands_at(text: Seq<char>, fragment: Seq<char>, at: int) -> bool {
    0 <= at && at + fragment.len() <= text.len() && text.subrange(at, at + fragment.len())
        == fragment
}

/// `fragment` stands somewhere in `text`.
pub open spec fn holds_fragment(text: Seq<char>, fragment: Seq<char>) -> bool {
    exists|at: int| stands_at(text, fragment, at)
}

fn matches_at(text: &Vec<char>, fragment: &Vec<char>, at: usize) -> (yes: bool)
    requires
        at + fragment@.len() <= text@.len(),
    ensures
        yes == stands_at(text@, fragment@, at as int),
{
    assert(text.len() <= usize::MAX);
    let end: usize = at + fragment.len();
    let mut i: usize = 0;
    while i < fragment.len()
        invariant
            i <= fragment@.len(),
            end == at + fragment@.len() <= text@.len(),
            forall|j: int| 0 <= j < i ==> text@[at + j] == fragment@[j],
        decreases fragment@.len() - i,
    {
        if text[at + i] != fragment[i] {
            assert(text@.subrange(at as int, at + fragment@.len())[i as int] != fragment@[i as int]);
            return false;
        }
        i = i + 1;
    }
    assert(text@.subrange(at as int, at + fragment@.len()) =~= fragment@);
    true
}

pub fn starts_with(text: &str, prefix: &str) -> (yes: bool)
    ensures
        yes == stands_at(text@, prefix@, 0),
{
    let text = chars_of(text);
    let prefix = chars_of(prefix);
    prefix.len() <= text.len() && matches_at(&text, &prefix, 0)
}

pub fn contains(text: &str, fragment: &str) -> (yes: bool)
    ensures
        yes == holds_fragment(text@, fragment@),
{
    let hay = chars_of(text);
    let needle = chars_of(fragment);
    if needle.len() > hay.len() {
        return false;
    }
    let last: usize = hay.len() - needle.len();
    let mut at: usize = 0;
    while at < last
        invariant
            at <= last,
            hay@ == text@,
            needle@ == fragment@,
            last == hay@.len() - needle@.len(),
            forall|j: int| 0 <= j < at ==> !stands_at(text@, fragment@, j),
        decreases last - at,
    {
        if matches_at(&hay, &needle, at) {
            assert(stands_at(text@, fragment@, at as int));
            return true;
        }
        at = at + 1;
    }
    let found = matches_at(&hay, &needle, at);
    assert(found == stands_at(text@, fragment@, at as int));
    found
}

/// The text without the slashes at its end.
pub open spec fn without_final_slashes(text: Seq<char>) -> Seq<char>
    decreases text.len(),
{
    if text.len() > 0 && text.last() == '/' {
        without_final_slashes(text.drop_last())
    } else {
        text
    }
}

pub fn drop_final_slashes(text: &str) -> (rest: String)
    ensures
        rest@ == without_final_slashes(text@),
{
    let chars = chars_of(text);
    let mut to: usize = chars.len();
    assert(text@.take(to as int) =~= text@);
    while 0 < to && chars[to - 1] == '/'
        invariant
            to <= chars@.len(),
            chars@ == text@,
            without_final_slashes(text@) == without_final_slashes(text@.take(to as int)),
        decreases to,
    {
        assert(text@.take(to as int).drop_last() =~= text@.take(to - 1));
        to = to - 1;
    }
    assert(text@.subrange(0, to as int) =~= text@.take(to as int));
    text_between(&chars, 0, to)
}

/// A decimal digit.
pub open spec fn digit(n: nat) -> char {
    ((48 + n) as u8) as char
}

/// A number in decimal, without leading zeros.
pub open spec fn decimal(n: nat) -> Seq<char>
    decreases n,
{
    if n < 10 {
        seq![digit(n)]
    } else {
        decimal(n / 10).push(digit(n % 10))
    }
}

pub fn render_number(n: u64) -> (text: String)
    ensures
        text@ == decimal(n as nat),
    decreases n,
{
    let last = (48 + (n % 10) as u8) as char;
    let mut text = if n < 10 {
        String::new()
    } else {
        render_number(n / 10)
    };
    text.push(last);
    assert(n < 10 ==> text@ =~= decimal(n as nat));
    text
}

/// Lexicographic order by code point.
pub open spec fn comes_before(a: Seq<char>, b: Seq<char>) -> bool
    decreases a.len(),
{
    if b.len() == 0 {
        false
    } else if a.len() == 0 {
        true
    } else {
        a.first() < b.first() || (a.first() == b.first() && comes_before(a.skip(1), b.skip(1)))
    }
}

pub proof fn lemma_order_is_total(a: Seq<char>, b: Seq<char>)
    ensures
        a == b || comes_before(a, b) || comes_before(b, a),
        !(comes_before(a, b) && comes_before(b, a)),
        !comes_before(a, a),
    decreases a.len(), b.len(),
{
    if a.len() > 0 {
        lemma_order_is_total(a.skip(1), a.skip(1));
    }
    if a.len() > 0 && b.len() > 0 {
        lemma_order_is_total(a.skip(1), b.skip(1));
        if a.first() == b.first() && a.skip(1) == b.skip(1) {
            assert forall|i: int| 0 <= i < a.len() implies a[i] == b[i] by {
                if i > 0 {
                    assert(a[i] == a.skip(1)[i - 1]);
                    assert(b[i] == b.skip(1)[i - 1]);
                }
            }
            assert(a.len() == a.skip(1).len() + 1 && b.len() == b.skip(1).len() + 1);
            assert(a =~= b);
        }
    } else if a.len() == 0 && b.len() == 0 {
        assert(a =~= b);
    }
}

pub proof fn lemma_order_is_transitive(a: Seq<char>, b: Seq<char>, c: Seq<char>)
    requires
        comes_before(a, b),
        comes_before(b, c),
    ensures
        comes_before(a, c),
    decreases a.len(),
{
    if a.len() > 0 && a.first() == b.first() && b.first() == c.first() {
        lemma_order_is_transitive(a.skip(1), b.skip(1), c.skip(1));
    }
}

/// Whether one text stands before another in the order by code point.
pub fn is_before(one: &str, other: &str) -> (before: bool)
    ensures
        before == comes_before(one@, other@),
{
    let a = chars_of(one);
    let b = chars_of(other);
    let mut i: usize = 0;
    assert(a@.skip(0) =~= a@);
    assert(b@.skip(0) =~= b@);
    while i < a.len() && i < b.len() && a[i] == b[i]
        invariant
            i <= a@.len(),
            i <= b@.len(),
            comes_before(a@, b@) == comes_before(a@.skip(i as int), b@.skip(i as int)),
        decreases a@.len() - i,
    {
        assert(a@.skip(i as int).skip(1) =~= a@.skip(i + 1));
        assert(b@.skip(i as int).skip(1) =~= b@.skip(i + 1));
        i = i + 1;
    }
    if i == b.len() {
        false
    } else if i == a.len() {
        true
    } else {
        a[i] < b[i]
    }
}

/// Bytes that a header value may hold and still be readable as text.
pub open spec fn visible(byte: u8) -> bool {
    (32 <= byte && byte < 127) || byte == 9
}

pub open spec fn all_visible(bytes: Seq<u8>) -> bool {
    forall|i: int| 0 <= i < bytes.len() ==> visible(#[trigger] bytes[i])
}

/// The text that visible bytes spell.
pub open spec fn spelled(bytes: Seq<u8>) -> Seq<char> {
    bytes.map_values(|byte: u8| byte as char)
}

/// The text of a header value, if all of it is visible.
pub fn visible_text(bytes: &Vec<u8>) -> (text: Option<String>)
    ensures
        text is Some <==> all_visible(bytes@),
        text is Some ==> text->Some_0@ == spelled(bytes@),
{
    let mut text = String::new();
    let mut i: usize = 0;
    while i < bytes.len()
        invariant
            i <= bytes@.len(),
            forall|j: int| 0 <= j < i ==> visible(#[trigger] bytes@[j]),
            text@ == spelled(bytes@.take(i as int)),
        decreases bytes@.len() - i,
    {
        let byte: u8 = bytes[i];
        if !((32 <= byte && byte < 127) || byte == 9) {
            return None;
        }
        assert(spelled(bytes@.take(i + 1)) =~= spelled(bytes@.take(i as int)).push(byte as char));
        text.push(byte as char);
        i = i + 1;
    }
    assert(bytes@.take(bytes@.len() as int) =~= bytes@);
    Some(text)
}

/// A decimal digit, '0' to '9'.
pub open spec fn is_digit(c: char) -> bool {
    48 <= c as u32 <= 57
}

/// The number that digits spell.
pub open spec fn digits_value(digits: Seq<char>) -> nat
    decreases digits.len(),
{
    if digits.len() == 0 {
        0
    } else {
        digits_value(digits.drop_last()) * 10 + (digits.last() as u32 - 48) as nat
    }
}

/// The text without one leading plus sign.
pub open spec fn unsigned(text: Seq<char>) -> Seq<char> {
    if text.len() > 0 && text.first() == '+' {
        text.skip(1)
    } else {
        text
    }
}

/// The number that a text stands for: digits, at least one, with at most one
/// plus sign in front.
pub open spec fn number_in(text: Seq<char>) -> Option<nat> {
    let digits = unsigned(text);
    if digits.len() > 0 && forall|i: int| 0 <= i < digits.len() ==> is_digit(#[trigger] digits[i]) {
        Some(digits_value(digits))
    } else {
        None
    }
}

proof fn lemma_value_grows(digits: Seq<char>, n: int)
    requires
        0 <= n <= digits.len(),
        forall|i: int| 0 <= i < digits.len() ==> is_digit(#[trigger] digits[i]),
    ensures
        digits_value(digits.take(n)) <= digits_value(digits),
    decreases digits.len() - n,
{
    if n == digits.len() {
        assert(digits.take(n) =~= digits);
    } else {
        lemma_value_grows(digits, n + 1);
        assert(digits.take(n + 1).drop_last() =~= digits.take(n));
        assert(is_digit(digits[n]));
    }
}

/// The number in a text, if there is one and it fits.
pub fn parse_usize(text: &str) -> (number: Option<usize>)
    ensures
        number is Some <==> number_in(text@) is Some && number_in(text@)->Some_0 <= usize::MAX,
        number is Some ==> number->Some_0 == number_in(text@)->Some_0,
{
    let chars = chars_of(text);
    let from: usize = if chars.len() > 0 && chars[0] == '+' {
        1
    } else {
        0
    };
    let ghost digits = unsigned(text@);
    assert(digits =~= text@.skip(from as int));
    if from == chars.len() {
        return None;
    }
    let mut value: usize = 0;
    let mut i: usize = from;
    while i < chars.len()
        invariant
            from <= i <= chars@.len(),
            chars@ == text@,
            digits == text@.skip(from as int),
            digits == unsigned(text@),
            forall|j: int| 0 <= j < i - from ==> is_digit(#[trigger] digits[j]),
            value == digits_value(digits.take(i - from)),
        decreases chars@.len() - i,
    {
        let code: u32 = chars[i] as u32;
        assert(digits[i - from] == chars@[i as int]);
        if code < 48 || 57 < code {
            assert(!is_digit(digits[i - from]));
            return None;
        }
        let ghost next = digits.take(i + 1 - from);
        assert(next.drop_last() =~= digits.take(i - from));
        let digit: usize = (code - 48) as usize;
        if value > (usize::MAX - digit) / 10 {
            proof {
                if forall|j: int| 0 <= j < digits.len() ==> is_digit(#[trigger] digits[j]) {
                    lemma_value_grows(digits, i + 1 - from);
                }
            }
            return None;
        }
        value = value * 10 + digit;
        i = i + 1;
    }
    assert(digits.take(digits.len() as int) =~= digits);
    Some(value)
}

} // verus!
