//! What holds of texts and the numbers in them.

use vstd::prelude::*;

verus! {

/// Folding keeps the length and touches nothing but the capitals A to Z, each of
/// which becomes the letter 32 places further on.
pub proof fn law_folding_touches_capitals_only(text: Seq<char>, i: int)
    requires
        0 <= i < text.len(),
    ensures
        ({
            let folded = crate::text::lowered(text);
            let code = text[i] as u32;
            &&& folded.len() == text.len()
            &&& 65 <= code <= 90 ==> folded[i] as u32 == code + 32
            &&& !(65 <= code <= 90) ==> folded[i] == text[i]
        }),
{
}

/// Folding a folded text changes nothing.
pub proof fn law_folding_twice_is_folding_once(text: Seq<char>)
    ensures
        crate::text::lowered(crate::text::lowered(text)) == crate::text::lowered(text),
{
    assert(crate::text::lowered(crate::text::lowered(text)) =~= crate::text::lowered(text));
}

proof fn lemma_trimmed_end(text: Seq<char>) -> (n: int)
    ensures
        0 <= n <= text.len(),
        crate::text::trimmed_end(text) == text.take(n),
        n > 0 ==> !crate::text::white_space(text[n - 1]),
        forall|i: int| n <= i < text.len() ==> crate::text::white_space(#[trigger] text[i]),
    decreases text.len(),
{
    if text.len() > 0 && crate::text::white_space(text.last()) {
        let front = text.drop_last();
        let n = lemma_trimmed_end(front);
        assert(front.take(n) =~= text.take(n));
        assert forall|i: int| n <= i < text.len() implies crate::text::white_space(
            #[trigger] text[i],
        ) by {
            if i < front.len() {
                assert(front[i] == text[i]);
            }
        }
        if n > 0 {
            assert(front[n - 1] == text[n - 1]);
        }
        n
    } else {
        assert(text.take(text.len() as int) =~= text);
        text.len() as int
    }
}

proof fn lemma_trimmed_start(text: Seq<char>) -> (n: int)
    ensures
        0 <= n <= text.len(),
        crate::text::trimmed_start(text) == text.skip(n),
        n < text.len() ==> !crate::text::white_space(text[n]),
        forall|i: int| 0 <= i < n ==> crate::text::white_space(#[trigger] text[i]),
    decreases text.len(),
{
    if text.len() > 0 && crate::text::white_space(text.first()) {
        let rest = text.skip(1);
        let n = lemma_trimmed_start(rest);
        assert(rest.skip(n) =~= text.skip(n + 1));
        assert forall|i: int| 0 <= i < n + 1 implies crate::text::white_space(
            #[trigger] text[i],
        ) by {
            if i > 0 {
                assert(rest[i - 1] == text[i]);
            }
        }
        if n < rest.len() {
            assert(rest[n] == text[n + 1]);
        }
        n + 1
    } else {
        assert(text.skip(0) =~= text);
        0
    }
}

/// A trimmed text is what stands between `from` and `to`: it neither begins nor
/// ends with white space, and nothing but white space was taken off.
pub proof fn law_trimming_takes_white_space_only(text: Seq<char>) -> (range: (int, int))
    ensures
        ({
            let (from, to) = range;
            &&& 0 <= from <= to <= text.len()
            &&& crate::text::trimmed(text) == text.subrange(from, to)
            &&& from < to ==> !crate::text::white_space(text[from])
                && !crate::text::white_space(text[to - 1])
            &&& forall|i: int|
                0 <= i < from || to <= i < text.len() ==> crate::text::white_space(
                    #[trigger] text[i],
                )
        }),
{
    let from = lemma_trimmed_start(text);
    let rest = text.skip(from);
    let n = lemma_trimmed_end(rest);
    assert(rest.take(n) =~= text.subrange(from, from + n));
    assert forall|i: int| 0 <= i < from || from + n <= i < text.len() implies crate::text::white_space(
        #[trigger] text[i],
    ) by {
        if i >= from {
            assert(rest[i - from] == text[i]);
        }
    }
    if n > 0 {
        assert(rest[n - 1] == text[from + n - 1]);
        assert(rest[0] == text[from]);
    }
    (from, from + n)
}

/// A number written in decimal is read as itself: the digits of `n`, read from
/// the left, give `n` again.
pub proof fn law_decimal_reads_back(n: nat)
    ensures
        crate::text::number_in(crate::text::decimal(n)) == Some(n),
{
    lemma_decimal(n);
    let digits = crate::text::decimal(n);
    assert(crate::text::is_digit(digits[0]));
    assert(digits.first() != '+');
}

proof fn lemma_decimal(n: nat)
    ensures
        crate::text::decimal(n).len() > 0,
        forall|i: int|
            0 <= i < crate::text::decimal(n).len() ==> crate::text::is_digit(
                #[trigger] crate::text::decimal(n)[i],
            ),
        crate::text::digits_value(crate::text::decimal(n)) == n,
    decreases n,
{
    let digits = crate::text::decimal(n);
    if n < 10 {
        assert(digits.drop_last() =~= Seq::<char>::empty());
        assert(crate::text::digits_value(Seq::<char>::empty()) == 0);
    } else {
        lemma_decimal(n / 10);
        assert(digits.drop_last() =~= crate::text::decimal(n / 10));
    }
}

/// A text is a number exactly if, one plus sign in front left out, it is made of
/// digits and is not empty; a digit more makes ten times the number and the
/// digit.
pub proof fn law_numbers_are_made_of_digits(text: Seq<char>, last: char)
    requires
        text.len() > 0,
        text[0] != '+',
    ensures
        crate::text::number_in(text) is Some <==> forall|i: int|
            0 <= i < text.len() ==> 48 <= (#[trigger] text[i]) as u32 <= 57,
        crate::text::number_in(seq!['+'] + text) == crate::text::number_in(text),
        crate::text::number_in(Seq::<char>::empty()) is None,
        crate::text::number_in(text) is Some && 48 <= last as u32 <= 57
            ==> crate::text::number_in(text.push(last)) == Some(
            (10 * crate::text::number_in(text)->Some_0 + (last as u32 - 48)) as nat,
        ),
{
    assert((seq!['+'] + text).skip(1) =~= text);
    assert(text.push(last).drop_last() =~= text);
    if crate::text::number_in(text) is Some {
        assert forall|i: int| 0 <= i < text.len() implies 48 <= (#[trigger] text[i]) as u32
            <= 57 by {
            assert(crate::text::is_digit(text[i]));
        }
        if 48 <= last as u32 <= 57 {
            assert forall|i: int| 0 <= i < text.push(last).len() implies crate::text::is_digit(
                #[trigger] text.push(last)[i],
            ) by {
                if i < text.len() {
                    assert(crate::text::is_digit(text[i]));
                }
            }
        }
    }
    if forall|i: int| 0 <= i < text.len() ==> 48 <= (#[trigger] text[i]) as u32 <= 57 {
        assert forall|i: int| 0 <= i < text.len() implies crate::text::is_digit(
            #[trigger] text[i],
        ) by {}
    }
}

/// Without its final slashes a text ends in none, and nothing but slashes was
/// taken off.
pub proof fn law_only_final_slashes_are_dropped(text: Seq<char>) -> (n: int)
    ensures
        0 <= n <= text.len(),
        crate::text::without_final_slashes(text) == text.take(n),
        n > 0 ==> text[n - 1] != '/',
        forall|i: int| n <= i < text.len() ==> #[trigger] text[i] == '/',
    decreases text.len(),
{
    if text.len() > 0 && text.last() == '/' {
        let front = text.drop_last();
        let n = law_only_final_slashes_are_dropped(front);
        assert(front.take(n) =~= text.take(n));
        assert forall|i: int| n <= i < text.len() implies #[trigger] text[i] == '/' by {
            if i < front.len() {
                assert(front[i] == text[i]);
            }
        }
        if n > 0 {
            assert(front[n - 1] == text[n - 1]);
        }
        n
    } else {
        assert(text.take(text.len() as int) =~= text);
        text.len() as int
    }
}

/// A visible value is printable ASCII and tabs, and is spelled byte by byte.
pub proof fn law_visible_values_are_spelled_out(bytes: Seq<u8>, i: int)
    requires
        0 <= i < bytes.len(),
    ensures
        crate::text::all_visible(bytes) ==> 0x20 <= bytes[i] <= 0x7e || bytes[i] == 9,
        bytes[i] < 9 || 9 < bytes[i] < 0x20 || bytes[i] > 0x7e ==> !crate::text::all_visible(bytes),
        (forall|j: int|
            0 <= j < bytes.len() ==> 0x20 <= #[trigger] bytes[j] <= 0x7e || bytes[j] == 9)
            ==> crate::text::all_visible(bytes),
        crate::text::spelled(bytes).len() == bytes.len(),
        crate::text::spelled(bytes)[i] as u32 == bytes[i],
{
    if crate::text::all_visible(bytes) {
        assert(crate::text::visible(bytes[i]));
    }
}

/// One text comes before another exactly if, where they first differ, it has
/// ended or has the smaller character.
pub proof fn law_order_is_decided_at_the_first_difference(a: Seq<char>, b: Seq<char>, n: int)
    requires
        0 <= n <= a.len(),
        n <= b.len(),
        forall|i: int| 0 <= i < n ==> #[trigger] a[i] == b[i],
        n < a.len() && n < b.len() ==> a[n] != b[n],
    ensures
        n == b.len() ==> !crate::text::comes_before(a, b),
        n == a.len() && n < b.len() ==> crate::text::comes_before(a, b),
        n < a.len() && n < b.len() ==> (crate::text::comes_before(a, b) <==> a[n] < b[n]),
    decreases n,
{
    if n > 0 {
        let x = a.skip(1);
        let y = b.skip(1);
        assert(a[0] == b[0]);
        assert forall|i: int| 0 <= i < n - 1 implies #[trigger] x[i] == y[i] by {
            assert(a[i + 1] == b[i + 1]);
        }
        law_order_is_decided_at_the_first_difference(x, y, n - 1);
    }
}

} // verus!
