//! Text helpers: comparison, concatenation, decimal counts and lines.

use vstd::prelude::*;

verus! {

/// Whether two texts hold the same characters.
pub fn same_text(a: &str, b: &str) -> (res: bool)
    ensures
        res == (a@ == b@),
{
    let left: String = a.to_owned();
    let right: String = b.to_owned();
    left == right
}

/// `head` followed by `tail`.
pub fn joined(head: &str, tail: &str) -> (res: String)
    ensures
        res@ == head@ + tail@,
{
    let mut text: String = head.to_owned();
    text.append(tail);
    text
}

/// What a fallible computation came to, by views: its value or its error text.
pub open spec fn outcome<A: View>(res: Result<A, String>) -> Result<A::V, Seq<char>> {
    match res {
        Ok(value) => Ok(value@),
        Err(error) => Err(error@),
    }
}

/// A decimal digit.
pub open spec fn is_digit(c: char) -> bool {
    '0' <= c <= '9'
}

/// The number that a sequence of decimal digits writes.
pub open spec fn decimal_value(digits: Seq<char>) -> nat
    decreases digits.len(),
{
    if digits.len() == 0 {
        0
    } else {
        decimal_value(digits.drop_last()) * 10 + (digits.last() as nat - '0' as nat) as nat
    }
}

/// The digits of a count: everything behind an optional plus sign.
pub open spec fn count_digits(text: Seq<char>) -> Seq<char> {
    if text.len() > 0 && text[0] == '+' {
        text.skip(1)
    } else {
        text
    }
}

/// Why a text is no count.
#[derive(Clone, Copy, Debug)]
pub enum CountError {
    /// There is no text.
    Empty,
    /// A character is no digit, or there is nothing but a sign.
    InvalidDigit,
    /// The number is too large.
    PosOverflow,
}

/// How many digits a text begins with.
pub open spec fn leading_digits(text: Seq<char>) -> nat
    decreases text.len(),
{
    if text.len() == 0 || !is_digit(text[0]) {
        0
    } else {
        1 + leading_digits(text.skip(1))
    }
}

/// The count that a text writes: an optional plus sign and then at least one
/// digit, for a number that fits in `usize`. A number that is too large is the
/// reason even where something else follows its digits.
pub open spec fn count_value(text: Seq<char>) -> Result<usize, CountError> {
    let digits = count_digits(text);
    let number = digits.take(leading_digits(digits) as int);
    if text.len() == 0 {
        Err(CountError::Empty)
    } else if decimal_value(number) > usize::MAX {
        Err(CountError::PosOverflow)
    } else if number.len() == 0 || number.len() < digits.len() {
        Err(CountError::InvalidDigit)
    } else {
        Ok(decimal_value(number) as usize)
    }
}

/// Where the first `n` characters are digits, the text begins with at least so
/// many, and with no more where another character or nothing follows.
proof fn lemma_leading_digits(text: Seq<char>, n: int)
    requires
        0 <= n <= text.len(),
        forall|k: int| 0 <= k < n ==> is_digit(#[trigger] text[k]),
    ensures
        n <= leading_digits(text) <= text.len(),
        n == text.len() || !is_digit(text[n]) ==> leading_digits(text) == n,
    decreases text.len(),
{
    if n > 0 {
        assert(is_digit(text[0]));
        let rest = text.skip(1);
        assert(forall|k: int| 0 <= k < rest.len() ==> rest[k] == text[k + 1]);
        lemma_leading_digits(rest, n - 1);
    } else if text.len() > 0 && is_digit(text[0]) {
        lemma_leading_digits(text.skip(1), 0);
    }
}

/// A longer number is at least as large as each of its prefixes.
proof fn lemma_prefix_value(digits: Seq<char>, n: int)
    requires
        0 <= n <= digits.len(),
    ensures
        decimal_value(digits.take(n)) <= decimal_value(digits),
    decreases digits.len(),
{
    if n == digits.len() {
        assert(digits.take(n) =~= digits);
    } else {
        lemma_prefix_value(digits.drop_last(), n);
        assert(digits.drop_last().take(n) =~= digits.take(n));
    }
}

/// Reads a count, see [`count_value`].
pub fn parse_count(text: &str) -> (res: Result<usize, CountError>)
    ensures
        res == count_value(text@),
{
    let len: usize = text.unicode_len();
    if len == 0 {
        return Err(CountError::Empty);
    }
    let start: usize = if text.get_char(0) == '+' { 1 } else { 0 };
    let ghost digits = count_digits(text@);
    let mut value: usize = 0;
    let mut i: usize = start;
    proof {
        assert(digits.take(0).len() == 0);
    }
    while i < len
        invariant
            len == text@.len(),
            len > 0,
            start <= i <= len,
            start <= 1,
            digits == text@.skip(start as int),
            digits == count_digits(text@),
            forall|k: int| 0 <= k < i - start ==> is_digit(#[trigger] digits[k]),
            value == decimal_value(digits.take(i - start)),
        decreases len - i,
    {
        let c: char = text.get_char(i);
        let ghost n = i - start;
        proof {
            assert(digits[n] == c);
            lemma_leading_digits(digits, n);
        }
        if !('0' <= c && c <= '9') {
            return Err(CountError::InvalidDigit);
        }
        let digit: usize = (c as u32 - '0' as u32) as usize;
        proof {
            let number = digits.take(leading_digits(digits) as int);
            lemma_leading_digits(digits, n + 1);
            assert(digits.take(n + 1).drop_last() =~= digits.take(n));
            assert(decimal_value(digits.take(n + 1)) == value * 10 + digit);
            lemma_prefix_value(number, n + 1);
            assert(number.take(n + 1) =~= digits.take(n + 1));
        }
        match value.checked_mul(10) {
            None => {
                return Err(CountError::PosOverflow);
            },
            Some(shifted) => {
                match shifted.checked_add(digit) {
                    None => {
                        return Err(CountError::PosOverflow);
                    },
                    Some(sum) => {
                        value = sum;
                    },
                }
            },
        }
        i = i + 1;
    }
    proof {
        lemma_leading_digits(digits, len - start);
    }
    if start == len {
        return Err(CountError::InvalidDigit);
    }
    Ok(value)
}

/// The lines of a text, one below the other with no line break at the end.
pub open spec fn lines_text(lines: Seq<Seq<char>>) -> Seq<char>
    decreases lines.len(),
{
    if lines.len() == 0 {
        Seq::empty()
    } else if lines.len() == 1 {
        lines[0]
    } else {
        lines_text(lines.drop_last()) + seq!['\n'] + lines.last()
    }
}

/// The characters of each text.
pub open spec fn texts(list: Seq<String>) -> Seq<Seq<char>> {
    list.map_values(|text: String| text@)
}

/// Puts lines one below the other.
pub fn join_lines(lines: &Vec<String>) -> (res: String)
    ensures
        res@ == lines_text(texts(lines@)),
{
    let mut text: String = String::new();
    let ghost all = texts(lines@);
    let mut i: usize = 0;
    while i < lines.len()
        invariant
            0 <= i <= lines.len(),
            all == texts(lines@),
            text@ == lines_text(all.take(i as int)),
        decreases lines.len() - i,
    {
        proof {
            reveal_strlit("\n");
            assert("\n"@ =~= seq!['\n']);
            assert(all.take(i + 1).drop_last() =~= all.take(i as int));
            assert(all[i as int] == lines[i as int]@);
        }
        if i > 0 {
            text.append("\n");
        }
        text.append(lines[i].as_str());
        i = i + 1;
    }
    proof {
        assert(all.take(lines.len() as int) =~= all);
    }
    text
}

/// The outcome of a computation is its value, or else its error text.
pub proof fn outcomes_are_values_or_errors<A: View>(value: A, error: String)
    ensures
        outcome(Result::<A, String>::Ok(value)) == Result::<A::V, Seq<char>>::Ok(value@),
        outcome(Result::<A, String>::Err(error)) == Result::<A::V, Seq<char>>::Err(error@),
{
}

/// Texts come one for one, with all their characters.
pub proof fn texts_come_one_for_one(list: Seq<String>)
    ensures
        texts(list).len() == list.len(),
        forall|i: int| 0 <= i < list.len() ==> #[trigger] texts(list)[i] == list[i]@,
{
}

/// A single digit writes its value.
pub proof fn a_digit_counts_for_itself(c: char)
    requires
        '0' <= c <= '9',
    ensures
        count_value(seq![c]) == Result::<usize, CountError>::Ok(
            (c as int - '0' as int) as usize,
        ),
{
    let text = seq![c];
    assert(count_digits(text) == text);
    lemma_leading_digits(text, 1);
    assert(text.take(1) =~= text);
    assert(text.drop_last() =~= Seq::empty());
    assert(decimal_value(text.drop_last()) == 0);
}

/// One more digit makes ten times the count and the digit, or too large a
/// number.
pub proof fn one_more_digit_makes_ten_times_the_count(text: Seq<char>, c: char)
    requires
        count_value(text) is Ok,
        '0' <= c <= '9',
    ensures
        ({
            let more = count_value(text)->Ok_0 * 10 + (c as int - '0' as int);
            count_value(text.push(c)) == if more <= usize::MAX {
                Result::<usize, CountError>::Ok(more as usize)
            } else {
                Result::<usize, CountError>::Err(CountError::PosOverflow)
            }
        }),
{
    let longer = text.push(c);
    let digits = count_digits(text);
    let more = count_digits(longer);
    assert(more =~= digits.push(c));
    lemma_leading_digits(digits, 0);
    lemma_run(digits);
    lemma_leading_digits(more, more.len() as int);
    assert(digits.take(digits.len() as int) =~= digits);
    assert(more.take(more.len() as int) =~= more);
    assert(more.drop_last() =~= digits);
}

/// A plus sign before a count changes nothing.
pub proof fn a_plus_sign_changes_nothing(text: Seq<char>)
    requires
        text.len() > 0,
        text[0] != '+',
    ensures
        count_value(seq!['+'] + text) == count_value(text),
{
    assert((seq!['+'] + text).skip(1) =~= text);
}

/// The characters that a text begins with up to the first that is no digit are
/// digits.
proof fn lemma_run(text: Seq<char>)
    ensures
        leading_digits(text) <= text.len(),
        forall|k: int| 0 <= k < leading_digits(text) ==> is_digit(#[trigger] text[k]),
        leading_digits(text) < text.len() ==> !is_digit(text[leading_digits(text) as int]),
    decreases text.len(),
{
    if text.len() > 0 && is_digit(text[0]) {
        let rest = text.skip(1);
        lemma_run(rest);
        assert forall|k: int| 0 <= k < leading_digits(text) implies is_digit(#[trigger] text[k]) by {
            if k > 0 {
                assert(rest[k - 1] == text[k]);
            }
        }
    }
}

/// What is no digit cannot be part of a count: it is refused where only digits
/// of a count stand before it, and so is a sign or nothing alone.
pub proof fn only_digits_are_counted(text: Seq<char>, c: char, more: Seq<char>)
    requires
        !('0' <= c <= '9'),
    ensures
        count_value(Seq::empty()) == Result::<usize, CountError>::Err(CountError::Empty),
        count_value(seq!['+']) == Result::<usize, CountError>::Err(CountError::InvalidDigit),
        c != '+' ==> count_value(seq![c] + more) == Result::<usize, CountError>::Err(
            CountError::InvalidDigit,
        ),
        count_value(seq!['+', c] + more) == Result::<usize, CountError>::Err(
            CountError::InvalidDigit,
        ),
        count_value(text) is Ok ==> count_value(text.push(c) + more) == Result::<
            usize,
            CountError,
        >::Err(CountError::InvalidDigit),
{
    assert(seq!['+'].skip(1) =~= Seq::<char>::empty());
    assert(Seq::<char>::empty().take(0) =~= Seq::<char>::empty());
    assert(decimal_value(Seq::<char>::empty()) == 0);
    let first = seq![c] + more;
    assert(first[0] == c);
    assert(first.take(0) =~= Seq::<char>::empty());
    let signed = seq!['+', c] + more;
    assert(signed.skip(1) =~= first);
    if count_value(text) is Ok {
        let whole = text.push(c) + more;
        let digits = count_digits(text);
        let all = count_digits(whole);
        assert(all =~= digits.push(c) + more);
        lemma_run(digits);
        lemma_leading_digits(all, digits.len() as int);
        assert(all.take(digits.len() as int) =~= digits);
        assert(digits.take(digits.len() as int) =~= digits);
    }
}

/// A number that is too large stays so, whatever follows.
pub proof fn too_large_stays_too_large(text: Seq<char>, more: Seq<char>)
    requires
        count_value(text) == Result::<usize, CountError>::Err(CountError::PosOverflow),
    ensures
        count_value(text + more) == Result::<usize, CountError>::Err(CountError::PosOverflow),
{
    let digits = count_digits(text);
    let all = count_digits(text + more);
    assert(all =~= digits + more);
    lemma_run(digits);
    lemma_run(all);
    let n = leading_digits(digits) as int;
    assert(forall|k: int| 0 <= k < digits.len() ==> all[k] == digits[k]);
    lemma_leading_digits(all, n);
    let number = all.take(leading_digits(all) as int);
    lemma_prefix_value(number, n);
    assert(number.take(n) =~= digits.take(n));
}

/// One line is its own text, and no lines are no text.
pub proof fn one_line_is_its_own_text(line: Seq<char>)
    ensures
        lines_text(seq![line]) == line,
        lines_text(Seq::empty()) == Seq::<char>::empty(),
{
}

/// Lines below other lines are parted from them by one line break.
pub proof fn lines_are_parted_by_a_break(lines: Seq<Seq<char>>, more: Seq<Seq<char>>)
    requires
        lines.len() > 0,
        more.len() > 0,
    ensures
        lines_text(lines + more) == lines_text(lines) + seq!['\n'] + lines_text(more),
    decreases more.len(),
{
    let all = lines + more;
    assert(all.last() == more.last());
    if more.len() == 1 {
        assert(all.drop_last() =~= lines);
    } else {
        lines_are_parted_by_a_break(lines, more.drop_last());
        assert(all.drop_last() =~= lines + more.drop_last());
        assert(lines_text(all) =~= lines_text(lines) + seq!['\n'] + lines_text(more));
    }
}

} // verus!
