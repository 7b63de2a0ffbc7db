//! Text operations on character sequences: replacement, decimal numerals, concatenation.

use vstd::prelude::*;

verus! {

/// `String::push`: appends the character at the end of the string and changes nothing else.
pub assume_specification[ String::push ](s: &mut String, c: char)
    ensures
        final(s)@ == old(s)@.push(c),
;

/// Whether `pattern` occurs in `text` starting at position `at`.
pub open spec fn occurs_at(text: Seq<char>, pattern: Seq<char>, at: int) -> bool {
    &&& 0 <= at
    &&& at + pattern.len() <= text.len()
    &&& text.subrange(at, at + pattern.len()) == pattern
}

/// `text` with the occurrences of `pattern`, taken from the left and without overlap, each
/// exchanged for `with`.
pub open spec fn replaced(text: Seq<char>, pattern: Seq<char>, with: Seq<char>) -> Seq<char>
    decreases text.len(),
{
    if pattern.len() == 0 || text.len() == 0 {
        text
    } else if occurs_at(text, pattern, 0) {
        with + replaced(text.skip(pattern.len() as int), pattern, with)
    } else {
        seq![text[0]] + replaced(text.skip(1), pattern, with)
    }
}

/// The characters of `text`, in order.
pub fn characters(text: &str) -> (result: Vec<char>)
    ensures
        result@ == text@,
{
    let mut result: Vec<char> = Vec::new();
    for c in it: text.chars()
        invariant
            it.seq() == text@,
            result@ == text@.take(it.index()),
    {
        result.push(c);
    }
    result
}

/// Whether `pattern` occurs in `text` at position `at`.
fn matches_at(text: &Vec<char>, pattern: &Vec<char>, at: usize) -> (result: bool)
    requires
        at <= text@.len(),
    ensures
        result == occurs_at(text@, pattern@, at as int),
{
    if pattern.len() > text.len() - at {
        return false;
    }
    let mut i: usize = 0;
    while i < pattern.len()
        invariant
            i <= pattern@.len(),
            at + pattern.len() <= text.len(),
            forall|k: int| 0 <= k < i ==> text@[at + k] == #[trigger] pattern@[k],
        decreases pattern@.len() - i,
    {
        if text[at + i] != pattern[i] {
            assert(text@.subrange(at as int, at + pattern@.len())[i as int] != pattern@[i as int]);
            return false;
        }
        i += 1;
    }
    assert(text@.subrange(at as int, at + pattern@.len()) =~= pattern@);
    true
}

/// Exchanges the occurrences of `pattern` in `text` for `with`.
pub fn replace_all(text: &str, pattern: &str, with: &str) -> (result: String)
    requires
        pattern@.len() > 0,
    ensures
        result@ == replaced(text@, pattern@, with@),
{
    let source = characters(text);
    let wanted = characters(pattern);
    let mut result = String::new();
    let mut i: usize = 0;
    assert(source@.skip(0) =~= source@);
    while i < source.len()
        invariant
            i <= source@.len(),
            wanted@ == pattern@,
            pattern@.len() > 0,
            result@ + replaced(source@.skip(i as int), pattern@, with@) == replaced(
                source@,
                pattern@,
                with@,
            ),
        decreases source@.len() - i,
    {
        let ghost rest = source@.skip(i as int);
        let ghost before = result@;
        if matches_at(&source, &wanted, i) {
            assert(rest.subrange(0, wanted@.len() as int) =~= source@.subrange(
                i as int,
                i + wanted@.len(),
            ));
            assert(rest.skip(wanted@.len() as int) =~= source@.skip(i + wanted@.len()));
            result.append(with);
            i += wanted.len();
            assert(result@ + replaced(source@.skip(i as int), pattern@, with@) =~= before
                + replaced(rest, pattern@, with@));
        } else {
            assert(!occurs_at(rest, pattern@, 0)) by {
                if occurs_at(rest, pattern@, 0) {
                    assert(rest.subrange(0, wanted@.len() as int) =~= source@.subrange(
                        i as int,
                        i + wanted@.len(),
                    ));
                }
            }
            assert(rest.skip(1) =~= source@.skip(i + 1));
            result.push(source[i]);
            i += 1;
            assert(result@ + replaced(source@.skip(i as int), pattern@, with@) =~= before
                + replaced(rest, pattern@, with@));
        }
    }
    assert(source@.skip(i as int) =~= Seq::<char>::empty());
    assert(result@ + Seq::<char>::empty() =~= result@);
    result
}

/// The character of a decimal digit.
pub open spec fn digit(d: nat) -> char {
    (48 + d) as char
}

/// The decimal numeral of `n`, without leading zeros.
pub open spec fn decimal(n: nat) -> Seq<char>
    decreases n,
{
    if n < 10 {
        seq![digit(n)]
    } else {
        decimal(n / 10).push(digit(n % 10))
    }
}

/// Whether `c` is one of the characters `0` to `9`.
pub open spec fn is_digit(c: char) -> bool {
    48 <= c as int <= 57
}

/// Writes `n` in decimal.
pub fn decimal_text(n: u64) -> (result: String)
    ensures
        result@ == decimal(n as nat),
{
    let mut reversed: Vec<char> = Vec::new();
    let mut rest: u64 = n;
    while rest >= 10
        invariant
            decimal(rest as nat) + reversed@.reverse() == decimal(n as nat),
        decreases rest,
    {
        let ghost before = reversed@;
        let d: u8 = (rest % 10) as u8;
        reversed.push((48 + d) as char);
        assert(decimal((rest / 10) as nat) + reversed@.reverse() =~= decimal(rest as nat)
            + before.reverse());
        rest = rest / 10;
    }
    let last: u8 = rest as u8;
    let mut result = String::new();
    result.push((48 + last) as char);
    let mut i: usize = reversed.len();
    assert(result@ + reversed@.reverse() == decimal(n as nat)) by {
        assert(result@ =~= decimal(rest as nat));
    }
    assert(reversed@.take(i as int) =~= reversed@);
    while i > 0
        invariant
            i <= reversed@.len(),
            result@ + reversed@.take(i as int).reverse() == decimal(n as nat),
        decreases i,
    {
        let ghost before = result@;
        i -= 1;
        result.push(reversed[i]);
        assert(result@ + reversed@.take(i as int).reverse() =~= before + reversed@.take(
            i + 1,
        ).reverse());
    }
    assert(result@ + reversed@.take(0).reverse() =~= result@);
    result
}

/// A decimal numeral is made of digits only, at least one of them.
pub proof fn decimal_is_digits(n: nat)
    ensures
        decimal(n).len() > 0,
        forall|i: int| 0 <= i < decimal(n).len() ==> is_digit(#[trigger] decimal(n)[i]),
    decreases n,
{
    if n >= 10 {
        decimal_is_digits(n / 10);
    }
}

/// Different numbers have different decimal numerals.
pub proof fn decimal_is_injective(a: nat, b: nat)
    requires
        decimal(a) == decimal(b),
    ensures
        a == b,
    decreases a,
{
    decimal_is_digits(a / 10);
    decimal_is_digits(b / 10);
    assert(decimal(a).last() == digit(a % 10));
    assert(decimal(b).last() == digit(b % 10));
    assert(digit(a % 10) as int == 48 + a % 10);
    assert(digit(b % 10) as int == 48 + b % 10);
    if a >= 10 && b >= 10 {
        assert(decimal(a).drop_last() =~= decimal(a / 10));
        assert(decimal(b).drop_last() =~= decimal(b / 10));
        decimal_is_injective(a / 10, b / 10);
    }
}

/// The parts, one after the other, with `between` between each two of them.
pub open spec fn joined(parts: Seq<Seq<char>>, between: Seq<char>) -> Seq<char>
    decreases parts.len(),
{
    if parts.len() == 0 {
        Seq::empty()
    } else if parts.len() == 1 {
        parts[0]
    } else {
        parts[0] + between + joined(parts.skip(1), between)
    }
}

/// Whether no part hides a pattern: in a part and the pattern that follows it, the pattern stands
/// at the end of the part and nowhere before, and in the last part it stands nowhere.
pub open spec fn parted_by(parts: Seq<Seq<char>>, pattern: Seq<char>) -> bool {
    &&& parts.len() > 0
    &&& forall|i: int, k: int|
        0 <= i < parts.len() - 1 && 0 <= k < parts[i].len() ==> #[trigger] (parts[i]
            + pattern).subrange(k, k + pattern.len()) != pattern
    &&& forall|k: int|
        0 <= k && k + pattern.len() <= parts.last().len() ==> #[trigger] parts.last().subrange(
            k,
            k + pattern.len(),
        ) != pattern
}

/// Replacing takes a text apart at the occurrences of the pattern, from the left, and puts the
/// same parts together again with the other text between them.
pub proof fn replacing_exchanges_what_parts(
    text: Seq<char>,
    pattern: Seq<char>,
    with: Seq<char>,
) -> (parts: Seq<Seq<char>>)
    requires
        pattern.len() > 0,
    ensures
        parted_by(parts, pattern),
        text == joined(parts, pattern),
        replaced(text, pattern, with) == joined(parts, with),
    decreases text.len(),
{
    let m = pattern.len() as int;
    if text.len() == 0 {
        let parts = seq![Seq::<char>::empty()];
        assert(text =~= joined(parts, pattern));
        parts
    } else if text.len() >= m && text.subrange(0, m) == pattern {
        let rest = replacing_exchanges_what_parts(text.skip(m), pattern, with);
        let parts = seq![Seq::<char>::empty()] + rest;
        assert(parts.skip(1) =~= rest);
        assert(parts.last() == rest.last());
        assert(text =~= pattern + text.skip(m));
        assert(joined(parts, pattern) =~= pattern + joined(rest, pattern));
        assert(joined(parts, with) =~= with + joined(rest, with));
        assert forall|i: int, k: int|
            0 <= i < parts.len() - 1 && 0 <= k < parts[i].len() implies #[trigger] (parts[i]
            + pattern).subrange(k, k + m) != pattern by {
            assert(parts[i] == rest[i - 1]);
        }
        parts
    } else {
        let rest = replacing_exchanges_what_parts(text.skip(1), pattern, with);
        let head = seq![text[0]];
        let parts = rest.update(0, head + rest[0]);
        assert(parts.skip(1) =~= rest.skip(1));
        assert(joined(parts, pattern) =~= head + joined(rest, pattern));
        assert(joined(parts, with) =~= head + joined(rest, with));
        assert(text =~= head + text.skip(1));
        assert forall|i: int, k: int|
            0 <= i < parts.len() - 1 && 0 <= k < parts[i].len() implies #[trigger] (parts[i]
            + pattern).subrange(k, k + m) != pattern by {
            if i == 0 {
                let whole = parts[0] + pattern;
                if k == 0 {
                    assert(text =~= whole + joined(parts.skip(1), pattern));
                    assert(whole.subrange(0, m) =~= text.subrange(0, m));
                } else {
                    assert(whole.subrange(k, k + m) =~= (rest[0] + pattern).subrange(
                        k - 1,
                        k - 1 + m,
                    ));
                }
            } else {
                assert(parts[i] == rest[i]);
            }
        }
        assert forall|k: int|
            0 <= k && k + m <= parts.last().len() implies #[trigger] parts.last().subrange(
            k,
            k + m,
        ) != pattern by {
            if parts.len() == 1 {
                assert(parts.last() == parts[0]);
                assert(rest.last() == rest[0]);
                if k == 0 {
                    assert(parts[0] =~= text);
                } else {
                    assert(parts[0].subrange(k, k + m) =~= rest.last().subrange(k - 1, k - 1 + m));
                }
            } else {
                assert(parts.last() == rest.last());
            }
        }
        parts
    }
}

/// The number that a row of decimal digits denotes.
pub open spec fn denoted(digits: Seq<char>) -> int
    decreases digits.len(),
{
    if digits.len() == 0 {
        0
    } else {
        10 * denoted(digits.drop_last()) + (digits.last() as int - '0' as int)
    }
}

/// A numeral denotes its number, is made of the digits `0` to `9` and does not begin with a zero
/// unless it is a single digit.
pub proof fn numerals_denote_their_numbers(n: nat)
    ensures
        denoted(decimal(n)) == n,
        decimal(n).len() > 0,
        forall|i: int|
            0 <= i < decimal(n).len() ==> '0' as int <= #[trigger] decimal(n)[i] as int
                <= '9' as int,
        decimal(n).len() > 1 ==> decimal(n)[0] != '0',
    decreases n,
{
    assert(digit(n % 10) as int == 48 + n % 10);
    if n >= 10 {
        numerals_denote_their_numbers(n / 10);
        assert(decimal(n).drop_last() =~= decimal(n / 10));
        if decimal(n / 10).len() == 1 {
            reveal_with_fuel(denoted, 2);
            assert(decimal(n / 10).drop_last() =~= Seq::empty());
            assert(denoted(decimal(n / 10)) == decimal(n / 10)[0] as int - 48);
        }
    } else {
        reveal_with_fuel(denoted, 2);
        assert(decimal(n).drop_last() =~= Seq::empty());
    }
}

} // verus!
