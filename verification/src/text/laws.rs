//! What the functions of text promise, over the characters themselves.

use vstd::prelude::*;

#[allow(unused_imports)]
use crate::text;

verus! {

/// White space is exactly these characters.
pub proof fn white_space(c: char)
    ensures
        text::is_space(c) <==> {
            ||| c == '\t' || c == '\n' || c == '\u{b}' || c == '\u{c}' || c == '\r' || c == ' '
            ||| c == '\u{85}' || c == '\u{a0}' || c == '\u{1680}' || c == '\u{2000}'
            ||| c == '\u{2001}' || c == '\u{2002}' || c == '\u{2003}' || c == '\u{2004}'
            ||| c == '\u{2005}' || c == '\u{2006}' || c == '\u{2007}' || c == '\u{2008}'
            ||| c == '\u{2009}' || c == '\u{200a}' || c == '\u{2028}' || c == '\u{2029}'
            ||| c == '\u{202f}' || c == '\u{205f}' || c == '\u{3000}'
        },
{
}

/// Every character of `s` is white space.
pub open spec fn blank(s: Seq<char>) -> bool {
    forall|i: int| 0 <= i < s.len() ==> text::is_space(#[trigger] s[i])
}

/// Every character of `s` is white space or a slash.
pub open spec fn blank_or_slashes(s: Seq<char>) -> bool {
    forall|i: int| 0 <= i < s.len() ==> text::is_space(#[trigger] s[i]) || s[i] == '/'
}

/// Trimming gives back what stands between white space, whole: the text `s`,
/// which neither begins nor ends with white space, whatever white space is put
/// around it.
pub proof fn trimming_gives_back_what_was_padded(
    before: Seq<char>,
    s: Seq<char>,
    after: Seq<char>,
)
    requires
        blank(before),
        blank(after),
        s.len() > 0 ==> !text::is_space(s.first()) && !text::is_space(s.last()),
    ensures
        text::trimmed(before + s + after) == s,
{
    let none = Seq::<char>::empty();
    if s.len() > 0 {
        start_is_cut(before, s + after);
        assert(before + (s + after) =~= before + s + after);
        end_is_cut(s, after);
    } else {
        let all = before + s + after;
        assert(blank(all)) by {
            assert forall|i: int| 0 <= i < all.len() implies text::is_space(#[trigger] all[i]) by {
                if i < before.len() {
                    assert(all[i] == before[i]);
                } else {
                    assert(all[i] == after[i - before.len()]);
                }
            }
        }
        start_is_cut(all, none);
        assert(all + none =~= all);
        assert(s =~= none);
    }
}

/// Trimming leaves a text alone that neither begins nor ends with white space.
pub proof fn trimming_keeps_what_is_bare(s: Seq<char>)
    requires
        s.len() > 0 ==> !text::is_space(s.first()) && !text::is_space(s.last()),
    ensures
        text::trimmed(s) == s,
{
    let none = Seq::<char>::empty();
    trimming_gives_back_what_was_padded(none, s, none);
    assert(none + s + none =~= s);
}

/// Every text is a bare one with white space around it.
pub proof fn every_text_is_padded(s: Seq<char>) -> (r: (Seq<char>, Seq<char>))
    ensures
        blank(r.0),
        blank(r.1),
        s == r.0 + text::trimmed(s) + r.1,
        text::trimmed(s).len() > 0 ==> !text::is_space(text::trimmed(s).first())
            && !text::is_space(text::trimmed(s).last()),
    decreases s.len(),
{
    let none = Seq::<char>::empty();
    if s.len() > 0 && text::is_space(s.first()) {
        let (before, after) = every_text_is_padded(s.drop_first());
        let longer = seq![s.first()] + before;
        assert(text::trimmed(s) == text::trimmed(s.drop_first()));
        assert(s =~= seq![s.first()] + (before + text::trimmed(s) + after));
        assert(s =~= longer + text::trimmed(s) + after);
        (longer, after)
    } else if s.len() > 0 && text::is_space(s.last()) {
        let front = s.drop_last();
        let (before, after) = every_text_is_padded(front);
        let longer = after.push(s.last());
        assert(front.len() > 0 ==> front.first() == s.first());
        assert(text::trimmed(s) == text::trimmed(front));
        assert(s =~= (before + text::trimmed(s) + after).push(s.last()));
        assert(s =~= before + text::trimmed(s) + longer);
        (before, longer)
    } else {
        assert(s =~= none + s + none);
        (none, none)
    }
}

pub(crate) proof fn start_is_cut(before: Seq<char>, rest: Seq<char>)
    requires
        blank(before),
        rest.len() > 0 ==> !text::is_space(rest.first()),
    ensures
        text::trim_start(before + rest) == rest,
    decreases before.len(),
{
    let all = before + rest;
    if before.len() > 0 {
        assert(all.first() == before[0]);
        assert(all.drop_first() =~= before.drop_first() + rest);
        assert forall|i: int| 0 <= i < before.drop_first().len() implies text::is_space(
            #[trigger] before.drop_first()[i],
        ) by {
            assert(before.drop_first()[i] == before[i + 1]);
        }
        start_is_cut(before.drop_first(), rest);
    } else {
        assert(all =~= rest);
    }
}

proof fn end_is_cut(s: Seq<char>, after: Seq<char>)
    requires
        blank(after),
        s.len() > 0,
        !text::is_space(s.last()),
    ensures
        text::trim_end(s + after) == s,
    decreases after.len(),
{
    let all = s + after;
    if after.len() > 0 {
        assert(all.last() == after[after.len() - 1]);
        assert(all.drop_last() =~= s + after.drop_last());
        assert forall|i: int| 0 <= i < after.drop_last().len() implies text::is_space(
            #[trigger] after.drop_last()[i],
        ) by {
            assert(after.drop_last()[i] == after[i]);
        }
        end_is_cut(s, after.drop_last());
    } else {
        assert(all =~= s);
    }
}

/// What ends neither with white space nor with a slash is left of it with white
/// space and slashes behind it.
pub(crate) proof fn bare_end_is_cut(s: Seq<char>, after: Seq<char>)
    requires
        blank_or_slashes(after),
        s.len() > 0 ==> !text::is_space(s.last()) && s.last() != '/',
    ensures
        text::bare_end(s + after) == s,
    decreases after.len(),
{
    let all = s + after;
    if after.len() > 0 {
        assert(all.last() == after[after.len() - 1]);
        assert(all.drop_last() =~= s + after.drop_last());
        assert forall|i: int| 0 <= i < after.drop_last().len() implies text::is_space(
            #[trigger] after.drop_last()[i],
        ) || after.drop_last()[i] == '/' by {
            assert(after.drop_last()[i] == after[i]);
        }
        bare_end_is_cut(s, after.drop_last());
    } else {
        assert(all =~= s);
    }
}

/// Lower-casing moves each of the letters from `A` to `Z` to the one 32 places
/// on, and nothing else.
pub proof fn lower_case_moves_capitals_only(s: Seq<char>)
    ensures
        text::lowered(s).len() == s.len(),
        forall|i: int|
            0 <= i < s.len() ==> (#[trigger] text::lowered(s)[i]) as int == if 65 <= s[i] as int
                <= 90 {
                s[i] as int + 32
            } else {
                s[i] as int
            },
{
}

/// A text holds a part exactly when it is the part with something before it and
/// something after it.
pub proof fn part_with_text_around_it(s: Seq<char>, part: Seq<char>)
    ensures
        text::has_part(s, part) <==> exists|before: Seq<char>, after: Seq<char>|
            s == #[trigger] (before + part + after),
{
    if text::has_part(s, part) {
        let i = choose|i: int| #[trigger] text::stands_at(s, part, i);
        let before = s.subrange(0, i);
        let after = s.subrange(i + part.len(), s.len() as int);
        assert(s =~= before + part + after);
    }
    if exists|before: Seq<char>, after: Seq<char>| s == #[trigger] (before + part + after) {
        let (before, after) = choose|before: Seq<char>, after: Seq<char>|
            s == #[trigger] (before + part + after);
        text::part_of_itself(part);
        text::part_of_longer(before, part, after, part);
    }
}

/// Of two texts, the first character in which they differ decides which comes
/// first.
pub proof fn first_difference_decides(
    start: Seq<char>,
    c: char,
    s: Seq<char>,
    d: char,
    t: Seq<char>,
)
    requires
        (c as int) < (d as int),
    ensures
        text::precedes(start + seq![c] + s, start + seq![d] + t),
        !text::precedes(start + seq![d] + t, start + seq![c] + s),
{
    let a = start + seq![c] + s;
    let b = start + seq![d] + t;
    let n = start.len() as int;
    assert(a[n] == c && b[n] == d);
    assert forall|j: int| 0 <= j < n implies #[trigger] a[j] == b[j] by {
        assert(a[j] == start[j] && b[j] == start[j]);
    }
    assert(text::precedes_at(a, b, n));
    if text::precedes(b, a) {
        text::precedes_transitive(a, b, a);
        text::precedes_irreflexive(a);
    }
}

/// A text comes before every longer one that begins with it.
pub proof fn shorter_comes_first(start: Seq<char>, rest: Seq<char>)
    requires
        rest.len() > 0,
    ensures
        text::precedes(start, start + rest),
        !text::precedes(start + rest, start),
{
    let b = start + rest;
    assert forall|j: int| 0 <= j < start.len() implies #[trigger] start[j] == b[j] by {}
    assert(text::precedes_at(start, b, start.len() as int));
    if text::precedes(b, start) {
        text::precedes_transitive(start, b, start);
        text::precedes_irreflexive(start);
    }
}

/// Ten times a number and a digit is written with the digit behind the number:
/// the digits are `0` to `9`, and no number but zero begins with a zero.
pub proof fn decimal_puts_the_digit_behind(n: nat, d: nat)
    requires
        d < 10,
    ensures
        text::decimal(d).len() == 1,
        text::decimal(d)[0] as int == 48 + d,
        n > 0 ==> text::decimal(10 * n + d) == text::decimal(n) + text::decimal(d),
        n > 0 ==> text::decimal(n)[0] != '0',
    decreases n,
{
    decimal_digit(d);
    if n > 0 {
        assert((10 * n + d) / 10 == n && (10 * n + d) % 10 == d);
        assert(text::decimal(10 * n + d) =~= text::decimal(n) + text::decimal(d));
        if n < 10 {
            decimal_digit(n);
        } else {
            decimal_puts_the_digit_behind(n / 10, n % 10);
            decimal_has_digits(n / 10);
        }
    }
}

/// A number in decimal is one or more digits, whose value is the number.
pub proof fn decimal_has_digits(n: nat)
    ensures
        text::decimal(n).len() > 0,
        text::all_digits(text::decimal(n)),
        text::digits_value(text::decimal(n)) == n,
    decreases n,
{
    let d = n % 10;
    decimal_digit(d);
    if n >= 10 {
        decimal_has_digits(n / 10);
        let front = text::decimal(n / 10);
        assert(text::decimal(n) =~= front.push(text::digit(d as int)));
        assert(text::decimal(n).drop_last() =~= front);
        assert forall|i: int| 0 <= i < text::decimal(n).len() implies '0' <= #[trigger] text::decimal(n)[i]
            <= '9' by {
            if i < front.len() {
                assert(text::decimal(n)[i] == front[i]);
            }
        }
    } else {
        let s = text::decimal(n);
        assert(s.drop_last() =~= Seq::empty());
        assert(text::digits_value(s.drop_last()) == 0);
    }
}

proof fn decimal_digit(d: nat)
    requires
        d < 10,
    ensures
        text::digit(d as int) as int == 48 + d,
{
    reveal_strlit("0123456789");
}

/// Reading a number gives back the one that was written, where a `u64` holds it,
/// with or without a plus sign before it.
pub proof fn number_reads_what_decimal_writes(n: nat)
    ensures
        n <= u64::MAX ==> text::number(text::decimal(n)) == Some(n as int),
        n <= u64::MAX ==> text::number(seq!['+'] + text::decimal(n)) == Some(n as int),
        n > u64::MAX ==> text::number(text::decimal(n)) is None,
{
    let s = text::decimal(n);
    decimal_has_digits(n);
    assert('0' <= s[0] <= '9');
    assert((seq!['+'] + s).drop_first() =~= s);
}

/// One more digit behind a number reads as ten times the number and the digit,
/// as long as a `u64` holds it.
pub proof fn one_more_digit(s: Seq<char>, c: char)
    requires
        text::number(s) is Some,
        48 <= c as int <= 57,
    ensures
        text::number(s.push(c)) == if 10 * text::number(s)->0 + (c as int - 48) <= u64::MAX {
            Some(10 * text::number(s)->0 + (c as int - 48))
        } else {
            None
        },
{
    let t = s.push(c);
    let digits = text::without_plus(s);
    assert(text::without_plus(t) =~= digits.push(c));
    assert(digits.push(c).drop_last() =~= digits);
    assert(text::all_digits(digits.push(c)));
}

/// What holds anything but digits, a plus sign at its start aside, is no number,
/// and neither is an empty text.
pub proof fn only_digits_are_a_number(s: Seq<char>)
    ensures
        s.len() == 0 ==> text::number(s) is None,
        forall|i: int|
            0 <= i < s.len() && !(48 <= (#[trigger] s[i]) as int <= 57) && !(i == 0 && s[i] == '+')
                ==> text::number(s) is None,
{
    assert forall|i: int|
        0 <= i < s.len() && !(48 <= (#[trigger] s[i]) as int <= 57) && !(i == 0 && s[i]
            == '+') implies text::number(s) is None by {
        let digits = text::without_plus(s);
        if s.first() == '+' {
            assert(digits[i - 1] == s[i]);
        } else {
            assert(digits[i] == s[i]);
        }
    }
}

/// Joining two lists is joining each, with the separator between them.
pub proof fn joining_lists(a: Seq<Seq<char>>, b: Seq<Seq<char>>, sep: Seq<char>)
    requires
        a.len() > 0,
        b.len() > 0,
    ensures
        text::joined(a + b, sep) == text::joined(a, sep) + sep + text::joined(b, sep),
    decreases b.len(),
{
    let all = a + b;
    assert(all.drop_last() =~= a + b.drop_last());
    assert(all.last() == b.last());
    if b.len() == 1 {
        assert(a + b.drop_last() =~= a);
    } else {
        joining_lists(a, b.drop_last(), sep);
        assert(text::joined(all, sep) =~= text::joined(a, sep) + sep + text::joined(b, sep));
    }
}

/// Joining nothing gives nothing, and joining one part gives the part.
pub proof fn joining_one(s: Seq<char>, sep: Seq<char>)
    ensures
        text::joined(Seq::empty(), sep) == Seq::<char>::empty(),
        text::joined(seq![s], sep) == s,
{
}

} // verus!
