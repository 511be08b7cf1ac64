//! What the operations on texts give, character by character.

use vstd::prelude::*;

use crate::text;

verus! {

/// Two texts are the same but for case exactly if they have the same length and at every place the
/// same character, or one and the same ASCII letter as a capital and as a small one.
pub proof fn case_in_full(a: Seq<char>, b: Seq<char>)
    ensures
        text::same_ignoring_case(a, b) <==> a.len() == b.len() && forall|i: int|
            0 <= i < a.len() ==> {
                ||| #[trigger] a[i] == b[i]
                ||| 'A' <= a[i] <= 'Z' && b[i] as u32 == a[i] as u32 + 32
                ||| 'A' <= b[i] <= 'Z' && a[i] as u32 == b[i] as u32 + 32
            },
{
    let x = a.map_values(|c: char| text::ascii_lower(c));
    let y = b.map_values(|c: char| text::ascii_lower(c));
    if text::same_ignoring_case(a, b) {
        assert(x.len() == a.len() && y.len() == b.len());
        assert forall|i: int| 0 <= i < a.len() implies {
            ||| #[trigger] a[i] == b[i]
            ||| 'A' <= a[i] <= 'Z' && b[i] as u32 == a[i] as u32 + 32
            ||| 'A' <= b[i] <= 'Z' && a[i] as u32 == b[i] as u32 + 32
        } by {
            assert(x[i] == y[i]);
            assert(x[i] == text::ascii_lower(a[i]));
            assert(y[i] == text::ascii_lower(b[i]));
        }
    }
    if a.len() == b.len() && forall|i: int|
        0 <= i < a.len() ==> {
            ||| #[trigger] a[i] == b[i]
            ||| 'A' <= a[i] <= 'Z' && b[i] as u32 == a[i] as u32 + 32
            ||| 'A' <= b[i] <= 'Z' && a[i] as u32 == b[i] as u32 + 32
        } {
        assert forall|i: int| 0 <= i < x.len() implies x[i] == y[i] by {
            assert(a[i] == a[i]);
            assert(x[i] == text::ascii_lower(a[i]));
            assert(y[i] == text::ascii_lower(b[i]));
        }
        assert(x =~= y);
    }
}

/// An empty text counts as none, any other as itself.
pub proof fn emptiness_in_full(o: Option<Seq<char>>)
    ensures
        o is None ==> text::nonempty(o) is None,
        o matches Some(s) ==> (s.len() == 0 ==> text::nonempty(o) is None) && (s.len() > 0
            ==> text::nonempty(o) == Some(s)),
{
}

proof fn trimmed_start_at(s: Seq<char>)
    ensures
        ({
            let t = text::trimmed_start(s);
            let n = s.len() - t.len();
            &&& n >= 0
            &&& t == s.skip(n)
            &&& forall|i: int| 0 <= i < n ==> text::is_space(#[trigger] s[i])
            &&& t.len() > 0 ==> !text::is_space(t[0])
        }),
    decreases s.len(),
{
    if s.len() > 0 && text::is_space(s[0]) {
        let rest = s.drop_first();
        trimmed_start_at(rest);
        let t = text::trimmed_start(s);
        let n = s.len() - t.len();
        assert(t =~= s.skip(n));
        assert forall|i: int| 0 <= i < n implies text::is_space(#[trigger] s[i]) by {
            if i > 0 {
                assert(rest[i - 1] == s[i]);
            }
        }
    } else {
        assert(s.skip(0) =~= s);
    }
}

proof fn trimmed_end_at(s: Seq<char>)
    ensures
        ({
            let t = text::trimmed_end(s);
            &&& t.len() <= s.len()
            &&& t == s.take(t.len() as int)
            &&& forall|i: int| t.len() <= i < s.len() ==> text::is_space(#[trigger] s[i])
            &&& t.len() > 0 ==> !text::is_space(t.last())
        }),
    decreases s.len(),
{
    if s.len() > 0 && text::is_space(s.last()) {
        let rest = s.drop_last();
        trimmed_end_at(rest);
        let t = text::trimmed_end(s);
        assert(t =~= s.take(t.len() as int));
        assert forall|i: int| t.len() <= i < s.len() implies text::is_space(#[trigger] s[i]) by {
            if i < rest.len() {
                assert(rest[i] == s[i]);
            }
        }
    } else {
        assert(s.take(s.len() as int) =~= s);
    }
}

/// Trimming cuts white space off both ends and nothing else: what is left stands in the text, only
/// white space stands before and behind it, and it neither begins nor ends with any.
pub proof fn trimming_in_full(s: Seq<char>) -> (from: int)
    ensures
        ({
            let t = text::trimmed(s);
            &&& 0 <= from && from + t.len() <= s.len()
            &&& t == s.subrange(from, from + t.len())
            &&& forall|i: int| 0 <= i < from ==> text::is_space(#[trigger] s[i])
            &&& forall|i: int| from + t.len() <= i < s.len() ==> text::is_space(#[trigger] s[i])
            &&& t.len() > 0 ==> !text::is_space(t[0]) && !text::is_space(t.last())
        }),
{
    trimmed_start_at(s);
    let start = text::trimmed_start(s);
    trimmed_end_at(start);
    let t = text::trimmed(s);
    let from = s.len() - start.len();
    assert(t =~= s.subrange(from, from + t.len()));
    assert forall|i: int| from + t.len() <= i < s.len() implies text::is_space(#[trigger] s[i]) by {
        assert(start[i - from] == s[i]);
    }
    if t.len() > 0 {
        assert(t[0] == start[0]);
    }
    from
}

/// The characters that count as white space; no visible ASCII character is among them.
pub proof fn white_space(c: char)
    ensures
        text::is_space(c) <==> {
            ||| c == ' ' || c == '\t' || c == '\n' || c == '\r' || c == '\u{b}' || c == '\u{c}'
            ||| c == '\u{85}' || c == '\u{a0}' || c == '\u{1680}' || c == '\u{2028}' || c
                == '\u{2029}'
            ||| '\u{2000}' <= c <= '\u{200a}'
            ||| c == '\u{202f}' || c == '\u{205f}' || c == '\u{3000}'
        },
        '!' <= c <= '~' ==> !text::is_space(c),
{
}

/// A part of a text that neither begins nor ends with white space, with nothing but white space
/// around it, is what trimming leaves.
pub proof fn trimming_leaves(s: Seq<char>, from: int, to: int)
    requires
        0 <= from <= to <= s.len(),
        forall|i: int| 0 <= i < from ==> text::is_space(#[trigger] s[i]),
        forall|i: int| to <= i < s.len() ==> text::is_space(#[trigger] s[i]),
        from < to ==> !text::is_space(s[from]) && !text::is_space(s[to - 1]),
    ensures
        text::trimmed(s) == s.subrange(from, to),
{
    let first = trimming_in_full(s);
    let t = text::trimmed(s);
    let last = first + t.len();
    if t.len() > 0 {
        assert(t[0] == s[first]);
        assert(t.last() == s[last - 1]);
        assert(from <= first < to && from < last <= to);
        assert(first == from && last == to);
    }
    assert(t =~= s.subrange(from, to));
}

/// Digits are read as the number that they write, with or without a plus sign before them, as
/// far as the type holds it; a minus sign is read by the signed type alone.
pub proof fn numbers_in_full(s: Seq<char>)
    requires
        s.len() > 0,
        forall|i: int| 0 <= i < s.len() ==> '0' <= #[trigger] s[i] <= '9',
    ensures
        ({
            let n = text::digits_value(s);
            let plus = seq!['+'] + s;
            let minus = seq!['-'] + s;
            &&& n <= 0xffff_ffff_ffff_ffff ==> text::u64_of(s) == Some(n as u64) && text::u64_of(
                plus,
            ) == Some(n as u64)
            &&& n > 0xffff_ffff_ffff_ffff ==> text::u64_of(s) is None && text::u64_of(plus) is None
            &&& text::u64_of(minus) is None
            &&& n <= 0x7fff_ffff_ffff_ffff ==> text::i64_of(s) == Some(n as i64) && text::i64_of(
                plus,
            ) == Some(n as i64)
            &&& n > 0x7fff_ffff_ffff_ffff ==> text::i64_of(s) is None && text::i64_of(plus) is None
            &&& n <= 0x8000_0000_0000_0000 ==> text::i64_of(minus) == Some((-(n as int)) as i64)
            &&& n > 0x8000_0000_0000_0000 ==> text::i64_of(minus) is None
        }),
{
    let plus = seq!['+'] + s;
    let minus = seq!['-'] + s;
    assert(plus.drop_first() =~= s);
    assert(minus.drop_first() =~= s);
    assert(text::all_digits(s)) by {
        assert forall|i: int| 0 <= i < s.len() implies text::is_digit(#[trigger] s[i]) by {}
    }
    assert('0' <= s[0] <= '9');
    assert(!text::is_digit(minus[0]));
    assert(!text::all_digits(minus));
}

/// What holds anything but digits behind a sign is no number.
pub proof fn other_texts_are_no_numbers(s: Seq<char>, i: int)
    requires
        0 <= i < s.len(),
        !('0' <= s[i] <= '9'),
        i == 0 ==> s.len() == 1 || (s[0] != '+' && s[0] != '-'),
    ensures
        text::u64_of(s) is None,
        text::i64_of(s) is None,
{
    let rest = s.drop_first();
    assert(!text::is_digit(s[i]));
    assert(!text::all_digits(s));
    if i > 0 {
        assert(rest[i - 1] == s[i]);
        assert(!text::is_digit(rest[i - 1]));
    }
    assert(s[0] == '+' || s[0] == '-' ==> !text::all_digits(rest));
}

/// One more digit behind a number makes it ten times as large, plus the digit.
pub proof fn places_in_full(s: Seq<char>, d: char)
    requires
        '0' <= d <= '9',
    ensures
        text::digits_value(s.push(d)) == 10 * text::digits_value(s) + (d as int - '0' as int),
        text::digits_value(seq![]) == 0,
{
    assert(s.push(d).drop_last() =~= s);
}

/// What follows the last mark: it holds no mark, the text ends with it, and before it stands a
/// mark or nothing.
pub proof fn last_segments_in_full(s: Seq<char>, mark: char)
    ensures
        ({
            let t = text::after_last(s, mark);
            let n = s.len() - t.len();
            &&& n >= 0
            &&& t == s.skip(n)
            &&& !t.contains(mark)
            &&& n == 0 || s[n - 1] == mark
        }),
    decreases s.len(),
{
    let t = text::after_last(s, mark);
    if s.len() > 0 && s.last() != mark {
        let rest = s.drop_last();
        last_segments_in_full(rest, mark);
        let u = text::after_last(rest, mark);
        let n = s.len() - t.len();
        assert(t =~= s.skip(n));
        if t.contains(mark) {
            let k = choose|k: int| 0 <= k < t.len() && t[k] == mark;
            if k < u.len() {
                assert(u[k] == mark);
                assert(u.contains(mark));
            }
        }
        if n > 0 {
            assert(rest[n - 1] == s[n - 1]);
        }
    } else {
        assert(t =~= s.skip(s.len() as int));
    }
}

} // verus!
