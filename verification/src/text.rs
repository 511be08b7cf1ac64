//! Text as the program handles it: UTF-8 on the outside, characters in the statements.

pub mod laws;

use vstd::prelude::*;
use vstd::utf8::*;

verus! {

/// `part` stands somewhere in `whole`.
pub open spec fn occurs<T>(whole: Seq<T>, part: Seq<T>) -> bool {
    exists|k: int| #[trigger] occurs_at(whole, part, k)
}

/// `part` stands in `whole` from index `k` on.
pub open spec fn occurs_at<T>(whole: Seq<T>, part: Seq<T>, k: int) -> bool {
    0 <= k && k + part.len() <= whole.len() && whole.subrange(k, k + part.len()) == part
}

/// Encoding a concatenation concatenates the encodings.
pub proof fn lemma_encode_concat(a: Seq<char>, b: Seq<char>)
    ensures
        encode_utf8(a + b) == encode_utf8(a) + encode_utf8(b),
    decreases a.len(),
{
    if a.len() == 0 {
        assert(a + b =~= b);
        assert(encode_utf8(a) + encode_utf8(b) =~= encode_utf8(b));
    } else {
        let rest = a.drop_first();
        lemma_encode_concat(rest, b);
        assert((a + b).drop_first() =~= rest + b);
        let head = encode_scalar(a[0] as u32);
        assert(head + (encode_utf8(rest) + encode_utf8(b)) =~= (head + encode_utf8(rest))
            + encode_utf8(b));
    }
}

/// A prefix that is valid by itself ends on a character boundary.
proof fn lemma_valid_prefix_ends_on_boundary(bytes: Seq<u8>, n: int)
    requires
        valid_utf8(bytes),
        0 <= n <= bytes.len(),
        valid_utf8(bytes.subrange(0, n)),
    ensures
        is_char_boundary(bytes, n),
    decreases bytes.len(),
{
    if n > 0 {
        let prefix = bytes.subrange(0, n);
        let width = length_of_first_scalar(bytes);
        assert(length_of_first_scalar(prefix) == width);
        let rest = pop_first_scalar(bytes);
        assert(pop_first_scalar(prefix) =~= rest.subrange(0, n - width));
        lemma_valid_prefix_ends_on_boundary(rest, n - width);
    }
}

/// A text occurs in another exactly if its UTF-8 bytes do.
pub proof fn lemma_occurs_bytes(whole: Seq<char>, part: Seq<char>)
    ensures
        occurs(whole, part) == occurs(encode_utf8(whole), encode_utf8(part)),
{
    let w = encode_utf8(whole);
    let p = encode_utf8(part);
    encode_utf8_valid_utf8(whole);
    encode_utf8_valid_utf8(part);
    encode_utf8_decode_utf8(whole);
    encode_utf8_decode_utf8(part);
    if occurs(whole, part) {
        let k = choose|k: int| #[trigger] occurs_at(whole, part, k);
        let before = whole.subrange(0, k);
        let after = whole.subrange(k + part.len(), whole.len() as int);
        assert(whole =~= (before + part) + after);
        lemma_encode_concat(before + part, after);
        lemma_encode_concat(before, part);
        let at = encode_utf8(before).len() as int;
        assert(w.subrange(at, at + p.len()) =~= p);
        assert(occurs_at(w, p, at));
    }
    if occurs(w, p) {
        let k = choose|k: int| #[trigger] occurs_at(w, p, k);
        if p.len() == 0 {
            if part.len() > 0 {
                encode_utf8_first_scalar(part);
            }
            assert(whole.subrange(0, 0) =~= part);
            assert(occurs_at(whole, part, 0));
        } else {
            assert(p[0] == w.subrange(k, k + p.len())[0]);
            is_char_boundary_start_end_of_seq(p);
            is_char_boundary_iff_not_is_continuation_byte(p, 0);
            is_char_boundary_iff_not_is_continuation_byte(w, k);
            valid_utf8_split(w, k);
            decode_utf8_split(w, k);
            let tail = w.subrange(k, w.len() as int);
            let n = p.len() as int;
            assert(tail.subrange(0, n) =~= p);
            lemma_valid_prefix_ends_on_boundary(tail, n);
            decode_utf8_split(tail, n);
            let before = decode_utf8(w.subrange(0, k));
            let after = decode_utf8(tail.subrange(n, tail.len() as int));
            assert(whole =~= before + (part + after));
            let at = before.len() as int;
            assert(whole.subrange(at, at + part.len()) =~= part);
            assert(occurs_at(whole, part, at));
        }
    }
}


/// `String::push`: the character goes to the end.
pub assume_specification[ String::push ](s: &mut String, c: char)
    ensures
        final(s)@ == old(s)@.push(c),
;

/// The characters of `s`.
pub fn chars_of(s: &str) -> (chars: Vec<char>)
    ensures
        chars@ == s@,
{
    let mut chars: Vec<char> = Vec::new();
    for c in it: s.chars()
        invariant
            chars@ == s@.take(it.index() as int),
            it.seq() == s@,
    {
        chars.push(c);
        proof {
            assert(s@.take(it.index() + 1) =~= s@.take(it.index() as int).push(c));
        }
    }
    assert(s@.take(s@.len() as int) =~= s@);
    chars
}

/// The text made of the characters from `from` up to `to`.
pub fn text_of(chars: &Vec<char>, from: usize, to: usize) -> (s: String)
    requires
        from <= to <= chars@.len(),
    ensures
        s@ == chars@.subrange(from as int, to as int),
{
    let mut s = String::new();
    let mut i: usize = from;
    assert(chars@.subrange(from as int, from as int) =~= Seq::<char>::empty());
    while i < to
        invariant
            from <= i <= to <= chars@.len(),
            s@ == chars@.subrange(from as int, i as int),
        decreases to - i,
    {
        s.push(chars[i]);
        assert(chars@.subrange(from as int, i + 1) =~= chars@.subrange(from as int, i as int).push(
            chars@[i as int],
        ));
        i = i + 1;
    }
    s
}

/// Equal bytes are equal texts.
proof fn lemma_encode_injective(a: Seq<char>, b: Seq<char>)
    requires
        encode_utf8(a) == encode_utf8(b),
    ensures
        a == b,
{
    encode_utf8_decode_utf8(a);
    encode_utf8_decode_utf8(b);
}

/// Whether the two texts are the same.
pub fn same_text(a: &str, b: &str) -> (same: bool)
    ensures
        same == (a@ == b@),
{
    let x = a.as_bytes();
    let y = b.as_bytes();
    if x.len() != y.len() {
        return false;
    }
    let mut i: usize = 0;
    while i < x.len()
        invariant
            i <= x@.len(),
            x@.len() == y@.len(),
            x@ == encode_utf8(a@),
            y@ == encode_utf8(b@),
            forall|k: int| 0 <= k < i ==> x@[k] == y@[k],
        decreases x@.len() - i,
    {
        if x[i] != y[i] {
            return false;
        }
        i = i + 1;
    }
    proof {
        assert(x@ =~= y@);
        lemma_encode_injective(a@, b@);
    }
    true
}

/// The lower-case form of an ASCII capital; any other character itself.
pub open spec fn ascii_lower(c: char) -> char {
    if 'A' <= c <= 'Z' {
        (c as u32 + 32) as char
    } else {
        c
    }
}

/// The texts differ at most in the case of ASCII letters.
pub open spec fn same_ignoring_case(a: Seq<char>, b: Seq<char>) -> bool {
    a.map_values(|c: char| ascii_lower(c)) == b.map_values(|c: char| ascii_lower(c))
}

fn lower(c: char) -> (r: char)
    ensures
        r == ascii_lower(c),
{
    if 'A' <= c && c <= 'Z' {
        (c as u8 + 32) as char
    } else {
        c
    }
}

/// Whether the texts differ at most in the case of ASCII letters.
pub fn eq_ignore_ascii_case(a: &str, b: &str) -> (same: bool)
    ensures
        same == same_ignoring_case(a@, b@),
{
    let x = chars_of(a);
    let y = chars_of(b);
    let ghost la = a@.map_values(|c: char| ascii_lower(c));
    let ghost lb = b@.map_values(|c: char| ascii_lower(c));
    if x.len() != y.len() {
        proof {
            assert(la.len() != lb.len());
        }
        return false;
    }
    let mut i: usize = 0;
    while i < x.len()
        invariant
            i <= x@.len(),
            x@.len() == y@.len(),
            x@ == a@,
            y@ == b@,
            la == a@.map_values(|c: char| ascii_lower(c)),
            lb == b@.map_values(|c: char| ascii_lower(c)),
            forall|k: int| 0 <= k < i ==> la[k] == lb[k],
        decreases x@.len() - i,
    {
        let p: char = lower(x[i]);
        let q: char = lower(y[i]);
        assert(la[i as int] == p);
        assert(lb[i as int] == q);
        if p != q {
            return false;
        }
        i = i + 1;
    }
    assert(la =~= lb);
    true
}


/// Unicode white space.
pub open spec fn is_space(c: char) -> bool {
    let n = c as u32;
    ||| 0x9 <= n <= 0xd
    ||| n == 0x20
    ||| n == 0x85
    ||| n == 0xa0
    ||| n == 0x1680
    ||| 0x2000 <= n <= 0x200a
    ||| n == 0x2028
    ||| n == 0x2029
    ||| n == 0x202f
    ||| n == 0x205f
    ||| n == 0x3000
}

fn space(c: char) -> (r: bool)
    ensures
        r == is_space(c),
{
    let n: u32 = c as u32;
    (0x9 <= n && n <= 0xd) || n == 0x20 || n == 0x85 || n == 0xa0 || n == 0x1680 || (0x2000 <= n && n
        <= 0x200a) || n == 0x2028 || n == 0x2029 || n == 0x202f || n == 0x205f || n == 0x3000
}

/// `s` without the white space it starts with.
pub open spec fn trimmed_start(s: Seq<char>) -> Seq<char>
    decreases s.len(),
{
    if s.len() > 0 && is_space(s[0]) {
        trimmed_start(s.drop_first())
    } else {
        s
    }
}

/// `s` without the white space it ends with.
pub open spec fn trimmed_end(s: Seq<char>) -> Seq<char>
    decreases s.len(),
{
    if s.len() > 0 && is_space(s.last()) {
        trimmed_end(s.drop_last())
    } else {
        s
    }
}

/// `s` without the white space at either end.
pub open spec fn trimmed(s: Seq<char>) -> Seq<char> {
    trimmed_end(trimmed_start(s))
}

/// Cuts the white space off both ends.
pub fn trim(s: &str) -> (r: String)
    ensures
        r@ == trimmed(s@),
{
    let chars = chars_of(s);
    let mut from: usize = 0;
    assert(s@.skip(0) =~= s@);
    while from < chars.len() && space(chars[from])
        invariant
            from <= chars@.len(),
            chars@ == s@,
            trimmed_start(s@) == trimmed_start(s@.skip(from as int)),
        decreases chars@.len() - from,
    {
        assert(s@.skip(from as int).drop_first() =~= s@.skip(from + 1));
        from = from + 1;
    }
    let ghost start = s@.skip(from as int);
    let mut to: usize = chars.len();
    assert(start =~= s@.subrange(from as int, to as int));
    while to > from && space(chars[to - 1])
        invariant
            from <= to <= chars@.len(),
            chars@ == s@,
            trimmed_end(start) == trimmed_end(s@.subrange(from as int, to as int)),
        decreases to,
    {
        assert(s@.subrange(from as int, to as int).drop_last() =~= s@.subrange(
            from as int,
            to - 1,
        ));
        to = to - 1;
    }
    text_of(&chars, from, to)
}

/// What `str::to_lowercase` gives: the Unicode lower-case form.
pub uninterp spec fn lowercased(s: Seq<char>) -> Seq<char>;

/// `str::to_lowercase`. The result depends on the text alone; of an ASCII text it is the text with
/// its capitals lowered.
#[verifier::external_body]
pub(crate) fn to_lowercase(s: &str) -> (r: String)
    ensures
        r@ == lowercased(s@),
        is_ascii_chars(s@) ==> r@ == s@.map_values(|c: char| ascii_lower(c)),
{
    s.to_lowercase()
}

/// What follows the last `mark`; all of `s` when there is none.
pub open spec fn after_last(s: Seq<char>, mark: char) -> Seq<char>
    decreases s.len(),
{
    if s.len() == 0 || s.last() == mark {
        Seq::empty()
    } else {
        after_last(s.drop_last(), mark).push(s.last())
    }
}

/// What follows the last `mark`; all of `s` when there is none.
pub fn last_segment(s: &str, mark: char) -> (r: String)
    ensures
        r@ == after_last(s@, mark),
{
    let chars = chars_of(s);
    let mut from: usize = chars.len();
    let ghost n = chars@.len() as int;
    assert(s@.subrange(n, n) =~= Seq::<char>::empty());
    assert(s@.take(n) =~= s@);
    assert(after_last(s@, mark) =~= after_last(s@.take(n), mark) + s@.subrange(n, n));
    while from > 0 && chars[from - 1] != mark
        invariant
            from <= n,
            n == chars@.len(),
            chars@ == s@,
            after_last(s@, mark) == after_last(s@.take(from as int), mark) + s@.subrange(
                from as int,
                n,
            ),
        decreases from,
    {
        proof {
            let head = s@.take(from as int);
            assert(head.drop_last() =~= s@.take(from - 1));
            assert(head.last() == s@[from - 1]);
            assert(after_last(head, mark) + s@.subrange(from as int, n) =~= after_last(
                s@.take(from - 1),
                mark,
            ) + s@.subrange(from - 1, n));
        }
        from = from - 1;
    }
    proof {
        let head = s@.take(from as int);
        assert(after_last(head, mark) =~= Seq::<char>::empty());
        assert(after_last(s@, mark) =~= s@.subrange(from as int, n));
    }
    let to: usize = chars.len();
    text_of(&chars, from, to)
}

/// The character of a decimal digit.
pub open spec fn digit(d: int) -> char {
    (48 + d) as char
}

/// `n` in decimal, without leading zeros.
pub open spec fn decimal(n: nat) -> Seq<char>
    decreases n,
{
    if n < 10 {
        seq![digit(n as int)]
    } else {
        decimal(n / 10).push(digit((n % 10) as int))
    }
}

pub open spec fn zeros(n: nat) -> Seq<char> {
    Seq::new(n, |i: int| '0')
}

/// `s` with zeros put before it up to `width` characters.
pub open spec fn zero_padded(s: Seq<char>, width: nat) -> Seq<char> {
    zeros(
        if s.len() < width {
            (width - s.len()) as nat
        } else {
            0
        },
    ) + s
}

/// Puts `n` in decimal at the end of `s`.
pub fn append_decimal(s: &mut String, n: u64)
    ensures
        final(s)@ == old(s)@ + decimal(n as nat),
    decreases n,
{
    if n >= 10 {
        append_decimal(s, n / 10);
    }
    let d: u8 = (n % 10) as u8;
    let ghost before = s@;
    s.push((48 + d) as char);
    proof {
        assert(before.push(digit(d as int)) =~= old(s)@ + decimal(n as nat));
    }
}

/// `n` in decimal.
pub fn decimal_text(n: u64) -> (r: String)
    ensures
        r@ == decimal(n as nat),
{
    let mut r = String::new();
    append_decimal(&mut r, n);
    assert(Seq::<char>::empty() + decimal(n as nat) =~= decimal(n as nat));
    r
}

proof fn lemma_decimal_len(n: nat)
    ensures
        decimal(n).len() >= 1,
        n < 10 ==> decimal(n).len() == 1,
        10 <= n < 100 ==> decimal(n).len() == 2,
        100 <= n < 1000 ==> decimal(n).len() == 3,
        1000 <= n < 10000 ==> decimal(n).len() == 4,
        n >= 10000 ==> decimal(n).len() >= 5,
    decreases n,
{
    if n >= 10 {
        lemma_decimal_len(n / 10);
    }
}

/// Puts `n` in decimal at the end of `s`, padded with zeros to `width` digits.
pub fn append_padded(s: &mut String, n: u64, width: u64)
    requires
        width <= 5,
    ensures
        final(s)@ == old(s)@ + zero_padded(decimal(n as nat), width as nat),
{
    let len: u64 = if n < 10 {
        1
    } else if n < 100 {
        2
    } else if n < 1000 {
        3
    } else if n < 10000 {
        4
    } else {
        5
    };
    proof {
        lemma_decimal_len(n as nat);
    }
    let ghost start = s@;
    let ghost missing = zeros(
        if len < width {
            (width - len) as nat
        } else {
            0
        },
    );
    let mut k: u64 = len;
    while k < width
        invariant
            len <= k,
            k <= width || k == len,
            s@ =~= start + zeros((k - len) as nat),
        decreases width - k,
    {
        s.push('0');
        k = k + 1;
    }
    let ghost padded = s@;
    append_decimal(s, n);
    proof {
        assert(padded =~= start + missing);
        assert(zero_padded(decimal(n as nat), width as nat) =~= missing + decimal(n as nat));
        assert(padded + decimal(n as nat) =~= start + (missing + decimal(n as nat)));
    }
}


pub open spec fn is_digit(c: char) -> bool {
    '0' <= c <= '9'
}

/// At least one decimal digit and nothing else.
pub open spec fn all_digits(s: Seq<char>) -> bool {
    s.len() > 0 && forall|i: int| 0 <= i < s.len() ==> is_digit(#[trigger] s[i])
}

/// The number that the digits of `s` write.
pub open spec fn digits_value(s: Seq<char>) -> nat
    decreases s.len(),
{
    if s.len() == 0 {
        0
    } else {
        digits_value(s.drop_last()) * 10 + ((s.last() as u32 - 48) as nat)
    }
}

/// The number that `s` writes: digits, after an optional plus sign, of a value that fits.
pub open spec fn u64_of(s: Seq<char>) -> Option<u64> {
    let digits = if s.len() > 0 && s[0] == '+' {
        s.drop_first()
    } else {
        s
    };
    if all_digits(digits) && digits_value(digits) <= u64::MAX {
        Some(digits_value(digits) as u64)
    } else {
        None
    }
}

/// The number that `s` writes: digits, after an optional sign, of a value that fits.
pub open spec fn i64_of(s: Seq<char>) -> Option<i64> {
    if s.len() > 0 && s[0] == '-' {
        let digits = s.drop_first();
        if all_digits(digits) && digits_value(digits) <= -(i64::MIN as int) {
            Some((-(digits_value(digits) as int)) as i64)
        } else {
            None
        }
    } else {
        match u64_of(s) {
            Some(n) => if n <= i64::MAX {
                Some(n as i64)
            } else {
                None
            },
            None => None,
        }
    }
}

proof fn lemma_digits_value_grows(s: Seq<char>, i: int)
    requires
        0 <= i <= s.len(),
        forall|k: int| 0 <= k < s.len() ==> is_digit(#[trigger] s[k]),
    ensures
        digits_value(s.take(i)) <= digits_value(s),
    decreases s.len() - i,
{
    if i < s.len() {
        lemma_digits_value_grows(s, i + 1);
        let more = s.take(i + 1);
        assert(more.drop_last() =~= s.take(i));
        assert(is_digit(s[i]));
    } else {
        assert(s.take(i) =~= s);
    }
}

/// How large a short text's number can be.
pub proof fn lemma_i64_of_short(s: Seq<char>)
    ensures
        s.len() <= 2 ==> (i64_of(s) matches Some(n) ==> -9 <= n <= 99),
        s.len() <= 3 ==> (i64_of(s) matches Some(n) ==> -99 <= n <= 999),
        s.len() <= 4 ==> (i64_of(s) matches Some(n) ==> -999 <= n <= 9999),
{
    lemma_digits_value_short(s);
    if s.len() > 0 {
        lemma_digits_value_short(s.drop_first());
    }
}

/// How large the number of a few digits can be.
pub proof fn lemma_digits_value_short(s: Seq<char>)
    ensures
        s.len() <= 4 && all_digits(s) ==> digits_value(s) <= (if s.len() <= 1 {
            9
        } else if s.len() == 2 {
            99
        } else if s.len() == 3 {
            999nat
        } else {
            9999
        }),
    decreases s.len(),
{
    if s.len() > 0 && s.len() <= 4 && all_digits(s) {
        let head = s.drop_last();
        assert(is_digit(s.last()));
        if head.len() > 0 {
            assert forall|i: int| 0 <= i < head.len() implies is_digit(#[trigger] head[i]) by {
                assert(is_digit(s[i]));
            }
            lemma_digits_value_short(head);
        } else {
            assert(digits_value(head) == 0);
        }
    }
}

/// The value of the digits from index `from` on.
fn read_digits(chars: &Vec<char>, from: usize) -> (r: Option<u64>)
    requires
        from <= chars@.len(),
    ensures
        ({
            let digits = chars@.skip(from as int);
            r == if all_digits(digits) && digits_value(digits) <= u64::MAX {
                Some(digits_value(digits) as u64)
            } else {
                None
            }
        }),
{
    let ghost digits = chars@.skip(from as int);
    if from == chars.len() {
        return None;
    }
    let mut i: usize = from;
    while i < chars.len()
        invariant
            from <= i <= chars@.len(),
            digits == chars@.skip(from as int),
            forall|k: int| 0 <= k < i - from ==> is_digit(#[trigger] digits[k]),
        decreases chars@.len() - i,
    {
        let c: char = chars[i];
        assert(digits[i - from] == c);
        if c < '0' || '9' < c {
            return None;
        }
        i = i + 1;
    }
    let mut value: u64 = 0;
    let mut k: usize = from;
    assert(digits.take(0) =~= Seq::<char>::empty());
    while k < chars.len()
        invariant
            from <= k <= chars@.len(),
            digits == chars@.skip(from as int),
            forall|q: int| 0 <= q < digits.len() ==> is_digit(#[trigger] digits[q]),
            value == digits_value(digits.take(k - from)),
        decreases chars@.len() - k,
    {
        let c: char = chars[k];
        assert(digits[k - from] == c);
        let d: u64 = c as u64 - 48;
        proof {
            let more = digits.take(k - from + 1);
            assert(more.drop_last() =~= digits.take(k - from));
            assert(more.last() == c);
            lemma_digits_value_grows(digits, k - from + 1);
        }
        let tens: Option<u64> = value.checked_mul(10);
        match tens {
            Some(t) => {
                let sum: Option<u64> = t.checked_add(d);
                match sum {
                    Some(v) => {
                        value = v;
                    },
                    None => {
                        return None;
                    },
                }
            },
            None => {
                return None;
            },
        }
        k = k + 1;
    }
    assert(digits.take(digits.len() as int) =~= digits);
    Some(value)
}

/// Reads an unsigned number.
pub fn parse_u64(s: &str) -> (r: Option<u64>)
    ensures
        r == u64_of(s@),
{
    let chars = chars_of(s);
    if chars.len() > 0 && chars[0] == '+' {
        assert(chars@.skip(1) =~= s@.drop_first());
        read_digits(&chars, 1)
    } else {
        assert(chars@.skip(0) =~= s@);
        read_digits(&chars, 0)
    }
}

/// Reads a signed number.
pub fn parse_i64(s: &str) -> (r: Option<i64>)
    ensures
        r == i64_of(s@),
{
    let chars = chars_of(s);
    if chars.len() > 0 && chars[0] == '-' {
        assert(chars@.skip(1) =~= s@.drop_first());
        match read_digits(&chars, 1) {
            Some(n) => {
                if n <= 9223372036854775807 {
                    Some(-(n as i64))
                } else if n == 9223372036854775808 {
                    Some(i64::MIN)
                } else {
                    None
                }
            },
            None => None,
        }
    } else {
        match parse_u64(s) {
            Some(n) => {
                if n <= 9223372036854775807 {
                    Some(n as i64)
                } else {
                    None
                }
            },
            None => None,
        }
    }
}

proof fn lemma_decimal_digits(n: nat)
    ensures
        all_digits(decimal(n)),
        digits_value(decimal(n)) == n,
    decreases n,
{
    if n < 10 {
        let s = decimal(n);
        assert(s.drop_last() =~= Seq::<char>::empty());
        assert(digits_value(s.drop_last()) == 0);
    } else {
        lemma_decimal_digits(n / 10);
        let s = decimal(n);
        let head = decimal(n / 10);
        assert(s.drop_last() =~= head);
        assert forall|i: int| 0 <= i < s.len() implies is_digit(#[trigger] s[i]) by {
            if i < head.len() {
                assert(is_digit(head[i]));
            }
        }
    }
}

proof fn lemma_leading_zeros(n: nat, s: Seq<char>)
    requires
        all_digits(s),
    ensures
        all_digits(zeros(n) + s),
        digits_value(zeros(n) + s) == digits_value(s),
    decreases s.len(),
{
    let z = zeros(n);
    let t = z + s;
    assert forall|i: int| 0 <= i < t.len() implies is_digit(#[trigger] t[i]) by {
        if i >= n {
            assert(is_digit(s[i - n]));
        }
    }
    assert(t.drop_last() =~= z + s.drop_last());
    assert(t.last() == s.last());
    if s.len() > 1 {
        assert forall|i: int| 0 <= i < s.drop_last().len() implies is_digit(
            #[trigger] s.drop_last()[i],
        ) by {
            assert(is_digit(s[i]));
        }
        lemma_leading_zeros(n, s.drop_last());
    } else {
        assert(s.drop_last() =~= Seq::<char>::empty());
        assert(digits_value(Seq::<char>::empty()) == 0);
        assert(t.drop_last() =~= z);
        lemma_zeros_value(n);
    }
}

proof fn lemma_zeros_value(n: nat)
    ensures
        digits_value(zeros(n)) == 0,
    decreases n,
{
    if n > 0 {
        assert(zeros(n).drop_last() =~= zeros((n - 1) as nat));
        lemma_zeros_value((n - 1) as nat);
    }
}

/// A number padded to a width that it fits is read back.
pub proof fn lemma_padded(n: nat, width: nat)
    requires
        width == 2 ==> n < 100,
        width == 3 ==> n < 1000,
        width == 4 ==> n < 10000,
        2 <= width <= 4,
    ensures
        zero_padded(decimal(n), width).len() == width,
        all_digits(zero_padded(decimal(n), width)),
        digits_value(zero_padded(decimal(n), width)) == n,
        i64_of(zero_padded(decimal(n), width)) == Some(n as i64),
{
    lemma_decimal_len(n);
    lemma_decimal_digits(n);
    lemma_leading_zeros((width - decimal(n).len()) as nat, decimal(n));
    let s = zero_padded(decimal(n), width);
    assert(s =~= zeros((width - decimal(n).len()) as nat) + decimal(n));
    assert(is_digit(s[0]));
}

/// Reading back a number written in decimal gives the number.
pub proof fn lemma_decimal_reads_back(n: u64)
    ensures
        u64_of(decimal(n as nat)) == Some(n),
{
    lemma_decimal_digits(n as nat);
    let s = decimal(n as nat);
    assert(is_digit(s[0]));
}

/// The order of the bytes, as `str` compares.
pub open spec fn bytes_le(a: Seq<u8>, b: Seq<u8>) -> bool
    decreases a.len(),
{
    if a.len() == 0 {
        true
    } else if b.len() == 0 {
        false
    } else if a[0] != b[0] {
        a[0] < b[0]
    } else {
        bytes_le(a.drop_first(), b.drop_first())
    }
}

/// `a` comes before `b` in the order of texts, or is the same.
pub open spec fn text_le(a: Seq<char>, b: Seq<char>) -> bool {
    bytes_le(encode_utf8(a), encode_utf8(b))
}

pub proof fn lemma_bytes_le_total(a: Seq<u8>, b: Seq<u8>)
    ensures
        bytes_le(a, b) || bytes_le(b, a),
    decreases a.len(),
{
    if a.len() > 0 && b.len() > 0 {
        lemma_bytes_le_total(a.drop_first(), b.drop_first());
    }
}

pub proof fn lemma_bytes_le_trans(a: Seq<u8>, b: Seq<u8>, c: Seq<u8>)
    requires
        bytes_le(a, b),
        bytes_le(b, c),
    ensures
        bytes_le(a, c),
    decreases a.len(),
{
    if a.len() > 0 && b.len() > 0 && c.len() > 0 && a[0] == b[0] && b[0] == c[0] {
        lemma_bytes_le_trans(a.drop_first(), b.drop_first(), c.drop_first());
    }
}

proof fn lemma_bytes_before(a: Seq<u8>, b: Seq<u8>, k: int)
    requires
        0 <= k < a.len(),
        k < b.len(),
        forall|i: int| 0 <= i < k ==> a[i] == b[i],
        a[k] < b[k],
    ensures
        bytes_le(a, b),
        !bytes_le(b, a),
    decreases k,
{
    if k > 0 {
        assert(a[0] == b[0]);
        let x = a.drop_first();
        let y = b.drop_first();
        assert forall|i: int| 0 <= i < k - 1 implies x[i] == y[i] by {
            assert(a[i + 1] == b[i + 1]);
        }
        lemma_bytes_before(x, y, k - 1);
    }
}

/// Of two ASCII texts that agree up to a place, the one with the lower character there comes
/// before the other.
pub proof fn lemma_text_before(a: Seq<char>, b: Seq<char>, k: int)
    requires
        is_ascii_chars(a),
        is_ascii_chars(b),
        0 <= k < a.len(),
        k < b.len(),
        forall|i: int| 0 <= i < k ==> a[i] == b[i],
        a[k] < b[k],
    ensures
        text_le(a, b),
        !text_le(b, a),
{
    is_ascii_chars_encode_utf8(a);
    is_ascii_chars_encode_utf8(b);
    let x = encode_utf8(a);
    let y = encode_utf8(b);
    assert forall|i: int| 0 <= i < k implies x[i] == y[i] by {
        assert(a[i] == b[i]);
    }
    assert(x[k] < y[k]);
    lemma_bytes_before(x, y, k);
}

/// Every text comes before itself or is the same.
pub proof fn lemma_text_le_same(s: Seq<char>)
    ensures
        text_le(s, s),
{
    lemma_bytes_le_total(encode_utf8(s), encode_utf8(s));
}

/// Of two numbers with as many digits that agree up to a place, the one with the lower digit there
/// is the lower.
pub proof fn lemma_digits_before(a: Seq<char>, b: Seq<char>, k: int)
    requires
        all_digits(a),
        all_digits(b),
        a.len() == b.len(),
        0 <= k < a.len(),
        forall|i: int| 0 <= i < k ==> a[i] == b[i],
        a[k] < b[k],
    ensures
        digits_value(a) < digits_value(b),
    decreases a.len(),
{
    let x = a.drop_last();
    let y = b.drop_last();
    assert(is_digit(a.last()) && is_digit(b.last()));
    if k == a.len() - 1 {
        assert(x =~= y);
    } else {
        assert forall|i: int| 0 <= i < x.len() implies is_digit(#[trigger] x[i]) by {
            assert(is_digit(a[i]));
        }
        assert forall|i: int| 0 <= i < y.len() implies is_digit(#[trigger] y[i]) by {
            assert(is_digit(b[i]));
        }
        lemma_digits_before(x, y, k);
    }
}

/// Whether `a` comes before `b` or is the same.
pub fn not_after(a: &str, b: &str) -> (r: bool)
    ensures
        r == text_le(a@, b@),
{
    let x = a.as_bytes();
    let y = b.as_bytes();
    let mut i: usize = 0;
    assert(x@.skip(0) =~= x@);
    assert(y@.skip(0) =~= y@);
    while i < x.len() && i < y.len()
        invariant
            i <= x@.len(),
            i <= y@.len(),
            x@ == encode_utf8(a@),
            y@ == encode_utf8(b@),
            text_le(a@, b@) == bytes_le(x@.skip(i as int), y@.skip(i as int)),
        decreases x@.len() - i,
    {
        assert(x@.skip(i as int).drop_first() =~= x@.skip(i + 1));
        assert(y@.skip(i as int).drop_first() =~= y@.skip(i + 1));
        if x[i] != y[i] {
            return x[i] < y[i];
        }
        i = i + 1;
    }
    i == x.len()
}

/// What a text that may be missing holds.
pub open spec fn opt(o: Option<String>) -> Option<Seq<char>> {
    match o {
        Some(s) => Some(s@),
        None => None,
    }
}

/// The text, if there is one and it is not empty.
pub open spec fn nonempty(o: Option<Seq<char>>) -> Option<Seq<char>> {
    match o {
        Some(s) => if s.len() > 0 {
            Some(s)
        } else {
            None
        },
        None => None,
    }
}

/// Leaves out an empty text.
pub fn filter_empty(o: Option<String>) -> (r: Option<String>)
    ensures
        opt(r) == nonempty(opt(o)),
{
    match o {
        Some(s) => {
            if s.as_str().is_empty() {
                None
            } else {
                Some(s)
            }
        },
        None => None,
    }
}

/// A copy of a text that may be missing.
pub fn copy_option(o: &Option<String>) -> (r: Option<String>)
    ensures
        opt(r) == opt(*o),
{
    match o {
        Some(s) => Some(s.clone()),
        None => None,
    }
}

/// What texts hold.
pub open spec fn views(items: Seq<String>) -> Seq<Seq<char>> {
    Seq::new(items.len(), |i: int| items[i]@)
}

/// A copy of texts.
pub fn copy_texts(items: &Vec<String>) -> (r: Vec<String>)
    ensures
        views(r@) == views(items@),
{
    let mut r: Vec<String> = Vec::new();
    for i in 0..items.len()
        invariant
            r@.len() == i,
            forall|k: int| 0 <= k < i ==> (#[trigger] r@[k])@ == items@[k]@,
    {
        r.push(items[i].clone());
    }
    assert(views(r@) =~= views(items@));
    r
}

} // verus!
