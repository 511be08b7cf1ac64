//! Identifiers of subscriptions and messages, the generator they come from, and the topics of
//! a channel.

use vstd::prelude::*;

use crate::text;

verus! {

/// How many values the identifiers can have: 126 bits.
pub const NANO_ID_COUNT: u128 = 0x4000_0000_0000_0000_0000_0000_0000_0000;

/// The number of symbols in an identifier.
pub const NANO_ID_LEN: usize = 21;

/// The symbol of a base-64 digit: digits, small letters, capitals, `_` and `-`.
pub open spec fn symbol(d: int) -> char {
    if d < 10 {
        (48 + d) as char
    } else if d < 36 {
        (97 + d - 10) as char
    } else if d < 62 {
        (65 + d - 36) as char
    } else if d == 62 {
        '_'
    } else {
        '-'
    }
}

/// The base-64 digit that a symbol stands for.
pub open spec fn digit_of(c: char) -> Option<int> {
    if '0' <= c <= '9' {
        Some(c as int - 48)
    } else if 'a' <= c <= 'z' {
        Some(c as int - 97 + 10)
    } else if 'A' <= c <= 'Z' {
        Some(c as int - 65 + 36)
    } else if c == '_' {
        Some(62)
    } else if c == '-' {
        Some(63)
    } else {
        None
    }
}

/// The lowest `n` base-64 digits of `value` as symbols, the lowest first.
pub open spec fn spelled(value: nat, n: nat) -> Seq<char>
    decreases n,
{
    if n == 0 {
        Seq::empty()
    } else {
        seq![symbol((value % 64) as int)] + spelled(value / 64, (n - 1) as nat)
    }
}

/// The number that the symbols spell, the lowest digit first. `None` if some character is no
/// symbol.
pub open spec fn value_of(s: Seq<char>) -> Option<nat>
    decreases s.len(),
{
    if s.len() == 0 {
        Some(0)
    } else {
        match (digit_of(s[0]), value_of(s.drop_first())) {
            (Some(d), Some(rest)) => Some((d + 64 * rest) as nat),
            _ => None,
        }
    }
}

spec fn pow64(n: nat) -> nat
    decreases n,
{
    if n == 0 {
        1
    } else {
        64 * pow64((n - 1) as nat)
    }
}

proof fn lemma_pow64_of_len()
    ensures
        pow64(21) == NANO_ID_COUNT,
{
    reveal_with_fuel(pow64, 12);
    assert(pow64(11) == 0x4_0000_0000_0000_0000);
    assert(pow64(21) == 0x4000_0000_0000_0000_0000_0000_0000_0000);
}

proof fn lemma_symbol_inverse(d: int)
    requires
        0 <= d < 64,
    ensures
        digit_of(symbol(d)) == Some(d),
{
}

proof fn lemma_spelled_len(value: nat, n: nat)
    ensures
        spelled(value, n).len() == n,
    decreases n,
{
    if n > 0 {
        lemma_spelled_len(value / 64, (n - 1) as nat);
    }
}

proof fn lemma_value_bound(s: Seq<char>)
    ensures
        value_of(s) matches Some(v) ==> v < pow64(s.len()),
    decreases s.len(),
{
    if s.len() > 0 {
        lemma_value_bound(s.drop_first());
    }
}

/// Reading back an identifier that was spelled gives the identifier.
pub proof fn lemma_value_of_spelled(value: nat)
    requires
        value < NANO_ID_COUNT,
    ensures
        spelled(value, NANO_ID_LEN as nat).len() == NANO_ID_LEN,
        value_of(spelled(value, NANO_ID_LEN as nat)) == Some(value),
{
    lemma_pow64_of_len();
    lemma_spelled_len(value, NANO_ID_LEN as nat);
    lemma_value_of_spelled_below(value, NANO_ID_LEN as nat);
}

proof fn lemma_value_of_spelled_below(value: nat, n: nat)
    requires
        value < pow64(n),
    ensures
        value_of(spelled(value, n)) == Some(value),
    decreases n,
{
    if n > 0 {
        let rest = spelled(value / 64, (n - 1) as nat);
        lemma_value_of_spelled_below(value / 64, (n - 1) as nat);
        let s = spelled(value, n);
        assert(s.drop_first() =~= rest);
        lemma_symbol_inverse((value % 64) as int);
        assert(value == value % 64 + 64 * (value / 64));
    }
}

/// Spelling the number that was read gives the symbols back.
pub proof fn lemma_spelled_value_of(s: Seq<char>)
    requires
        value_of(s) is Some,
    ensures
        spelled(value_of(s).unwrap(), s.len()) == s,
    decreases s.len(),
{
    if s.len() > 0 {
        let rest = s.drop_first();
        lemma_spelled_value_of(rest);
        let d = digit_of(s[0]).unwrap();
        let r = value_of(rest).unwrap();
        let v = (d + 64 * r) as nat;
        assert(v % 64 == d);
        assert(v / 64 == r);
        assert(symbol(d) == s[0]);
        assert(s =~= seq![s[0]] + rest);
    } else {
        assert(s =~= Seq::empty());
    }
}

/// A 126-bit identifier, written as 21 symbols.
#[derive(Clone, Copy, PartialEq, Eq, Structural, Hash)]
pub struct NanoId {
    raw: u128,
}

impl View for NanoId {
    type V = nat;

    closed spec fn view(&self) -> nat {
        self.raw as nat
    }
}

fn symbol_at(d: u8) -> (c: char)
    requires
        d < 64,
    ensures
        c == symbol(d as int),
{
    if d < 10 {
        (48 + d) as char
    } else if d < 36 {
        (97 + (d - 10)) as char
    } else if d < 62 {
        (65 + (d - 36)) as char
    } else if d == 62 {
        '_'
    } else {
        '-'
    }
}

fn read_symbol(c: char) -> (d: Option<u8>)
    ensures
        match d {
            Some(n) => digit_of(c) == Some(n as int) && n < 64,
            None => digit_of(c) is None,
        },
{
    if '0' <= c && c <= '9' {
        Some((c as u32 - 48) as u8)
    } else if 'a' <= c && c <= 'z' {
        Some((c as u32 - 97 + 10) as u8)
    } else if 'A' <= c && c <= 'Z' {
        Some((c as u32 - 65 + 36) as u8)
    } else if c == '_' {
        Some(62)
    } else if c == '-' {
        Some(63)
    } else {
        None
    }
}

impl NanoId {
    #[verifier::type_invariant]
    spec fn fits(self) -> bool {
        self.raw < NANO_ID_COUNT
    }

    /// The identifier of the lowest 126 bits.
    pub fn new(raw: u128) -> (id: NanoId)
        ensures
            id@ == raw as nat % NANO_ID_COUNT as nat,
    {
        NanoId { raw: raw % NANO_ID_COUNT }
    }

    /// Whether two identifiers are the same.
    pub fn same(self, other: NanoId) -> (same: bool)
        ensures
            same == (self@ == other@),
    {
        self.raw == other.raw
    }

    /// The symbols as bytes, the lowest digit first.
    pub fn encode(self) -> (out: [u8; 21])
        ensures
            out@.len() == NANO_ID_LEN,
            forall|i: int|
                0 <= i < NANO_ID_LEN ==> (#[trigger] out@[i]) as char == spelled(
                    self@,
                    NANO_ID_LEN as nat,
                )[i],
    {
        let text = self.symbols();
        let mut out: [u8; 21] = [0u8; 21];
        let mut i: usize = 0;
        proof {
            lemma_spelled_len(self@, 21);
            lemma_spelled_ascii(self@, 21);
        }
        while i < 21
            invariant
                i <= 21,
                out@.len() == 21,
                text@ == spelled(self@, 21),
                text@.len() == 21,
                forall|k: int| 0 <= k < 21 ==> '-' <= #[trigger] text@[k] <= 'z',
                forall|k: int| 0 <= k < i ==> (#[trigger] out@[k]) as char == text@[k],
            decreases 21 - i,
        {
            let c: char = text[i];
            assert('-' <= text@[i as int] <= 'z');
            let n: u32 = c as u32;
            out[i] = n as u8;
            i = i + 1;
        }
        out
    }

    fn symbols(&self) -> (out: Vec<char>)
        ensures
            out@ == spelled(self@, NANO_ID_LEN as nat),
    {
        let mut acc: u128 = self.raw;
        let mut out: Vec<char> = Vec::new();
        let mut i: usize = 0;
        while i < 21
            invariant
                i <= 21,
                out@ + spelled(acc as nat, (21 - i) as nat) == spelled(self@, 21),
            decreases 21 - i,
        {
            let d: u8 = (acc % 64) as u8;
            let c: char = symbol_at(d);
            proof {
                let rest = spelled(acc as nat / 64, (21 - i - 1) as nat);
                assert(spelled(acc as nat, (21 - i) as nat) == seq![c] + rest);
                assert(out@.push(c) + rest =~= out@ + (seq![c] + rest));
            }
            out.push(c);
            acc = acc / 64;
            i = i + 1;
        }
        assert(out@ + spelled(acc as nat, 0) =~= out@);
        out
    }

    /// The identifier as text.
    pub fn to_text(&self) -> (s: String)
        ensures
            s@ == spelled(self@, NANO_ID_LEN as nat),
    {
        let symbols = self.symbols();
        proof {
            lemma_spelled_len(self@, 21);
        }
        let s = text::text_of(&symbols, 0, symbols.len());
        assert(symbols@.subrange(0, symbols@.len() as int) =~= symbols@);
        s
    }

    /// Reads an identifier: exactly 21 symbols.
    pub fn parse(value: &str) -> (r: Option<NanoId>)
        ensures
            r is Some <==> value@.len() == NANO_ID_LEN && value_of(value@) is Some,
            r matches Some(id) ==> Some(id@) == value_of(value@),
    {
        let chars = text::chars_of(value);
        if chars.len() != 21 {
            return None;
        }
        let mut acc: u128 = 0;
        let mut i: usize = 21;
        proof {
            lemma_pow64_of_len();
        }
        assert(chars@.skip(21) =~= Seq::empty());
        while i > 0
            invariant
                i <= 21,
                chars@ == value@,
                chars@.len() == 21,
                pow64(21) == NANO_ID_COUNT,
                value_of(chars@.skip(i as int)) == Some(acc as nat),
            decreases i,
        {
            i = i - 1;
            let ghost tail = chars@.skip(i as int);
            assert(tail.drop_first() =~= chars@.skip(i + 1));
            assert(tail[0] == chars@[i as int]);
            proof {
                lemma_value_bound(chars@.skip(i + 1));
                lemma_pow64_grows((21 - i - 1) as nat);
            }
            match read_symbol(chars[i]) {
                Some(d) => {
                    acc = acc * 64 + d as u128;
                },
                None => {
                    proof {
                        lemma_value_of_prefix(chars@, i as int);
                    }
                    return None;
                },
            }
        }
        assert(chars@.skip(0) =~= chars@);
        proof {
            lemma_value_bound(chars@);
        }
        Some(NanoId { raw: acc })
    }
}

proof fn lemma_pow64_grows(n: nat)
    requires
        n < 21,
    ensures
        64 * pow64(n) <= pow64(21),
    decreases 21 - n,
{
    if n < 20 {
        lemma_pow64_grows(n + 1);
    }
}

/// A character that is no symbol spoils the whole text.
proof fn lemma_value_of_prefix(s: Seq<char>, i: int)
    requires
        0 <= i <= s.len(),
        value_of(s.skip(i)) is None,
    ensures
        value_of(s) is None,
    decreases i,
{
    if i > 0 {
        assert(s.skip(i - 1).drop_first() =~= s.skip(i));
        lemma_value_of_prefix(s, i - 1);
    } else {
        assert(s.skip(0) =~= s);
    }
}

proof fn lemma_spelled_ascii(value: nat, n: nat)
    ensures
        spelled(value, n).len() == n,
        forall|k: int| 0 <= k < n ==> '-' <= #[trigger] spelled(value, n)[k] <= 'z',
    decreases n,
{
    if n > 0 {
        lemma_spelled_ascii(value / 64, (n - 1) as nat);
        let rest = spelled(value / 64, (n - 1) as nat);
        assert forall|k: int| 0 <= k < n implies '-' <= #[trigger] spelled(
            value,
            n,
        )[k] <= 'z' by {
            if k > 0 {
                assert(spelled(value, n)[k] == rest[k - 1]);
            }
        }
    }
}

/// The bits that SplitMix64 makes of a state.
pub open spec fn mixed(state: u64) -> u64 {
    let a = wrapping_product(state ^ (state >> 30), 0xBF58_476D_1CE4_E5B9);
    let b = wrapping_product(a ^ (a >> 27), 0x94D0_49BB_1331_11EB);
    b ^ (b >> 31)
}

pub open spec fn wrapping_product(a: u64, b: u64) -> u64 {
    ((a * b) % 0x1_0000_0000_0000_0000) as u64
}

/// The state after `n` numbers were drawn.
pub open spec fn state_after(state: u64, n: nat) -> u64 {
    ((state + n * 0x9E37_79B9_7F4A_7C15) % 0x1_0000_0000_0000_0000) as u64
}

/// Drawing some numbers and then some more draws all of them.
pub proof fn lemma_state_after(state: u64, a: nat, b: nat)
    ensures
        state_after(state_after(state, a), b) == state_after(state, a + b),
        state_after(state, 0) == state,
{
    let m: int = 0x1_0000_0000_0000_0000;
    let step: int = 0x9E37_79B9_7F4A_7C15;
    let x = state + a * step;
    vstd::arithmetic::div_mod::lemma_fundamental_div_mod(x, m);
    assert(x % m + b * step == state + (a + b) * step - m * (x / m)) by (nonlinear_arith)
        requires
            x == state + a * step,
            x == m * (x / m) + x % m,
    ;
    vstd::arithmetic::div_mod::lemma_mod_multiples_vanish(-(x / m), state + (a + b) * step, m);
    assert(m * -(x / m) == -(m * (x / m))) by (nonlinear_arith);
    assert(0 * step == 0);
}

/// Factors that invert each other modulo 2^64 undo each other.
proof fn lemma_product_undone(x: u64, c: u64, inverse: u64)
    requires
        (c * inverse) % 0x1_0000_0000_0000_0000 == 1,
    ensures
        wrapping_product(wrapping_product(x, c), inverse) == x,
{
    let m: int = 0x1_0000_0000_0000_0000;
    vstd::arithmetic::div_mod::lemma_mul_mod_noop_left((x * c) as int, inverse as int, m);
    assert((x * c) * inverse == x * (c * inverse)) by (nonlinear_arith);
    vstd::arithmetic::div_mod::lemma_mul_mod_noop_right(x as int, (c * inverse) as int, m);
    assert(x * 1 == x);
}

/// Different states are mixed to different numbers.
proof fn lemma_mixed_differ(x: u64, y: u64)
    requires
        mixed(x) == mixed(y),
    ensures
        x == y,
{
    let x0 = x ^ (x >> 30);
    let y0 = y ^ (y >> 30);
    let x1 = wrapping_product(x0, 0xBF58_476D_1CE4_E5B9);
    let y1 = wrapping_product(y0, 0xBF58_476D_1CE4_E5B9);
    let x2 = x1 ^ (x1 >> 27);
    let y2 = y1 ^ (y1 >> 27);
    let x3 = wrapping_product(x2, 0x94D0_49BB_1331_11EB);
    let y3 = wrapping_product(y2, 0x94D0_49BB_1331_11EB);
    assert(x3 ^ (x3 >> 31) == y3 ^ (y3 >> 31) ==> x3 == y3) by (bit_vector);
    lemma_product_undone(x2, 0x94D0_49BB_1331_11EB, 0x3196_42B2_D24D_8EC3);
    lemma_product_undone(y2, 0x94D0_49BB_1331_11EB, 0x3196_42B2_D24D_8EC3);
    assert(x1 ^ (x1 >> 27) == y1 ^ (y1 >> 27) ==> x1 == y1) by (bit_vector);
    lemma_product_undone(x0, 0xBF58_476D_1CE4_E5B9, 0x96DE_1B17_3F11_9089);
    lemma_product_undone(y0, 0xBF58_476D_1CE4_E5B9, 0x96DE_1B17_3F11_9089);
    assert(x ^ (x >> 30) == y ^ (y >> 30) ==> x == y) by (bit_vector);
}

/// Generators in different states draw different numbers, and are in different states afterwards.
pub proof fn lemma_draws_differ(a: u64, b: u64)
    requires
        a != b,
    ensures
        state_after(a, 1) != state_after(b, 1),
        mixed(state_after(a, 1)) != mixed(state_after(b, 1)),
{
    if mixed(state_after(a, 1)) == mixed(state_after(b, 1)) {
        lemma_mixed_differ(state_after(a, 1), state_after(b, 1));
    }
}

/// The identifier that is drawn from a state: two numbers, the first of them above, without
/// the two highest bits.
pub open spec fn drawn_id(state: u64) -> nat {
    let high = mixed(state_after(state, 1)) as nat;
    let low = mixed(state_after(state, 2)) as nat;
    (high * 0x1_0000_0000_0000_0000 + low) % (NANO_ID_COUNT as nat)
}

/// An identifier holds the second number that is drawn in its low 64 bits, and the first, without
/// its two highest bits, above them. Identifiers that are drawn from different states differ.
pub proof fn lemma_drawn_ids_in_full(a: u64, b: u64)
    ensures
        drawn_id(a) % 0x1_0000_0000_0000_0000 == mixed(state_after(a, 2)),
        drawn_id(a) / 0x1_0000_0000_0000_0000 == mixed(state_after(a, 1)) % 0x4000_0000_0000_0000,
        a != b ==> drawn_id(a) != drawn_id(b),
{
    lemma_words_of_drawn_id(a);
    lemma_words_of_drawn_id(b);
    if a != b {
        lemma_draws_differ(a, b);
        lemma_draws_differ(state_after(a, 1), state_after(b, 1));
        lemma_state_after(a, 1, 1);
        lemma_state_after(b, 1, 1);
    }
}

proof fn lemma_words_of_drawn_id(state: u64)
    ensures
        drawn_id(state) % 0x1_0000_0000_0000_0000 == mixed(state_after(state, 2)),
        drawn_id(state) / 0x1_0000_0000_0000_0000 == mixed(state_after(state, 1))
            % 0x4000_0000_0000_0000,
{
    let word: int = 0x1_0000_0000_0000_0000;
    let count: int = 0x4000_0000_0000_0000_0000_0000_0000_0000;
    let high = mixed(state_after(state, 1)) as int;
    let low = mixed(state_after(state, 2)) as int;
    let top = high / 0x4000_0000_0000_0000;
    let rest = high % 0x4000_0000_0000_0000;
    assert(high * word + low == top * count + (rest * word + low));
    vstd::arithmetic::div_mod::lemma_fundamental_div_mod_converse(
        high * word + low,
        count,
        top,
        rest * word + low,
    );
    vstd::arithmetic::div_mod::lemma_fundamental_div_mod_converse(
        rest * word + low,
        word,
        rest,
        low,
    );
}

/// A SplitMix64 generator.
pub struct Rng {
    state: u64,
}

impl View for Rng {
    type V = u64;

    closed spec fn view(&self) -> u64 {
        self.state
    }
}

impl Rng {
    pub fn new(state: u64) -> (rng: Rng)
        ensures
            rng@ == state,
    {
        Rng { state }
    }

    /// Draws an identifier.
    pub fn nano_id(&mut self) -> (id: NanoId)
        ensures
            id@ == drawn_id(old(self)@),
            final(self)@ == state_after(old(self)@, 2),
    {
        let ghost start = self.state;
        let high: u64 = self.next_u64();
        let low: u64 = self.next_u64();
        proof {
            assert(self.state == state_after(start, 2));
        }
        NanoId::new(high as u128 * 0x1_0000_0000_0000_0000 + low as u128)
    }

    /// Draws a number.
    pub fn next_u64(&mut self) -> (n: u64)
        ensures
            final(self)@ == state_after(old(self)@, 1),
            n == mixed(final(self)@),
    {
        self.state = self.state.wrapping_add(0x9E37_79B9_7F4A_7C15);
        let mut z: u64 = self.state;
        z = (z ^ (z >> 30)).wrapping_mul(0xBF58_476D_1CE4_E5B9);
        z = (z ^ (z >> 27)).wrapping_mul(0x94D0_49BB_1331_11EB);
        z ^ (z >> 31)
    }
}

/// What can be subscribed to.
#[derive(Clone, Copy, PartialEq, Eq, Structural, Hash)]
pub enum Topic {
    BroadcastSettingsUpdate(u64),
    VideoPlaybackById(u64),
}

impl Topic {
    /// The channel that the topic is about.
    pub open spec fn channel(self) -> u64 {
        match self {
            Topic::BroadcastSettingsUpdate(id) => id,
            Topic::VideoPlaybackById(id) => id,
        }
    }

    /// The topic's name.
    pub open spec fn name(self) -> Seq<char> {
        match self {
            Topic::BroadcastSettingsUpdate(id) => "broadcast-settings-update."@ + text::decimal(
                id as nat,
            ),
            Topic::VideoPlaybackById(id) => "video-playback-by-id."@ + text::decimal(id as nat),
        }
    }

    /// The two topics of a channel.
    pub fn for_channel(id: u64) -> (topics: [Topic; 2])
        ensures
            topics@ == seq![Topic::BroadcastSettingsUpdate(id), Topic::VideoPlaybackById(id)],
    {
        let topics = [Topic::BroadcastSettingsUpdate(id), Topic::VideoPlaybackById(id)];
        assert(topics@ =~= seq![
            Topic::BroadcastSettingsUpdate(id),
            Topic::VideoPlaybackById(id),
        ]);
        topics
    }

    /// The topic's name as text.
    pub fn to_text(&self) -> (s: String)
        ensures
            s@ == self.name(),
    {
        match *self {
            Topic::BroadcastSettingsUpdate(id) => {
                let mut s: String = "broadcast-settings-update.".to_string();
                text::append_decimal(&mut s, id);
                s
            },
            Topic::VideoPlaybackById(id) => {
                let mut s: String = "video-playback-by-id.".to_string();
                text::append_decimal(&mut s, id);
                s
            },
        }
    }
}

/// The name of a topic is its kind and the number of its channel.
pub proof fn lemma_topic_names_in_full(id: u64)
    ensures
        Topic::BroadcastSettingsUpdate(id).name() == "broadcast-settings-update."@ + text::decimal(
            id as nat,
        ),
        Topic::VideoPlaybackById(id).name() == "video-playback-by-id."@ + text::decimal(id as nat),
        Topic::BroadcastSettingsUpdate(id).channel() == id,
        Topic::VideoPlaybackById(id).channel() == id,
{
}

/// Different topics have different names.
pub proof fn lemma_topic_names_differ(a: Topic, b: Topic)
    requires
        a.name() == b.name(),
    ensures
        a == b,
{
    reveal_strlit("broadcast-settings-update.");
    reveal_strlit("video-playback-by-id.");
    let x = text::decimal(a.channel() as nat);
    let y = text::decimal(b.channel() as nat);
    assert(a.name()[0] == b.name()[0]);
    if a is BroadcastSettingsUpdate {
        assert(a.name()[0] == 'b');
        assert(a.name().skip(26) =~= x);
        assert(b.name().skip(26) =~= y);
    } else {
        assert(a.name()[0] == 'v');
        assert(a.name().skip(21) =~= x);
        assert(b.name().skip(21) =~= y);
    }
    text::lemma_decimal_reads_back(a.channel());
    text::lemma_decimal_reads_back(b.channel());
}

} // verus!
