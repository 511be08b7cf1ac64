//! Searching a text for many words at once: an Aho-Corasick automaton over bytes.

use std::collections::VecDeque;

use vstd::prelude::*;
use vstd::utf8::*;

use crate::text;

verus! {

/// The longest suffix of `text` that is one of `words`; the empty word when none is.
spec fn longest_suffix(words: Seq<Seq<u8>>, text: Seq<u8>) -> Seq<u8>
    decreases text.len(),
{
    if text.len() == 0 || words.contains(text) {
        text
    } else {
        longest_suffix(words, text.drop_first())
    }
}

/// `tail` is how `text` ends.
spec fn ends_with(text: Seq<u8>, tail: Seq<u8>) -> bool {
    tail.len() <= text.len() && text.subrange(text.len() - tail.len(), text.len() as int) == tail
}

/// Every prefix of a word is a word.
spec fn prefix_closed(words: Seq<Seq<u8>>) -> bool {
    forall|w: Seq<u8>| #[trigger]
        words.contains(w) && w.len() > 0 ==> words.contains(w.drop_last())
}

proof fn lemma_longest_suffix(words: Seq<Seq<u8>>, text: Seq<u8>)
    requires
        words.contains(Seq::<u8>::empty()),
    ensures
        words.contains(longest_suffix(words, text)),
        ends_with(text, longest_suffix(words, text)),
    decreases text.len(),
{
    if text.len() == 0 {
        assert(text =~= Seq::<u8>::empty());
        assert(text.subrange(0, 0) =~= text);
    } else if words.contains(text) {
        assert(text.subrange(0, text.len() as int) =~= text);
    } else {
        let rest = text.drop_first();
        lemma_longest_suffix(words, rest);
        let s = longest_suffix(words, rest);
        assert(text.subrange(text.len() - s.len(), text.len() as int) =~= rest.subrange(
            rest.len() - s.len(),
            rest.len() as int,
        ));
    }
}

/// A word that ends `text` also ends the longest such word.
proof fn lemma_longest_suffix_is_longest(words: Seq<Seq<u8>>, text: Seq<u8>, w: Seq<u8>)
    requires
        words.contains(w),
        ends_with(text, w),
    ensures
        ends_with(longest_suffix(words, text), w),
    decreases text.len(),
{
    if text.len() == 0 || words.contains(text) {
    } else {
        if w.len() == text.len() {
            assert(text.subrange(0, text.len() as int) =~= text);
        }
        let rest = text.drop_first();
        assert(rest.subrange(rest.len() - w.len(), rest.len() as int) =~= text.subrange(
            text.len() - w.len(),
            text.len() as int,
        ));
        lemma_longest_suffix_is_longest(words, rest, w);
    }
}

/// Suffixes compose.
proof fn lemma_ends_with_trans(a: Seq<u8>, b: Seq<u8>, c: Seq<u8>)
    requires
        ends_with(a, b),
        ends_with(b, c),
    ensures
        ends_with(a, c),
{
    assert(a.subrange(a.len() - c.len(), a.len() as int) =~= b.subrange(
        b.len() - c.len(),
        b.len() as int,
    ));
}

/// Reading one more byte only needs the longest suffix so far.
proof fn lemma_longest_suffix_step(words: Seq<Seq<u8>>, text: Seq<u8>, byte: u8)
    requires
        prefix_closed(words),
    ensures
        longest_suffix(words, text.push(byte)) == longest_suffix(
            words,
            longest_suffix(words, text).push(byte),
        ),
    decreases text.len(),
{
    if text.len() == 0 || words.contains(text) {
    } else {
        let more = text.push(byte);
        assert(more.drop_last() =~= text);
        assert(!words.contains(more));
        assert(more.drop_first() =~= text.drop_first().push(byte));
        lemma_longest_suffix_step(words, text.drop_first(), byte);
    }
}


/// Where the transition table keeps the target of `node` on `symbol`.
spec fn cell(node: int, symbol: int, size: int) -> int {
    node * size + symbol
}

proof fn lemma_cell_in_table(node: int, symbol: int, size: int, nodes: int)
    requires
        0 <= node < nodes,
        0 <= symbol < size,
    ensures
        0 <= cell(node, symbol, size) < nodes * size,
        0 <= node * size <= nodes * size,
{
    assert(0 <= node * size && node * size + size <= nodes * size) by (nonlinear_arith)
        requires
            0 <= node < nodes,
            0 <= size,
    ;
}

proof fn lemma_cell_injective(node: int, symbol: int, other: int, other_symbol: int, size: int)
    requires
        0 <= node,
        0 <= other,
        0 <= symbol < size,
        0 <= other_symbol < size,
        cell(node, symbol, size) == cell(other, other_symbol, size),
    ensures
        node == other,
        symbol == other_symbol,
{
    assert(node == other) by (nonlinear_arith)
        requires
            0 <= symbol < size,
            0 <= other_symbol < size,
            node * size + symbol == other * size + other_symbol,
    ;
}

/// The alphabet numbers the letters in the order of `letters` and no other byte.
spec fn alphabet_numbers(alphabet: Seq<usize>, letters: Seq<u8>) -> bool {
    &&& alphabet.len() == 256
    &&& letters.len() < usize::MAX
    &&& forall|b: u8|
        #![trigger alphabet[b as int]]
        alphabet[b as int] == usize::MAX || (alphabet[b as int] < letters.len()
            && letters[alphabet[b as int] as int] == b)
    &&& forall|s: int| 0 <= s < letters.len() ==> alphabet[#[trigger] letters[s] as int] == s
}

/// What each trie node spells: the root spells nothing, no two nodes spell the same, and only
/// letters of the alphabet occur.
spec fn spelling(words: Seq<Seq<u8>>, letters: Seq<u8>) -> bool {
    &&& words.len() > 0
    &&& words[0] == Seq::<u8>::empty()
    &&& words.no_duplicates()
    &&& prefix_closed(words)
    &&& forall|n: int, k: int|
        #![trigger words[n][k]]
        0 <= n < words.len() && 0 <= k < words[n].len() ==> letters.contains(words[n][k])
}

/// The entry of a trie row: the child on that letter, or the root when there is none.
spec fn child_entry(
    words: Seq<Seq<u8>>,
    letters: Seq<u8>,
    table: Seq<u32>,
    node: int,
    symbol: int,
) -> bool {
    let target = table[cell(node, symbol, letters.len() as int)] as int;
    let word = words[node].push(letters[symbol]);
    if target == 0 {
        !words.contains(word)
    } else {
        target < words.len() && words[target] == word
    }
}

/// The entry of a completed row: the node of the longest suffix that is still a word.
spec fn step_entry(
    words: Seq<Seq<u8>>,
    letters: Seq<u8>,
    table: Seq<u32>,
    node: int,
    symbol: int,
) -> bool {
    let target = table[cell(node, symbol, letters.len() as int)] as int;
    target < words.len() && words[target] == longest_suffix(
        words,
        words[node].push(letters[symbol]),
    )
}

spec fn child_row(words: Seq<Seq<u8>>, letters: Seq<u8>, table: Seq<u32>, node: int) -> bool {
    forall|s: int| 0 <= s < letters.len() ==> #[trigger] child_entry(words, letters, table, node, s)
}

spec fn step_row(words: Seq<Seq<u8>>, letters: Seq<u8>, table: Seq<u32>, node: int) -> bool {
    forall|s: int| 0 <= s < letters.len() ==> #[trigger] step_entry(words, letters, table, node, s)
}

/// A whole trie over `words`.
spec fn trie(words: Seq<Seq<u8>>, letters: Seq<u8>, table: Seq<u32>) -> bool {
    &&& spelling(words, letters)
    &&& words.len() <= u32::MAX
    &&& table.len() == words.len() * letters.len()
    &&& forall|n: int| 0 <= n < words.len() ==> #[trigger] child_row(words, letters, table, n)
}

/// One of the first `count` patterns is exactly `word`.
spec fn is_pattern(patterns: Seq<Seq<u8>>, count: int, word: Seq<u8>) -> bool {
    exists|j: int| 0 <= j < count && #[trigger] patterns[j] == word
}

/// One of the patterns ends `word`.
spec fn pattern_ends(patterns: Seq<Seq<u8>>, word: Seq<u8>) -> bool {
    exists|j: int| 0 <= j < patterns.len() && ends_with(word, #[trigger] patterns[j])
}

/// The UTF-8 bytes of each pattern.
pub open spec fn pattern_bytes(patterns: Seq<String>) -> Seq<Seq<u8>> {
    patterns.map_values(|p: String| encode_utf8(p@))
}

/// How many bytes the patterns have together.
pub open spec fn total_len(patterns: Seq<Seq<u8>>) -> nat
    decreases patterns.len(),
{
    if patterns.len() == 0 {
        0
    } else {
        total_len(patterns.drop_last()) + patterns.last().len()
    }
}

proof fn lemma_total_len_take(patterns: Seq<Seq<u8>>, i: int)
    requires
        0 <= i < patterns.len(),
    ensures
        total_len(patterns.take(i + 1)) == total_len(patterns.take(i)) + patterns[i].len(),
        total_len(patterns.take(i + 1)) <= total_len(patterns),
    decreases patterns.len() - i,
{
    assert(patterns.take(i + 1).drop_last() =~= patterns.take(i));
    if i + 1 == patterns.len() {
        assert(patterns.take(i + 1) =~= patterns);
    } else {
        lemma_total_len_take(patterns, i + 1);
    }
}

/// Growing the trie by one leaf keeps it a trie.
proof fn lemma_trie_grows(
    words: Seq<Seq<u8>>,
    letters: Seq<u8>,
    table: Seq<u32>,
    node: int,
    symbol: int,
    grown: Seq<u32>,
)
    requires
        trie(words, letters, table),
        0 <= node < words.len(),
        0 <= symbol < letters.len(),
        letters.no_duplicates(),
        words.len() < u32::MAX,
        table[cell(node, symbol, letters.len() as int)] == 0,
        grown.len() == table.len() + letters.len(),
        forall|i: int|
            0 <= i < grown.len() ==> #[trigger] grown[i] == (if i == cell(
                node,
                symbol,
                letters.len() as int,
            ) {
                words.len() as u32
            } else if i < table.len() {
                table[i]
            } else {
                0
            }),
    ensures
        trie(words.push(words[node].push(letters[symbol])), letters, grown),
{
    let size = letters.len() as int;
    let leaf = words[node].push(letters[symbol]);
    let more = words.push(leaf);
    let count = words.len() as int;
    assert(child_row(words, letters, table, node));
    assert(child_entry(words, letters, table, node, symbol));
    assert(!words.contains(leaf));
    assert forall|w: Seq<u8>| #[trigger] more.contains(w) implies words.contains(w) || w == leaf by {}
    assert forall|w: Seq<u8>| words.contains(w) implies #[trigger] more.contains(w) by {
        let i = choose|i: int| 0 <= i < words.len() && words[i] == w;
        assert(more[i] == w);
    }
    assert(more[count] == leaf);
    assert(more.contains(leaf));
    assert(leaf.drop_last() =~= words[node]);
    assert(words.contains(words[node]));
    assert(spelling(more, letters)) by {
        assert forall|n: int, k: int|
            #![trigger more[n][k]]
            0 <= n < more.len() && 0 <= k < more[n].len() implies letters.contains(more[n][k]) by {
            if n == count {
                if k == leaf.len() - 1 {
                    assert(letters[symbol] == leaf[k]);
                } else {
                    assert(words[node][k] == leaf[k]);
                }
            } else {
                assert(words[n][k] == more[n][k]);
            }
        }
        assert forall|w: Seq<u8>| #[trigger]
            more.contains(w) && w.len() > 0 implies more.contains(w.drop_last()) by {
            if w == leaf {
                assert(more.contains(words[node]));
            } else {
                assert(words.contains(w));
                assert(words.contains(w.drop_last()));
            }
        }
    }
    assert(grown.len() == more.len() * size) by (nonlinear_arith)
        requires
            grown.len() == words.len() * size + size,
            more.len() == words.len() + 1,
    ;
    assert forall|n: int| 0 <= n < more.len() implies #[trigger] child_row(more, letters, grown, n) by {
        assert forall|s: int| 0 <= s < size implies #[trigger] child_entry(more, letters, grown, n, s) by {
            lemma_cell_in_table(n, s, size, more.len() as int);
            let word = more[n].push(letters[s]);
            if n == count {
                assert(cell(n, s, size) >= table.len());
                lemma_cell_in_table(node, symbol, size, count);
                assert(word.drop_last() =~= leaf);
                if more.contains(word) {
                    if word == leaf {
                        assert(word.len() == leaf.len());
                    } else {
                        assert(words.contains(word));
                        assert(words.contains(word.drop_last()));
                    }
                }
            } else {
                lemma_cell_in_table(n, s, size, count);
                assert(child_row(words, letters, table, n));
                assert(child_entry(words, letters, table, n, s));
                if cell(n, s, size) == cell(node, symbol, size) {
                    lemma_cell_injective(n, s, node, symbol, size);
                } else {
                    if word == leaf {
                        assert(word.drop_last() =~= words[n]);
                        assert(word.last() == letters[s]);
                        assert(leaf.last() == letters[symbol]);
                    }
                }
            }
        }
    }
}


/// Numbers the bytes that occur in the patterns, in the order in which they first occur.
fn compress_alphabet(patterns: &[String]) -> (r: ([usize; 256], usize, Ghost<Seq<u8>>))
    requires
        total_len(pattern_bytes(patterns@)) < u32::MAX,
    ensures
        alphabet_numbers(r.0@, r.2@),
        r.1 == r.2@.len(),
        forall|j: int, k: int|
            #![trigger pattern_bytes(patterns@)[j][k]]
            0 <= j < patterns@.len() && 0 <= k < pattern_bytes(patterns@)[j].len()
                ==> r.2@.contains(pattern_bytes(patterns@)[j][k]),
{
    let mut alphabet: [usize; 256] = [usize::MAX; 256];
    let mut alphabet_size: usize = 0;
    let ghost mut letters: Seq<u8> = Seq::empty();
    let ghost pats = pattern_bytes(patterns@);
    let mut i: usize = 0;
    while i < patterns.len()
        invariant
            i <= patterns@.len(),
            pats == pattern_bytes(patterns@),
            total_len(pats) < u32::MAX,
            alphabet_size <= total_len(pats.take(i as int)),
            alphabet_numbers(alphabet@, letters),
            alphabet_size == letters.len(),
            forall|j: int, k: int|
                #![trigger pats[j][k]]
                0 <= j < i && 0 <= k < pats[j].len() ==> letters.contains(pats[j][k]),
        decreases patterns@.len() - i,
    {
        let bytes = patterns[i].as_str().as_bytes();
        assert(bytes@ == pats[i as int]);
        proof {
            lemma_total_len_take(pats, i as int);
        }
        let mut k: usize = 0;
        while k < bytes.len()
            invariant
                i < patterns@.len(),
                k <= bytes@.len(),
                pats == pattern_bytes(patterns@),
                bytes@ == pats[i as int],
                total_len(pats) < u32::MAX,
                total_len(pats.take(i + 1)) == total_len(pats.take(i as int)) + bytes@.len(),
                total_len(pats.take(i + 1)) <= total_len(pats),
                alphabet_size <= total_len(pats.take(i as int)) + k,
                alphabet_numbers(alphabet@, letters),
                alphabet_size == letters.len(),
                forall|j: int, q: int|
                    #![trigger pats[j][q]]
                    0 <= j < i && 0 <= q < pats[j].len() ==> letters.contains(pats[j][q]),
                forall|q: int|
                    #![trigger pats[i as int][q]]
                    0 <= q < k ==> letters.contains(pats[i as int][q]),
            decreases bytes@.len() - k,
        {
            let byte: u8 = bytes[k];
            let ghost before = letters;
            let ghost numbers = alphabet@;
            if alphabet[byte as usize] == usize::MAX {
                alphabet[byte as usize] = alphabet_size;
                proof {
                    letters = letters.push(byte);
                    assert(alphabet@ =~= numbers.update(byte as int, alphabet_size));
                    assert forall|s: int| 0 <= s < letters.len() implies alphabet@[
                        #[trigger] letters[s] as int] == s by {
                        if s < before.len() {
                            assert(before[s] == letters[s]);
                            assert(numbers[before[s] as int] == s);
                        }
                    }
                    assert forall|b: u8| before.contains(b) implies #[trigger] letters.contains(b) by {
                        let s = choose|s: int| 0 <= s < before.len() && before[s] == b;
                        assert(letters[s] == b);
                    }
                    assert(letters[before.len() as int] == byte);
                }
                alphabet_size = alphabet_size + 1;
            } else {
                proof {
                    assert(letters[numbers[byte as int] as int] == byte);
                }
            }
            assert(letters.contains(pats[i as int][k as int]));
            k = k + 1;
        }
        i = i + 1;
    }
    (alphabet, alphabet_size, Ghost(letters))
}


proof fn lemma_letters_distinct(alphabet: Seq<usize>, letters: Seq<u8>)
    requires
        alphabet_numbers(alphabet, letters),
    ensures
        letters.no_duplicates(),
{
    assert forall|i: int, j: int|
        0 <= i < letters.len() && 0 <= j < letters.len() && i != j implies letters[i] != letters[j] by {
        assert(alphabet[letters[i] as int] == i);
        assert(alphabet[letters[j] as int] == j);
    }
}

/// Spells every pattern into a trie and marks the nodes at which a pattern ends.
fn build_trie(
    patterns: &[String],
    alphabet: &[usize; 256],
    alphabet_size: usize,
    Ghost(letters): Ghost<Seq<u8>>,
) -> (r: (Vec<u32>, Vec<bool>, Ghost<Seq<Seq<u8>>>))
    requires
        total_len(pattern_bytes(patterns@)) < u32::MAX,
        alphabet_numbers(alphabet@, letters),
        alphabet_size == letters.len(),
        forall|j: int, k: int|
            #![trigger pattern_bytes(patterns@)[j][k]]
            0 <= j < patterns@.len() && 0 <= k < pattern_bytes(patterns@)[j].len()
                ==> letters.contains(pattern_bytes(patterns@)[j][k]),
    ensures
        trie(r.2@, letters, r.0@),
        r.1@.len() == r.2@.len(),
        forall|n: int|
            0 <= n < r.2@.len() ==> #[trigger] r.1@[n] == is_pattern(
                pattern_bytes(patterns@),
                patterns@.len() as int,
                r.2@[n],
            ),
        forall|j: int|
            0 <= j < patterns@.len() ==> r.2@.contains(#[trigger] pattern_bytes(patterns@)[j]),
{
    let ghost pats = pattern_bytes(patterns@);
    let mut transitions: Vec<u32> = vec![0u32; alphabet_size];
    let mut output: Vec<bool> = vec![false];
    let ghost mut words: Seq<Seq<u8>> = seq![Seq::<u8>::empty()];
    proof {
        lemma_letters_distinct(alphabet@, letters);
        assert(trie(words, letters, transitions@)) by {
            assert(words.len() * letters.len() == letters.len()) by (nonlinear_arith)
                requires
                    words.len() == 1,
            ;
            assert forall|w: Seq<u8>| #[trigger]
                words.contains(w) && w.len() > 0 implies words.contains(w.drop_last()) by {}
            assert forall|n: int| 0 <= n < words.len() implies #[trigger] child_row(
                words,
                letters,
                transitions@,
                n,
            ) by {
                assert forall|s: int| 0 <= s < letters.len() implies #[trigger] child_entry(
                    words,
                    letters,
                    transitions@,
                    n,
                    s,
                ) by {
                    lemma_cell_in_table(n, s, letters.len() as int, 1);
                    let word = words[n].push(letters[s]);
                    assert(word.len() == 1);
                }
            }
        }
        assert(pats.take(0) =~= Seq::<Seq<u8>>::empty());
    }
    let mut i: usize = 0;
    while i < patterns.len()
        invariant
            i <= patterns@.len(),
            pats == pattern_bytes(patterns@),
            total_len(pats) < u32::MAX,
            alphabet_numbers(alphabet@, letters),
            letters.no_duplicates(),
            alphabet_size == letters.len(),
            forall|j: int, k: int|
                #![trigger pats[j][k]]
                0 <= j < pats.len() && 0 <= k < pats[j].len() ==> letters.contains(pats[j][k]),
            trie(words, letters, transitions@),
            words.len() <= 1 + total_len(pats.take(i as int)),
            output@.len() == words.len(),
            forall|n: int|
                0 <= n < words.len() ==> #[trigger] output@[n] == is_pattern(
                    pats,
                    i as int,
                    words[n],
                ),
            forall|j: int| 0 <= j < i ==> words.contains(#[trigger] pats[j]),
        decreases patterns@.len() - i,
    {
        let bytes = patterns[i].as_str().as_bytes();
        assert(bytes@ == pats[i as int]);
        proof {
            lemma_total_len_take(pats, i as int);
        }
        let mut node: usize = 0;
        let mut k: usize = 0;
        assert(bytes@.take(0) =~= Seq::<u8>::empty());
        while k < bytes.len()
            invariant
                i < patterns@.len(),
                k <= bytes@.len(),
                pats == pattern_bytes(patterns@),
                bytes@ == pats[i as int],
                total_len(pats) < u32::MAX,
                total_len(pats.take(i + 1)) == total_len(pats.take(i as int)) + bytes@.len(),
                total_len(pats.take(i + 1)) <= total_len(pats),
                alphabet_numbers(alphabet@, letters),
                letters.no_duplicates(),
                alphabet_size == letters.len(),
                forall|j: int, k: int|
                    #![trigger pats[j][k]]
                    0 <= j < pats.len() && 0 <= k < pats[j].len() ==> letters.contains(pats[j][k]),
                trie(words, letters, transitions@),
                words.len() <= 1 + total_len(pats.take(i as int)) + k,
                output@.len() == words.len(),
                node < words.len(),
                words[node as int] == bytes@.take(k as int),
                forall|n: int|
                    0 <= n < words.len() ==> #[trigger] output@[n] == is_pattern(
                        pats,
                        i as int,
                        words[n],
                    ),
                forall|j: int| 0 <= j < i ==> words.contains(#[trigger] pats[j]),
            decreases bytes@.len() - k,
        {
            let byte: u8 = bytes[k];
            let symbol: usize = alphabet[byte as usize];
            proof {
                assert(letters.contains(pats[i as int][k as int]));
                let s = choose|s: int| 0 <= s < letters.len() && letters[s] == byte;
                assert(alphabet@[letters[s] as int] == s);
                lemma_cell_in_table(node as int, symbol as int, alphabet_size as int, words.len() as int);
                assert(bytes@.take(k + 1) =~= bytes@.take(k as int).push(byte));
                assert(child_row(words, letters, transitions@, node as int));
                assert(child_entry(words, letters, transitions@, node as int, symbol as int));
                assert(transitions@.len() == transitions.len());
            }
            let index: usize = node * alphabet_size + symbol;
            let next: u32 = transitions[index];
            if next == 0 {
                let new_node: u32 = output.len() as u32;
                let ghost before = words;
                let ghost table = transitions@;
                let ghost marks = output@;
                output.push(false);
                let mut s: usize = 0;
                while s < alphabet_size
                    invariant
                        s <= alphabet_size,
                        transitions@.len() == table.len() + s,
                        forall|q: int| 0 <= q < table.len() ==> transitions@[q] == table[q],
                        forall|q: int| table.len() <= q < transitions@.len() ==> transitions@[q] == 0,
                    decreases alphabet_size - s,
                {
                    transitions.push(0);
                    s = s + 1;
                }
                transitions[index] = new_node;
                proof {
                    lemma_trie_grows(before, letters, table, node as int, symbol as int, transitions@);
                    words = before.push(before[node as int].push(letters[symbol as int]));
                    assert(words[new_node as int] == bytes@.take(k + 1));
                    assert forall|n: int| 0 <= n < words.len() implies #[trigger] output@[n] == is_pattern(
                        pats,
                        i as int,
                        words[n],
                    ) by {
                        if n < before.len() {
                            assert(output@[n] == marks[n]);
                            assert(words[n] == before[n]);
                        } else {
                            if is_pattern(pats, i as int, words[n]) {
                                let j = choose|j: int| 0 <= j < i && #[trigger] pats[j] == words[n];
                                assert(before.contains(pats[j]));
                                assert(false);
                            }
                        }
                    }
                    assert forall|j: int| 0 <= j < i implies words.contains(#[trigger] pats[j]) by {
                        let n = choose|n: int| 0 <= n < before.len() && before[n] == pats[j];
                        assert(words[n] == pats[j]);
                    }
                }
                node = new_node as usize;
            } else {
                node = next as usize;
            }
            k = k + 1;
        }
        assert(bytes@.take(k as int) =~= bytes@);
        let ghost marks = output@;
        output[node] = true;
        proof {
            assert forall|n: int| 0 <= n < words.len() implies #[trigger] output@[n] == is_pattern(
                pats,
                i + 1,
                words[n],
            ) by {
                if n == node {
                    assert(pats[i as int] == words[n]);
                } else {
                    assert(output@[n] == marks[n]);
                    assert(words[n] != words[node as int]);
                    if is_pattern(pats, i + 1, words[n]) {
                        let j = choose|j: int| 0 <= j < i + 1 && #[trigger] pats[j] == words[n];
                        assert(j < i);
                    }
                    if is_pattern(pats, i as int, words[n]) {
                        let j = choose|j: int| 0 <= j < i && #[trigger] pats[j] == words[n];
                        assert(j < i + 1);
                    }
                }
            }
            assert(words[node as int] == pats[i as int]);
        }
        i = i + 1;
    }
    (transitions, output, Ghost(words))
}


/// The breadth-first walk has seen this node: it is finished or waits in line.
spec fn reached(done: Set<int>, line: Seq<int>, node: int) -> bool {
    done.contains(node) || line.contains(node)
}

/// How far the breadth-first walk over the trie has come. `done` are the nodes whose rows are
/// complete, `line` those that wait, shallowest first; of the first in line, `count` symbols are
/// dealt with.
spec fn walk(
    words: Seq<Seq<u8>>,
    letters: Seq<u8>,
    done: Set<int>,
    line: Seq<int>,
    count: int,
) -> bool {
    &&& spelling(words, letters)
    &&& 0 <= count <= letters.len()
    &&& done.finite()
    &&& done.contains(0)
    &&& forall|v: int| #[trigger] done.contains(v) ==> 0 <= v < words.len()
    &&& line.no_duplicates()
    &&& forall|i: int|
        0 <= i < line.len() ==> 0 < #[trigger] line[i] < words.len() && !done.contains(line[i])
    &&& forall|i: int, j: int|
        0 <= i <= j < line.len() ==> (#[trigger] words[line[i]]).len() <= (
        #[trigger] words[line[j]]).len() <= words[line[i]].len() + 1
    &&& forall|v: int, u: int|
        #![trigger words[v], words[u]]
        0 < v < words.len() && 0 <= u < words.len() && words[u] == words[v].drop_last() ==> (
        reached(done, line, v) <==> if line.len() > 0 && u == line[0] {
            exists|r: int| 0 <= r < count && #[trigger] letters[r] == words[v].last()
        } else {
            done.contains(u)
        })
}

/// What the walk has put into the table, the failure links and the marks.
spec fn linked(
    words: Seq<Seq<u8>>,
    letters: Seq<u8>,
    patterns: Seq<Seq<u8>>,
    table: Seq<u32>,
    output: Seq<bool>,
    failure: Seq<u32>,
    done: Set<int>,
    line: Seq<int>,
    count: int,
) -> bool {
    &&& walk(words, letters, done, line, count)
    &&& words.len() <= u32::MAX
    &&& table.len() == words.len() * letters.len()
    &&& output.len() == words.len()
    &&& failure.len() == words.len()
    &&& forall|j: int| 0 <= j < patterns.len() ==> words.contains(#[trigger] patterns[j])
    &&& forall|n: int, s: int|
        #![trigger cell(n, s, letters.len() as int)]
        0 <= n < words.len() && 0 <= s < letters.len() ==> if done.contains(n) || (line.len() > 0
            && n == line[0] && s < count) {
            step_entry(words, letters, table, n, s)
        } else {
            child_entry(words, letters, table, n, s)
        }
    &&& forall|n: int|
        0 < n < words.len() && reached(done, line, n) ==> (#[trigger] failure[n]) < words.len()
            && words[failure[n] as int] == longest_suffix(words, words[n].drop_first())
    &&& output[0] == is_pattern(patterns, patterns.len() as int, Seq::empty())
    &&& !output[0] ==> forall|n: int|
        0 <= n < words.len() ==> #[trigger] output[n] == if reached(done, line, n) {
            pattern_ends(patterns, words[n])
        } else {
            is_pattern(patterns, patterns.len() as int, words[n])
        }
}

proof fn lemma_parent(words: Seq<Seq<u8>>, letters: Seq<u8>, v: int) -> (u: int)
    requires
        spelling(words, letters),
        0 < v < words.len(),
    ensures
        0 <= u < words.len(),
        words[v].len() > 0,
        words[u] == words[v].drop_last(),
{
    assert(words[v] != words[0]);
    if words[v].len() == 0 {
        assert(words[v] =~= words[0]);
    }
    assert(words.contains(words[v]));
    assert(words.contains(words[v].drop_last()));
    choose|u: int| 0 <= u < words.len() && words[u] == words[v].drop_last()
}

/// No unfinished node is shallower than the first in line.
proof fn lemma_first_is_shallowest(
    words: Seq<Seq<u8>>,
    letters: Seq<u8>,
    done: Set<int>,
    line: Seq<int>,
    count: int,
    v: int,
)
    requires
        walk(words, letters, done, line, count),
        0 <= v < words.len(),
        !done.contains(v),
    ensures
        line.len() > 0,
        words[line[0]].len() <= words[v].len(),
    decreases words[v].len(),
{
    if line.contains(v) {
        let i = choose|i: int| 0 <= i < line.len() && line[i] == v;
        assert(words[line[0]].len() <= words[line[i]].len());
    } else {
        let u = lemma_parent(words, letters, v);
        assert(!reached(done, line, v));
        if line.len() > 0 && u == line[0] {
        } else {
            lemma_first_is_shallowest(words, letters, done, line, count, u);
        }
    }
}

/// A node no deeper than the first in line has been reached.
proof fn lemma_shallow_is_reached(
    words: Seq<Seq<u8>>,
    letters: Seq<u8>,
    done: Set<int>,
    line: Seq<int>,
    count: int,
    v: int,
)
    requires
        walk(words, letters, done, line, count),
        0 <= v < words.len(),
        line.len() > 0,
        words[v].len() <= words[line[0]].len(),
    ensures
        reached(done, line, v),
{
    if v != 0 {
        let u = lemma_parent(words, letters, v);
        if !done.contains(u) {
            lemma_first_is_shallowest(words, letters, done, line, count, u);
        }
    }
}

/// What ends a word: the word itself, or what ends the longest proper suffix that is a word.
proof fn lemma_pattern_ends(words: Seq<Seq<u8>>, patterns: Seq<Seq<u8>>, word: Seq<u8>)
    requires
        words.contains(Seq::<u8>::empty()),
        word.len() > 0,
        forall|j: int| 0 <= j < patterns.len() ==> words.contains(#[trigger] patterns[j]),
    ensures
        pattern_ends(patterns, word) == (is_pattern(patterns, patterns.len() as int, word)
            || pattern_ends(patterns, longest_suffix(words, word.drop_first()))),
{
    let rest = word.drop_first();
    let tail = longest_suffix(words, rest);
    lemma_longest_suffix(words, rest);
    assert(ends_with(word, rest)) by {
        assert(word.subrange(1, word.len() as int) =~= rest);
    }
    if pattern_ends(patterns, word) {
        let j = choose|j: int| 0 <= j < patterns.len() && ends_with(word, #[trigger] patterns[j]);
        let p = patterns[j];
        if p.len() == word.len() {
            assert(word.subrange(0, word.len() as int) =~= word);
            assert(is_pattern(patterns, patterns.len() as int, word));
        } else {
            assert(rest.subrange(rest.len() - p.len(), rest.len() as int) =~= word.subrange(
                word.len() - p.len(),
                word.len() as int,
            ));
            lemma_longest_suffix_is_longest(words, rest, p);
            assert(pattern_ends(patterns, tail));
        }
    }
    if is_pattern(patterns, patterns.len() as int, word) {
        let j = choose|j: int| 0 <= j < patterns.len() && #[trigger] patterns[j] == word;
        assert(word.subrange(0, word.len() as int) =~= word);
        assert(ends_with(word, patterns[j]));
    }
    if pattern_ends(patterns, tail) {
        let j = choose|j: int| 0 <= j < patterns.len() && ends_with(tail, #[trigger] patterns[j]);
        lemma_ends_with_trans(word, rest, tail);
        lemma_ends_with_trans(word, tail, patterns[j]);
    }
}


/// The row of the failure link gives where the first in line falls back to on the next symbol.
proof fn lemma_fallback(
    words: Seq<Seq<u8>>,
    letters: Seq<u8>,
    patterns: Seq<Seq<u8>>,
    table: Seq<u32>,
    output: Seq<bool>,
    failure: Seq<u32>,
    done: Set<int>,
    line: Seq<int>,
    s: int,
)
    requires
        linked(words, letters, patterns, table, output, failure, done, line, s),
        line.len() > 0,
        s < letters.len(),
    ensures
        ({
            let node = line[0];
            let fail_node = failure[node] as int;
            let fallback = table[cell(fail_node, s, letters.len() as int)] as int;
            let word = words[node].push(letters[s]);
            &&& fail_node < words.len()
            &&& fail_node != node
            &&& fallback < words.len()
            &&& words[fallback] == longest_suffix(words, word.drop_first())
            &&& words[fallback].len() <= words[node].len()
            &&& reached(done, line, fallback)
        }),
{
    let node = line[0];
    let size = letters.len() as int;
    let w = words[node];
    let word = w.push(letters[s]);
    assert(line.contains(node)) by {
        assert(line[0] == node);
    }
    let parent = lemma_parent(words, letters, node);
    let fail_node = failure[node] as int;
    let rest = w.drop_first();
    assert(words.contains(words[0]));
    lemma_longest_suffix(words, rest);
    assert(words[fail_node].len() <= rest.len());
    if !done.contains(fail_node) {
        lemma_first_is_shallowest(words, letters, done, line, s, fail_node);
    }
    let c = cell(fail_node, s, size);
    assert(step_entry(words, letters, table, fail_node, s));
    let fallback = table[c] as int;
    lemma_longest_suffix_step(words, rest, letters[s]);
    assert(word.drop_first() =~= rest.push(letters[s]));
    lemma_longest_suffix(words, words[fail_node].push(letters[s]));
    lemma_shallow_is_reached(words, letters, done, line, s, fallback);
}

proof fn lemma_link_child(
    words: Seq<Seq<u8>>,
    letters: Seq<u8>,
    patterns: Seq<Seq<u8>>,
    table: Seq<u32>,
    output: Seq<bool>,
    failure: Seq<u32>,
    done: Set<int>,
    line: Seq<int>,
    s: int,
)
    requires
        linked(words, letters, patterns, table, output, failure, done, line, s),
        letters.no_duplicates(),
        line.len() > 0,
        s < letters.len(),
        table[cell(line[0], s, letters.len() as int)] != 0,
    ensures
        ({
            let size = letters.len() as int;
            let child = table[cell(line[0], s, size)] as int;
            let fallback = table[cell(failure[line[0]] as int, s, size)];
            let marks = if output[fallback as int] {
                output.update(child, true)
            } else {
                output
            };
            &&& 0 < child < words.len()
            &&& linked(
                words,
                letters,
                patterns,
                table,
                marks,
                failure.update(child, fallback),
                done,
                line.push(child),
                s + 1,
            )
        }),
{
    let size = letters.len() as int;
    let node = line[0];
    let c = cell(node, s, size);
    let child = table[c] as int;
    let fallback = table[cell(failure[node] as int, s, size)];
    let marks = if output[fallback as int] {
        output.update(child, true)
    } else {
        output
    };
    let links = failure.update(child, fallback);
    let longer = line.push(child);
    let word = words[node].push(letters[s]);
    lemma_fallback(words, letters, patterns, table, output, failure, done, line, s);
    assert(line.contains(node)) by {
        assert(line[0] == node);
    }
    assert(!done.contains(node));
    assert(child_entry(words, letters, table, node, s));
    assert(words[child] == word);
    assert(word.drop_last() =~= words[node]);
    assert(word.last() == letters[s]);
    assert(!reached(done, line, child)) by {
        if reached(done, line, child) {
            let r = choose|r: int| 0 <= r < s && #[trigger] letters[r] == words[child].last();
            assert(letters[r] == letters[s]);
        }
    }
    assert forall|v: int| #[trigger] longer.contains(v) implies line.contains(v) || v == child by {
        let i = choose|i: int| 0 <= i < longer.len() && longer[i] == v;
        if i < line.len() {
            assert(line[i] == v);
        }
    }
    assert forall|v: int| line.contains(v) implies #[trigger] longer.contains(v) by {
        let i = choose|i: int| 0 <= i < line.len() && line[i] == v;
        assert(longer[i] == v);
    }
    assert(longer[line.len() as int] == child);
    assert(longer.contains(child));
    assert forall|v: int| #[trigger] reached(done, longer, v) == (reached(done, line, v) || v == child) by {}
    assert(longer.no_duplicates());
    assert(walk(words, letters, done, longer, s + 1)) by {
        assert forall|i: int, j: int| 0 <= i <= j < longer.len() implies (#[trigger] words[longer[i]]).len()
            <= (#[trigger] words[longer[j]]).len() <= words[longer[i]].len() + 1 by {
            if j < line.len() {
                assert(words[line[i]].len() <= words[line[j]].len());
            } else if i < line.len() {
                assert(words[line[0]].len() <= words[line[i]].len());
            }
        }
        assert forall|v: int, u: int|
            #![trigger words[v], words[u]]
            0 < v < words.len() && 0 <= u < words.len() && words[u] == words[v].drop_last() implies (
        reached(done, longer, v) <==> if longer.len() > 0 && u == longer[0] {
            exists|r: int| 0 <= r < s + 1 && #[trigger] letters[r] == words[v].last()
        } else {
            done.contains(u)
        }) by {
            assert(reached(done, longer, v) == (reached(done, line, v) || v == child));
            if u == node {
                if words[v].last() == letters[s] {
                    let p = lemma_parent(words, letters, v);
                    assert(words[v] =~= words[v].drop_last().push(words[v].last()));
                    assert(words[v] == words[child]);
                    assert(v == child);
                    assert(0 <= s < s + 1);
                } else {
                    assert(v != child);
                    if exists|r: int| 0 <= r < s + 1 && #[trigger] letters[r] == words[v].last() {
                        let r = choose|r: int| 0 <= r < s + 1 && #[trigger] letters[r] == words[v].last();
                        assert(r < s);
                    }
                    if exists|r: int| 0 <= r < s && #[trigger] letters[r] == words[v].last() {
                        let r = choose|r: int| 0 <= r < s && #[trigger] letters[r] == words[v].last();
                        assert(r < s + 1);
                    }
                }
            } else {
                if v == child {
                    assert(words[u] == words[node]);
                }
            }
        }
    }
    assert forall|n: int, q: int|
        #![trigger cell(n, q, letters.len() as int)]
        0 <= n < words.len() && 0 <= q < letters.len() implies if done.contains(n) || (longer.len() > 0
        && n == longer[0] && q < s + 1) {
        step_entry(words, letters, table, n, q)
    } else {
        child_entry(words, letters, table, n, q)
    } by {
        if n == node && q == s {
            assert(words.contains(word));
            assert(step_entry(words, letters, table, n, q));
        }
    }
    assert(words.contains(words[0]));
    lemma_pattern_ends(words, patterns, word);
    assert(marks[0] == output[0]);
    assert forall|n: int| !output[0] && 0 <= n < words.len() implies #[trigger] marks[n] == if reached(
        done,
        longer,
        n,
    ) {
        pattern_ends(patterns, words[n])
    } else {
        is_pattern(patterns, patterns.len() as int, words[n])
    } by {
        assert(reached(done, longer, n) == (reached(done, line, n) || n == child));
        if n == child {
            assert(output[n] == is_pattern(patterns, patterns.len() as int, words[n]));
            assert(output[fallback as int] == pattern_ends(patterns, words[fallback as int]));
        } else {
            assert(marks[n] == output[n]);
        }
    }
    assert forall|n: int| 0 < n < words.len() && reached(done, longer, n) implies (#[trigger] links[n])
        < words.len() && words[links[n] as int] == longest_suffix(words, words[n].drop_first()) by {
        assert(reached(done, longer, n) == (reached(done, line, n) || n == child));
        if n != child {
            assert(links[n] == failure[n]);
        }
    }
}

proof fn lemma_link_gap(
    words: Seq<Seq<u8>>,
    letters: Seq<u8>,
    patterns: Seq<Seq<u8>>,
    table: Seq<u32>,
    output: Seq<bool>,
    failure: Seq<u32>,
    done: Set<int>,
    line: Seq<int>,
    s: int,
)
    requires
        linked(words, letters, patterns, table, output, failure, done, line, s),
        line.len() > 0,
        s < letters.len(),
        table[cell(line[0], s, letters.len() as int)] == 0,
    ensures
        linked(
            words,
            letters,
            patterns,
            table.update(
                cell(line[0], s, letters.len() as int),
                table[cell(failure[line[0]] as int, s, letters.len() as int)],
            ),
            output,
            failure,
            done,
            line,
            s + 1,
        ),
{
    let size = letters.len() as int;
    let node = line[0];
    let c = cell(node, s, size);
    let fallback = table[cell(failure[node] as int, s, size)];
    let next = table.update(c, fallback);
    let word = words[node].push(letters[s]);
    lemma_fallback(words, letters, patterns, table, output, failure, done, line, s);
    lemma_cell_in_table(node, s, size, words.len() as int);
    assert(line.contains(node)) by {
        assert(line[0] == node);
    }
    assert(child_entry(words, letters, table, node, s));
    assert(word.drop_last() =~= words[node]);
    assert(walk(words, letters, done, line, s + 1)) by {
        assert forall|v: int, u: int|
            #![trigger words[v], words[u]]
            0 < v < words.len() && 0 <= u < words.len() && words[u] == words[v].drop_last() implies (
        reached(done, line, v) <==> if line.len() > 0 && u == line[0] {
            exists|r: int| 0 <= r < s + 1 && #[trigger] letters[r] == words[v].last()
        } else {
            done.contains(u)
        }) by {
            if u == node {
                let p = lemma_parent(words, letters, v);
                assert(words[v] =~= words[v].drop_last().push(words[v].last()));
                if words[v].last() == letters[s] {
                    assert(words.contains(words[v]));
                    assert(false);
                }
                if exists|r: int| 0 <= r < s + 1 && #[trigger] letters[r] == words[v].last() {
                    let r = choose|r: int| 0 <= r < s + 1 && #[trigger] letters[r] == words[v].last();
                    assert(r < s);
                }
                if exists|r: int| 0 <= r < s && #[trigger] letters[r] == words[v].last() {
                    let r = choose|r: int| 0 <= r < s && #[trigger] letters[r] == words[v].last();
                    assert(r < s + 1);
                }
            }
        }
    }
    assert forall|n: int, q: int|
        #![trigger cell(n, q, letters.len() as int)]
        0 <= n < words.len() && 0 <= q < letters.len() implies if done.contains(n) || (line.len() > 0
        && n == line[0] && q < s + 1) {
        step_entry(words, letters, next, n, q)
    } else {
        child_entry(words, letters, next, n, q)
    } by {
        lemma_cell_in_table(n, q, size, words.len() as int);
        if n == node && q == s {
            assert(longest_suffix(words, word) == longest_suffix(words, word.drop_first()));
            assert(step_entry(words, letters, next, n, q));
        } else {
            if cell(n, q, size) == c {
                lemma_cell_injective(n, q, node, s, size);
            }
            assert(next[cell(n, q, size)] == table[cell(n, q, size)]);
        }
    }
}

/// Once all its symbols are dealt with, the first in line is finished.
proof fn lemma_link_finish(
    words: Seq<Seq<u8>>,
    letters: Seq<u8>,
    patterns: Seq<Seq<u8>>,
    table: Seq<u32>,
    output: Seq<bool>,
    failure: Seq<u32>,
    done: Set<int>,
    line: Seq<int>,
)
    requires
        linked(words, letters, patterns, table, output, failure, done, line, letters.len() as int),
        line.len() > 0,
    ensures
        linked(
            words,
            letters,
            patterns,
            table,
            output,
            failure,
            done.insert(line[0]),
            line.drop_first(),
            0,
        ),
{
    let node = line[0];
    let more = done.insert(node);
    let rest = line.drop_first();
    assert forall|v: int| #[trigger] rest.contains(v) implies line.contains(v) && v != node by {
        let i = choose|i: int| 0 <= i < rest.len() && rest[i] == v;
        assert(line[i + 1] == v);
    }
    assert forall|v: int| line.contains(v) && v != node implies #[trigger] rest.contains(v) by {
        let i = choose|i: int| 0 <= i < line.len() && line[i] == v;
        assert(rest[i - 1] == v);
    }
    assert(line.contains(node)) by {
        assert(line[0] == node);
    }
    assert forall|v: int| #[trigger] reached(more, rest, v) == reached(done, line, v) by {}
    assert(walk(words, letters, more, rest, 0)) by {
        assert forall|i: int|
            0 <= i < rest.len() implies 0 < #[trigger] rest[i] < words.len() && !more.contains(rest[i]) by {
            assert(line[i + 1] == rest[i]);
            assert(rest.contains(rest[i]));
        }
        assert forall|i: int, j: int| 0 <= i <= j < rest.len() implies (#[trigger] words[rest[i]]).len()
            <= (#[trigger] words[rest[j]]).len() <= words[rest[i]].len() + 1 by {
            assert(words[line[i + 1]].len() <= words[line[j + 1]].len());
        }
        assert forall|v: int, u: int|
            #![trigger words[v], words[u]]
            0 < v < words.len() && 0 <= u < words.len() && words[u] == words[v].drop_last() implies (
        reached(more, rest, v) <==> if rest.len() > 0 && u == rest[0] {
            exists|r: int| 0 <= r < 0 && #[trigger] letters[r] == words[v].last()
        } else {
            more.contains(u)
        }) by {
            assert(reached(more, rest, v) == reached(done, line, v));
            let p = lemma_parent(words, letters, v);
            if u == node {
                assert(words[v][words[v].len() - 1] == words[v].last());
                assert(letters.contains(words[v].last()));
                let r = choose|r: int| 0 <= r < letters.len() && letters[r] == words[v].last();
                assert(letters[r] == words[v].last());
                if rest.len() > 0 {
                    assert(rest.contains(rest[0]));
                }
            } else if rest.len() > 0 && u == rest[0] {
                assert(rest.contains(rest[0]));
                assert(line[1] == u);
                assert(!done.contains(u));
            }
        }
    }
    assert forall|n: int, s: int|
        #![trigger cell(n, s, letters.len() as int)]
        0 <= n < words.len() && 0 <= s < letters.len() implies if more.contains(n) || (rest.len() > 0
        && n == rest[0] && s < 0) {
        step_entry(words, letters, table, n, s)
    } else {
        child_entry(words, letters, table, n, s)
    } by {}
}


/// The finished automaton: every row steps to the longest suffix, and unless the empty pattern
/// matches everything anyway, the marked nodes are those that some pattern ends.
spec fn completed(
    words: Seq<Seq<u8>>,
    letters: Seq<u8>,
    patterns: Seq<Seq<u8>>,
    table: Seq<u32>,
    output: Seq<bool>,
) -> bool {
    &&& spelling(words, letters)
    &&& table.len() == words.len() * letters.len()
    &&& output.len() == words.len()
    &&& forall|j: int| 0 <= j < patterns.len() ==> words.contains(#[trigger] patterns[j])
    &&& forall|n: int| 0 <= n < words.len() ==> #[trigger] step_row(words, letters, table, n)
    &&& output[0] == is_pattern(patterns, patterns.len() as int, Seq::empty())
    &&& !output[0] ==> forall|n: int|
        0 <= n < words.len() ==> #[trigger] output[n] == pattern_ends(patterns, words[n])
}

proof fn lemma_done_is_bounded(
    words: Seq<Seq<u8>>,
    letters: Seq<u8>,
    done: Set<int>,
    line: Seq<int>,
    count: int,
)
    requires
        walk(words, letters, done, line, count),
    ensures
        done.len() <= words.len(),
{
    vstd::set_lib::lemma_int_range(0, words.len() as int);
    assert(done.subset_of(vstd::set_lib::set_int_range(0, words.len() as int)));
    vstd::set_lib::lemma_len_subset(done, vstd::set_lib::set_int_range(0, words.len() as int));
}

/// The root row holds this child among its first `count` entries.
spec fn root_child(table: Seq<u32>, count: int, node: int) -> bool {
    node != 0 && exists|r: int| 0 <= r < count && #[trigger] table[r] == node
}

/// The queue holds the nodes of the line.
spec fn same_nodes(line: Seq<int>, queue: Seq<usize>) -> bool {
    line.len() == queue.len() && forall|i: int| 0 <= i < line.len() ==> #[trigger] line[i] == queue[i]
}

/// The walk starts with the root finished and its children in line.
proof fn lemma_walk_starts(
    words: Seq<Seq<u8>>,
    letters: Seq<u8>,
    patterns: Seq<Seq<u8>>,
    table: Seq<u32>,
    output: Seq<bool>,
    failure: Seq<u32>,
    line: Seq<int>,
)
    requires
        trie(words, letters, table),
        output.len() == words.len(),
        failure.len() == words.len(),
        forall|n: int| 0 <= n < failure.len() ==> #[trigger] failure[n] == 0,
        forall|n: int|
            0 <= n < words.len() ==> #[trigger] output[n] == is_pattern(
                patterns,
                patterns.len() as int,
                words[n],
            ),
        forall|j: int| 0 <= j < patterns.len() ==> words.contains(#[trigger] patterns[j]),
        line.no_duplicates(),
        forall|i: int|
            0 <= i < line.len() ==> root_child(table, letters.len() as int, #[trigger] line[i]),
        forall|r: int|
            0 <= r < letters.len() && #[trigger] table[r] != 0 ==> line.contains(table[r] as int),
    ensures
        linked(words, letters, patterns, table, output, failure, set![0int], line, 0),
{
    let done = set![0int];
    assert(child_row(words, letters, table, 0));
    assert forall|i: int| 0 <= i < line.len() implies 0 < #[trigger] line[i] < words.len()
        && !done.contains(line[i]) && words[line[i]].len() == 1 && words[line[i]].drop_first()
        =~= Seq::<u8>::empty() && words[line[i]].drop_last() =~= Seq::<u8>::empty() by {
        let r = choose|r: int| 0 <= r < letters.len() && #[trigger] table[r] == line[i];
        assert(child_entry(words, letters, table, 0, r));
    }
    assert(walk(words, letters, done, line, 0)) by {
        assert forall|v: int, u: int|
            #![trigger words[v], words[u]]
            0 < v < words.len() && 0 <= u < words.len() && words[u] == words[v].drop_last() implies (
        reached(done, line, v) <==> if line.len() > 0 && u == line[0] {
            exists|r: int| 0 <= r < 0 && #[trigger] letters[r] == words[v].last()
        } else {
            done.contains(u)
        }) by {
            let p = lemma_parent(words, letters, v);
            if u == 0 {
                assert(words[v][words[v].len() - 1] == words[v].last());
                assert(letters.contains(words[v].last()));
                let r = choose|r: int| 0 <= r < letters.len() && letters[r] == words[v].last();
                assert(child_entry(words, letters, table, 0, r));
                assert(words[v] =~= words[0].push(letters[r]));
                assert(words.contains(words[v]));
                assert(table[r] != 0);
                assert(v == table[r]);
            } else {
                assert(words[u] != words[0]);
                if words[v].len() == 1 {
                    assert(words[u] =~= words[0]);
                }
                if line.contains(v) {
                    let i = choose|i: int| 0 <= i < line.len() && line[i] == v;
                    assert(words[line[i]].len() == 1);
                }
            }
        }
    }
    assert forall|n: int, s: int|
        #![trigger cell(n, s, letters.len() as int)]
        0 <= n < words.len() && 0 <= s < letters.len() implies if done.contains(n) || (line.len() > 0
        && n == line[0] && s < 0) {
        step_entry(words, letters, table, n, s)
    } else {
        child_entry(words, letters, table, n, s)
    } by {
        assert(child_row(words, letters, table, n));
        assert(child_entry(words, letters, table, n, s));
        if n == 0 {
            let word = words[0].push(letters[s]);
            assert(word.drop_first() =~= Seq::<u8>::empty());
            assert(longest_suffix(words, word.drop_first()) == words[0]);
            if table[cell(0, s, letters.len() as int)] != 0 {
                assert(words.contains(words[table[cell(0, s, letters.len() as int)] as int]));
            }
            assert(step_entry(words, letters, table, n, s));
        }
    }
    assert forall|n: int| 0 < n < words.len() && reached(done, line, n) implies (#[trigger] failure[n])
        < words.len() && words[failure[n] as int] == longest_suffix(words, words[n].drop_first()) by {
        let i = choose|i: int| 0 <= i < line.len() && line[i] == n;
        assert(words[line[i]].len() == 1);
    }
    assert forall|n: int| !output[0] && 0 <= n < words.len() implies #[trigger] output[n] == if reached(
        done,
        line,
        n,
    ) {
        pattern_ends(patterns, words[n])
    } else {
        is_pattern(patterns, patterns.len() as int, words[n])
    } by {
        if reached(done, line, n) {
            lemma_nothing_ends_the_empty_word(patterns);
            if n != 0 {
                let i = choose|i: int| 0 <= i < line.len() && line[i] == n;
                assert(words[line[i]].len() == 1);
                assert(words.contains(words[0]));
                lemma_pattern_ends(words, patterns, words[n]);
                assert(longest_suffix(words, words[n].drop_first()) =~= Seq::<u8>::empty());
            }
        }
    }
}

proof fn lemma_nothing_ends_the_empty_word(patterns: Seq<Seq<u8>>)
    ensures
        pattern_ends(patterns, Seq::empty()) == is_pattern(
            patterns,
            patterns.len() as int,
            Seq::empty(),
        ),
{
    let none = Seq::<u8>::empty();
    if pattern_ends(patterns, none) {
        let j = choose|j: int| 0 <= j < patterns.len() && ends_with(none, #[trigger] patterns[j]);
        assert(patterns[j] =~= none);
    }
    if is_pattern(patterns, patterns.len() as int, none) {
        let j = choose|j: int| 0 <= j < patterns.len() && #[trigger] patterns[j] == none;
        assert(none.subrange(0, 0) =~= none);
        assert(ends_with(none, patterns[j]));
    }
}

/// With nobody left in line, the walk has finished every node.
proof fn lemma_walk_ends(
    words: Seq<Seq<u8>>,
    letters: Seq<u8>,
    patterns: Seq<Seq<u8>>,
    table: Seq<u32>,
    output: Seq<bool>,
    failure: Seq<u32>,
    done: Set<int>,
    line: Seq<int>,
)
    requires
        linked(words, letters, patterns, table, output, failure, done, line, 0),
        line.len() == 0,
    ensures
        completed(words, letters, patterns, table, output),
{
    assert forall|n: int| 0 <= n < words.len() implies done.contains(n) by {
        if !done.contains(n) {
            lemma_first_is_shallowest(words, letters, done, line, 0, n);
        }
    }
    assert forall|n: int| 0 <= n < words.len() implies #[trigger] step_row(words, letters, table, n) by {
        assert forall|s: int| 0 <= s < letters.len() implies #[trigger] step_entry(
            words,
            letters,
            table,
            n,
            s,
        ) by {
            let c = cell(n, s, letters.len() as int);
        }
    }
}

/// Links every node to its longest proper suffix and completes the transition table, walking the
/// trie breadth first.
fn link(
    transitions: Vec<u32>,
    output: Vec<bool>,
    alphabet_size: usize,
    Ghost(letters): Ghost<Seq<u8>>,
    Ghost(words): Ghost<Seq<Seq<u8>>>,
    Ghost(patterns): Ghost<Seq<Seq<u8>>>,
) -> (r: (Vec<u32>, Vec<bool>))
    requires
        trie(words, letters, transitions@),
        letters.no_duplicates(),
        alphabet_size == letters.len(),
        alphabet_size > 0,
        output@.len() == words.len(),
        forall|n: int|
            0 <= n < words.len() ==> #[trigger] output@[n] == is_pattern(
                patterns,
                patterns.len() as int,
                words[n],
            ),
        forall|j: int| 0 <= j < patterns.len() ==> words.contains(#[trigger] patterns[j]),
    ensures
        completed(words, letters, patterns, r.0@, r.1@),
{
    let mut transitions = transitions;
    let mut output = output;
    let mut failure: Vec<u32> = vec![0u32; output.len()];
    let mut queue: VecDeque<usize> = VecDeque::new();
    let mut symbol: usize = 0;
    while symbol < alphabet_size
        invariant
            symbol <= alphabet_size,
            trie(words, letters, transitions@),
            letters.no_duplicates(),
            alphabet_size == letters.len(),
            forall|i: int|
                0 <= i < queue@.len() ==> root_child(
                    transitions@,
                    symbol as int,
                    #[trigger] queue@[i] as int,
                ),
            forall|r: int|
                0 <= r < symbol && #[trigger] transitions@[r] != 0 ==> queue@.contains(
                    transitions@[r] as usize,
                ),
            queue@.no_duplicates(),
        decreases alphabet_size - symbol,
    {
        proof {
            lemma_cell_in_table(0, symbol as int, alphabet_size as int, words.len() as int);
            assert(child_row(words, letters, transitions@, 0));
        }
        let child: u32 = transitions[symbol];
        let ghost before = queue@;
        if child != 0 {
            queue.push_back(child as usize);
            proof {
                assert(child_entry(words, letters, transitions@, 0, symbol as int));
                assert(queue@ == before.push(child as usize));
                assert forall|i: int| 0 <= i < queue@.len() implies root_child(
                    transitions@,
                    symbol + 1,
                    #[trigger] queue@[i] as int,
                ) by {
                    if i < before.len() {
                        assert(root_child(transitions@, symbol as int, before[i] as int));
                        let r = choose|r: int|
                            0 <= r < symbol && #[trigger] transitions@[r] == before[i] as int;
                        assert(transitions@[r] == queue@[i] as int);
                    } else {
                        assert(transitions@[symbol as int] == queue@[i] as int);
                    }
                }
                assert forall|r: int| 0 <= r < symbol + 1 && #[trigger] transitions@[r]
                    != 0 implies queue@.contains(transitions@[r] as usize) by {
                    if r < symbol {
                        let i = choose|i: int|
                            0 <= i < before.len() && before[i] == transitions@[r] as usize;
                        assert(queue@[i] == transitions@[r] as usize);
                    } else {
                        assert(queue@[before.len() as int] == transitions@[r] as usize);
                    }
                }
                if before.contains(child as usize) {
                    let i = choose|i: int| 0 <= i < before.len() && before[i] == child as usize;
                    assert(root_child(transitions@, symbol as int, before[i] as int));
                    let r = choose|r: int|
                        0 <= r < symbol && #[trigger] transitions@[r] == before[i] as int;
                    assert(child_entry(words, letters, transitions@, 0, r));
                    assert(words[child as int].last() == letters[r]);
                    assert(words[child as int].last() == letters[symbol as int]);
                }
            }
        }
        proof {
            assert forall|i: int| child == 0 && 0 <= i < queue@.len() implies root_child(
                transitions@,
                symbol + 1,
                #[trigger] queue@[i] as int,
            ) by {
                assert(root_child(transitions@, symbol as int, before[i] as int));
                let r = choose|r: int|
                    0 <= r < symbol && #[trigger] transitions@[r] == before[i] as int;
                assert(transitions@[r] == queue@[i] as int);
            }
        }
        symbol = symbol + 1;
    }
    let ghost mut done: Set<int> = set![0int];
    let ghost mut line: Seq<int> = Seq::new(queue@.len(), |i: int| queue@[i] as int);
    proof {
        assert forall|r: int| 0 <= r < letters.len() && #[trigger] transitions@[r]
            != 0 implies line.contains(transitions@[r] as int) by {
            let i = choose|i: int| 0 <= i < queue@.len() && queue@[i] == transitions@[r] as usize;
            assert(line[i] == transitions@[r] as int);
        }
        lemma_walk_starts(words, letters, patterns, transitions@, output@, failure@, line);
    }
    while queue.len() > 0
        invariant
            linked(
                words,
                letters,
                patterns,
                transitions@,
                output@,
                failure@,
                done,
                line,
                0,
            ),
            letters.no_duplicates(),
            alphabet_size == letters.len(),
            same_nodes(line, queue@),
        decreases words.len() - done.len(),
    {
        proof {
            lemma_done_is_bounded(words, letters, done, line, 0);
            assert(line[0] == queue@[0] as int);
        }
        let node: usize = match queue.pop_front() {
            Some(node) => node,
            None => 0,
        };
        assert(line[0] == node);
        assert(line.contains(node as int));
        let fail_node: usize = failure[node] as usize;
        let ghost start_done = done;
        let mut symbol: usize = 0;
        while symbol < alphabet_size
            invariant
                symbol <= alphabet_size,
                linked(
                    words,
                    letters,
                    patterns,
                    transitions@,
                    output@,
                    failure@,
                    done,
                    line,
                    symbol as int,
                ),
                done == start_done,
                letters.no_duplicates(),
                alphabet_size == letters.len(),
                line.len() > 0,
                line[0] == node,
                failure@[node as int] == fail_node,
                same_nodes(line.drop_first(), queue@),
            decreases alphabet_size - symbol,
        {
            proof {
                lemma_fallback(
                    words,
                    letters,
                    patterns,
                    transitions@,
                    output@,
                    failure@,
                    done,
                    line,
                    symbol as int,
                );
                lemma_cell_in_table(node as int, symbol as int, alphabet_size as int, words.len() as int);
                lemma_cell_in_table(
                    fail_node as int,
                    symbol as int,
                    alphabet_size as int,
                    words.len() as int,
                );
                assert(transitions@.len() == transitions.len());
            }
            let index: usize = node * alphabet_size + symbol;
            let child: u32 = transitions[index];
            let fallback: u32 = transitions[fail_node * alphabet_size + symbol];
            let ghost before_line = line;
            if child != 0 {
                proof {
                    lemma_link_child(
                        words,
                        letters,
                        patterns,
                        transitions@,
                        output@,
                        failure@,
                        done,
                        line,
                        symbol as int,
                    );
                    line = line.push(child as int);
                }
                failure[child as usize] = fallback;
                if output[fallback as usize] {
                    output[child as usize] = true;
                }
                queue.push_back(child as usize);
                proof {
                    let rest = line.drop_first();
                    assert(rest =~= before_line.drop_first().push(child as int));
                    assert(same_nodes(rest, queue@));
                }
            } else {
                proof {
                    lemma_link_gap(
                        words,
                        letters,
                        patterns,
                        transitions@,
                        output@,
                        failure@,
                        done,
                        line,
                        symbol as int,
                    );
                }
                transitions[index] = fallback;
            }
            symbol = symbol + 1;
        }
        proof {
            lemma_link_finish(
                words,
                letters,
                patterns,
                transitions@,
                output@,
                failure@,
                done,
                line,
            );
            done = done.insert(line[0]);
            line = line.drop_first();
            lemma_done_is_bounded(words, letters, done, line, 0);
        }
    }
    proof {
        lemma_walk_ends(words, letters, patterns, transitions@, output@, failure@, done, line);
    }
    (transitions, output)
}


/// Searches a text for any of a set of patterns in one pass over its bytes.
///
/// The patterns form a trie over the bytes that they use; every node is linked to its longest
/// proper suffix, and the links are folded into the transition table.
pub struct Matcher {
    // transitions[node * alphabet_size + symbol]
    transitions: Vec<u32>,
    output: Vec<bool>,
    alphabet: [usize; 256],
    alphabet_size: usize,
    patterns: Ghost<Seq<Seq<char>>>,
    words: Ghost<Seq<Seq<u8>>>,
    letters: Ghost<Seq<u8>>,
}

/// One of the patterns occurs in `text`.
pub open spec fn any_occurs(patterns: Seq<Seq<char>>, text: Seq<char>) -> bool {
    exists|j: int| 0 <= j < patterns.len() && text::occurs(text, #[trigger] patterns[j])
}

/// A pattern of the list that stands in the text is found, wherever it stands; without patterns
/// nothing is found, and one more pattern finds what it stands in and changes nothing else.
pub proof fn lemma_matches_in_full(patterns: Seq<Seq<char>>, text: Seq<char>, more: Seq<char>)
    ensures
        forall|j: int, k: int|
            0 <= j < patterns.len() && 0 <= k && k + patterns[j].len() <= text.len()
                && #[trigger] text.subrange(k, k + (#[trigger] patterns[j]).len()) == patterns[j]
                ==> any_occurs(patterns, text),
        patterns.len() == 0 ==> !any_occurs(patterns, text),
        any_occurs(patterns.push(more), text) <==> any_occurs(patterns, text) || exists|k: int|
            0 <= k && k + more.len() <= text.len() && #[trigger] text.subrange(k, k + more.len())
                == more,
{
    assert forall|j: int, k: int|
        0 <= j < patterns.len() && 0 <= k && k + patterns[j].len() <= text.len()
            && #[trigger] text.subrange(k, k + (#[trigger] patterns[j]).len())
            == patterns[j] implies any_occurs(patterns, text) by {
        assert(text::occurs_at(text, patterns[j], k));
    }
    let list = patterns.push(more);
    let last = patterns.len() as int;
    assert(list[last] == more);
    if any_occurs(list, text) {
        let j = choose|j: int| 0 <= j < list.len() && text::occurs(text, #[trigger] list[j]);
        if j < last {
            assert(patterns[j] == list[j]);
        } else {
            let k = choose|k: int| #[trigger] text::occurs_at(text, more, k);
            assert(text.subrange(k, k + more.len()) == more);
        }
    }
    if any_occurs(patterns, text) {
        let j = choose|j: int|
            0 <= j < patterns.len() && text::occurs(text, #[trigger] patterns[j]);
        assert(list[j] == patterns[j]);
    }
    if exists|k: int|
        0 <= k && k + more.len() <= text.len() && #[trigger] text.subrange(k, k + more.len())
            == more {
        let k = choose|k: int|
            0 <= k && k + more.len() <= text.len() && #[trigger] text.subrange(k, k + more.len())
                == more;
        assert(text::occurs_at(text, more, k));
        assert(text::occurs(text, list[last]));
    }
}

/// Lists of the same patterns, in whatever order and however often, match the same texts.
pub proof fn lemma_same_patterns(p: Seq<Seq<char>>, q: Seq<Seq<char>>, text: Seq<char>)
    requires
        forall|pattern: Seq<char>| p.contains(pattern) <==> q.contains(pattern),
    ensures
        any_occurs(p, text) == any_occurs(q, text),
{
    if any_occurs(p, text) {
        let j = choose|j: int| 0 <= j < p.len() && text::occurs(text, #[trigger] p[j]);
        assert(p.contains(p[j]));
        let k = choose|k: int| 0 <= k < q.len() && q[k] == p[j];
        assert(text::occurs(text, q[k]));
    }
    if any_occurs(q, text) {
        let j = choose|j: int| 0 <= j < q.len() && text::occurs(text, #[trigger] q[j]);
        assert(q.contains(q[j]));
        let k = choose|k: int| 0 <= k < p.len() && p[k] == q[j];
        assert(text::occurs(text, p[k]));
    }
}

impl View for Matcher {
    type V = Seq<Seq<char>>;

    /// The patterns.
    closed spec fn view(&self) -> Seq<Seq<char>> {
        self.patterns@
    }
}

impl Matcher {
    #[verifier::type_invariant]
    spec fn well_formed(self) -> bool {
        &&& alphabet_numbers(self.alphabet@, self.letters@)
        &&& self.alphabet_size == self.letters@.len()
        &&& completed(
            self.words@,
            self.letters@,
            self.patterns@.map_values(|p: Seq<char>| encode_utf8(p)),
            self.transitions@,
            self.output@,
        )
    }

    /// Builds the automaton for `patterns`.
    pub fn new(patterns: &[String]) -> (matcher: Self)
        requires
            total_len(pattern_bytes(patterns@)) < u32::MAX,
        ensures
            matcher@ == patterns@.map_values(|p: String| p@),
    {
        let (alphabet, alphabet_size, Ghost(letters)) = compress_alphabet(patterns);
        let (transitions, output, Ghost(words)) = build_trie(
            patterns,
            &alphabet,
            alphabet_size,
            Ghost(letters),
        );
        let ghost pats = pattern_bytes(patterns@);
        let ghost texts = patterns@.map_values(|p: String| p@);
        proof {
            lemma_letters_distinct(alphabet@, letters);
            assert(texts.map_values(|p: Seq<char>| encode_utf8(p)) =~= pats);
        }
        if alphabet_size == 0 {
            proof {
                lemma_root_alone(words, letters, pats, transitions@, output@);
            }
            return Self {
                transitions,
                output,
                alphabet,
                alphabet_size,
                patterns: Ghost(texts),
                words: Ghost(words),
                letters: Ghost(letters),
            };
        }
        let (transitions, output) = link(
            transitions,
            output,
            alphabet_size,
            Ghost(letters),
            Ghost(words),
            Ghost(pats),
        );
        Self {
            transitions,
            output,
            alphabet,
            alphabet_size,
            patterns: Ghost(texts),
            words: Ghost(words),
            letters: Ghost(letters),
        }
    }

    /// Whether some pattern occurs in `text`.
    pub fn is_match(&self, text: &str) -> (found: bool)
        ensures
            found == any_occurs(self@, text@),
    {
        proof {
            use_type_invariant(self);
        }
        let ghost pats = self.patterns@.map_values(|p: Seq<char>| encode_utf8(p));
        let ghost words = self.words@;
        let ghost letters = self.letters@;
        let ghost all = encode_utf8(text@);
        assert forall|j: int| 0 <= j < pats.len() implies text::occurs(
            text@,
            #[trigger] self.patterns@[j],
        ) == text::occurs(all, pats[j]) by {
            text::lemma_occurs_bytes(text@, self.patterns@[j]);
        }
        if self.output[0] {
            proof {
                let j = choose|j: int|
                    0 <= j < pats.len() && #[trigger] pats[j] == Seq::<u8>::empty();
                assert(all.subrange(0, 0) =~= pats[j]);
                assert(text::occurs_at(all, pats[j], 0));
                assert(text::occurs(text@, self.patterns@[j]));
            }
            return true;
        }
        if self.alphabet_size == 0 {
            proof {
                if any_occurs(self@, text@) {
                    let j = choose|j: int|
                        0 <= j < self@.len() && text::occurs(text@, #[trigger] self@[j]);
                    assert(words.contains(pats[j]));
                    let n = choose|n: int| 0 <= n < words.len() && words[n] == pats[j];
                    if pats[j].len() > 0 {
                        assert(letters.contains(words[n][0]));
                    }
                    assert(pats[j] =~= Seq::<u8>::empty());
                    assert(is_pattern(pats, pats.len() as int, Seq::empty()));
                }
            }
            return false;
        }
        let bytes = text.as_bytes();
        let mut state: usize = 0;
        let mut i: usize = 0;
        proof {
            assert(all.take(0) =~= Seq::<u8>::empty());
            lemma_nothing_ends_the_empty_word(pats);
        }
        while i < bytes.len()
            invariant
                i <= bytes@.len(),
                bytes@ == all,
                alphabet_numbers(self.alphabet@, letters),
                self.alphabet_size == letters.len(),
                self.alphabet_size > 0,
                completed(words, letters, pats, self.transitions@, self.output@),
                !self.output@[0],
                pats == self.patterns@.map_values(|p: Seq<char>| encode_utf8(p)),
                all == encode_utf8(text@),
                forall|j: int|
                    0 <= j < pats.len() ==> text::occurs(text@, #[trigger] self.patterns@[j]) == text::occurs(
                        all,
                        pats[j],
                    ),
                state < words.len(),
                words[state as int] == longest_suffix(words, all.take(i as int)),
                forall|k: int| 0 <= k <= i ==> !pattern_ends(pats, #[trigger] all.take(k)),
            decreases bytes@.len() - i,
        {
            let byte: u8 = bytes[i];
            let symbol: usize = self.alphabet[byte as usize];
            let ghost seen = all.take(i as int);
            proof {
                assert(all.take(i + 1) =~= seen.push(byte));
                assert(words.contains(words[0]));
                lemma_longest_suffix(words, seen.push(byte));
            }
            if symbol == usize::MAX {
                proof {
                    lemma_foreign_byte(words, letters, self.alphabet@, seen, byte);
                    lemma_ends_by_state(words, pats, seen.push(byte));
                    lemma_nothing_ends_the_empty_word(pats);
                }
                state = 0;
                i = i + 1;
                continue;
            }
            proof {
                lemma_cell_in_table(
                    state as int,
                    symbol as int,
                    self.alphabet_size as int,
                    words.len() as int,
                );
                assert(self.transitions@.len() == self.transitions.len());
                assert(letters[symbol as int] == byte);
                assert(step_row(words, letters, self.transitions@, state as int));
                assert(step_entry(words, letters, self.transitions@, state as int, symbol as int));
                lemma_longest_suffix_step(words, seen, byte);
                lemma_ends_by_state(words, pats, seen.push(byte));
            }
            state = self.transitions[state * self.alphabet_size + symbol] as usize;
            if self.output[state] {
                proof {
                    let here = all.take(i + 1);
                    assert(pattern_ends(pats, here));
                    let j = choose|j: int| 0 <= j < pats.len() && ends_with(here, #[trigger] pats[j]);
                    let k = here.len() - pats[j].len();
                    assert(all.subrange(k, k + pats[j].len()) =~= here.subrange(
                        k,
                        here.len() as int,
                    ));
                    assert(text::occurs_at(all, pats[j], k));
                    assert(text::occurs(text@, self.patterns@[j]));
                }
                return true;
            }
            i = i + 1;
        }
        proof {
            if any_occurs(self@, text@) {
                let j = choose|j: int| 0 <= j < self@.len() && text::occurs(text@, #[trigger] self@[j]);
                assert(text::occurs(all, pats[j]));
                let k = choose|k: int| #[trigger] text::occurs_at(all, pats[j], k);
                let here = all.take(k + pats[j].len());
                assert(here.subrange(here.len() - pats[j].len(), here.len() as int)
                    =~= all.subrange(k, k + pats[j].len()));
                assert(ends_with(here, pats[j]));
                assert(pattern_ends(pats, here));
            }
        }
        false
    }
}

/// With no letters there is only the root.
proof fn lemma_root_alone(
    words: Seq<Seq<u8>>,
    letters: Seq<u8>,
    patterns: Seq<Seq<u8>>,
    table: Seq<u32>,
    output: Seq<bool>,
)
    requires
        trie(words, letters, table),
        letters.len() == 0,
        output.len() == words.len(),
        forall|n: int|
            0 <= n < words.len() ==> #[trigger] output[n] == is_pattern(
                patterns,
                patterns.len() as int,
                words[n],
            ),
        forall|j: int| 0 <= j < patterns.len() ==> words.contains(#[trigger] patterns[j]),
    ensures
        completed(words, letters, patterns, table, output),
{
    assert forall|n: int| 0 <= n < words.len() && #[trigger] words[n] == words[n] implies n == 0 by {
        if words[n].len() > 0 {
            assert(letters.contains(words[n][0]));
        }
        assert(words[n] =~= words[0]);
    }
    lemma_nothing_ends_the_empty_word(patterns);
}

/// Whether a pattern ends the text read so far shows in the longest suffix alone.
proof fn lemma_ends_by_state(words: Seq<Seq<u8>>, patterns: Seq<Seq<u8>>, text: Seq<u8>)
    requires
        words.contains(Seq::<u8>::empty()),
        forall|j: int| 0 <= j < patterns.len() ==> words.contains(#[trigger] patterns[j]),
    ensures
        pattern_ends(patterns, text) == pattern_ends(patterns, longest_suffix(words, text)),
{
    let tail = longest_suffix(words, text);
    lemma_longest_suffix(words, text);
    if pattern_ends(patterns, text) {
        let j = choose|j: int| 0 <= j < patterns.len() && ends_with(text, #[trigger] patterns[j]);
        lemma_longest_suffix_is_longest(words, text, patterns[j]);
        assert(ends_with(tail, patterns[j]));
    }
    if pattern_ends(patterns, tail) {
        let j = choose|j: int| 0 <= j < patterns.len() && ends_with(tail, #[trigger] patterns[j]);
        lemma_ends_with_trans(text, tail, patterns[j]);
    }
}

/// After a byte outside the alphabet no word is under way.
proof fn lemma_foreign_byte(
    words: Seq<Seq<u8>>,
    letters: Seq<u8>,
    alphabet: Seq<usize>,
    text: Seq<u8>,
    byte: u8,
)
    requires
        spelling(words, letters),
        alphabet_numbers(alphabet, letters),
        alphabet[byte as int] == usize::MAX,
    ensures
        longest_suffix(words, text.push(byte)) == Seq::<u8>::empty(),
{
    let more = text.push(byte);
    let tail = longest_suffix(words, more);
    assert(words.contains(words[0]));
    lemma_longest_suffix(words, more);
    if tail.len() > 0 {
        let n = choose|n: int| 0 <= n < words.len() && words[n] == tail;
        let last = tail.len() - 1;
        assert(letters.contains(words[n][last]));
        assert(more.subrange(more.len() - tail.len(), more.len() as int)[last] == byte);
        let s = choose|s: int| 0 <= s < letters.len() && letters[s] == byte;
        assert(alphabet[letters[s] as int] == s);
    }
    assert(tail =~= Seq::<u8>::empty());
}

} // verus!
