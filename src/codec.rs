//! Encoding of words and sentences: each word is a variable-width length
//! prefix followed by its bytes; a sentence ends with an empty word.
use vstd::prelude::*;

use crate::read::{parse_len, parse_sentence, parse_word, Parsed};

verus! {

/// The largest length a word may have on the wire.
pub const MAX_WORD_LEN: u64 = 0xFFFF_FFFF;

/// The shortest length prefix for `n`, most significant byte first.
pub open spec fn len_prefix(n: nat) -> Seq<u8> {
    if n < 0x80 {
        seq![n as u8]
    } else if n < 0x4000 {
        seq![(0x80 + n / 0x100) as u8, (n % 0x100) as u8]
    } else if n < 0x20_0000 {
        seq![(0xC0 + n / 0x1_0000) as u8, ((n / 0x100) % 0x100) as u8, (n % 0x100) as u8]
    } else if n < 0x1000_0000 {
        seq![
            (0xE0 + n / 0x100_0000) as u8,
            ((n / 0x1_0000) % 0x100) as u8,
            ((n / 0x100) % 0x100) as u8,
            (n % 0x100) as u8,
        ]
    } else {
        seq![
            0xF0u8,
            ((n / 0x100_0000) % 0x100) as u8,
            ((n / 0x1_0000) % 0x100) as u8,
            ((n / 0x100) % 0x100) as u8,
            (n % 0x100) as u8,
        ]
    }
}

/// Number of bytes the shortest prefix of `n` takes.
pub open spec fn prefix_width(n: nat) -> nat {
    if n < 0x80 {
        1
    } else if n < 0x4000 {
        2
    } else if n < 0x20_0000 {
        3
    } else if n < 0x1000_0000 {
        4
    } else {
        5
    }
}

/// A word on the wire: its length prefix, then its bytes.
pub open spec fn word_bytes(w: Seq<u8>) -> Seq<u8> {
    len_prefix(w.len()) + w
}

/// A sentence on the wire: each word in turn, then the empty word.
pub open spec fn sentence_bytes(words: Seq<Seq<u8>>) -> Seq<u8>
    decreases words.len(),
{
    if words.len() == 0 {
        seq![0u8]
    } else {
        word_bytes(words[0]) + sentence_bytes(words.skip(1))
    }
}

/// Encodes a word length in the shortest form of the prefix table.
pub fn encode_len(len: u32) -> (r: Vec<u8>)
    ensures
        r@ == len_prefix(len as nat),
        r@.len() == prefix_width(len as nat),
{
    let mut res: Vec<u8> = Vec::new();
    if len < 0x80 {
        res.push(len as u8);
    } else if len < 0x4000 {
        res.push((0x80 + len / 0x100) as u8);
        res.push((len % 0x100) as u8);
    } else if len < 0x20_0000 {
        res.push((0xC0 + len / 0x1_0000) as u8);
        res.push(((len / 0x100) % 0x100) as u8);
        res.push((len % 0x100) as u8);
    } else if len < 0x1000_0000 {
        res.push((0xE0 + len / 0x100_0000) as u8);
        res.push(((len / 0x1_0000) % 0x100) as u8);
        res.push(((len / 0x100) % 0x100) as u8);
        res.push((len % 0x100) as u8);
    } else {
        res.push(0xF0);
        res.push(((len / 0x100_0000) % 0x100) as u8);
        res.push(((len / 0x1_0000) % 0x100) as u8);
        res.push(((len / 0x100) % 0x100) as u8);
        res.push((len % 0x100) as u8);
    }
    assert(res@ =~= len_prefix(len as nat));
    res
}

/// Appends the bytes of `src` to `dst`.
fn append_bytes(dst: &mut Vec<u8>, src: &[u8])
    ensures
        final(dst)@ == old(dst)@ + src@,
{
    let mut i: usize = 0;
    while i < src.len()
        invariant
            i <= src@.len(),
            dst@ == old(dst)@ + src@.subrange(0, i as int),
        decreases src@.len() - i,
    {
        dst.push(src[i]);
        i = i + 1;
        assert(src@.subrange(0, i as int) =~= src@.subrange(0, i - 1) + seq![src@[i - 1]]);
    }
    assert(src@.subrange(0, src@.len() as int) =~= src@);
}

/// Encodes one word: its length prefix, then its bytes.
pub fn encode_word(word: &[u8]) -> (r: Vec<u8>)
    requires
        word@.len() <= MAX_WORD_LEN,
    ensures
        r@ == word_bytes(word@),
{
    let mut res = encode_len(word.len() as u32);
    append_bytes(&mut res, word);
    res
}

/// Encodes a sentence: each word in turn, closed by the empty word.
pub fn encode_sentence(words: &[Vec<u8>]) -> (r: Vec<u8>)
    requires
        forall|i: int| 0 <= i < words@.len() ==> (#[trigger] words@[i])@.len() <= MAX_WORD_LEN,
    ensures
        r@ == sentence_bytes(words@.map_values(|w: Vec<u8>| w@)),
{
    let ghost views = words@.map_values(|w: Vec<u8>| w@);
    let mut res: Vec<u8> = Vec::new();
    let mut i: usize = 0;
    assert(views.skip(0) =~= views);
    assert(res@ + sentence_bytes(views.skip(0)) =~= sentence_bytes(views));
    while i < words.len()
        invariant
            i <= words@.len(),
            views == words@.map_values(|w: Vec<u8>| w@),
            forall|j: int| 0 <= j < words@.len() ==> (#[trigger] words@[j])@.len() <= MAX_WORD_LEN,
            res@ + sentence_bytes(views.skip(i as int)) == sentence_bytes(views),
        decreases words@.len() - i,
    {
        let mut encoded = encode_word(words[i].as_slice());
        assert(views.skip(i as int).skip(1) =~= views.skip(i + 1));
        assert(views.skip(i as int)[0] == words@[i as int]@);
        res.append(&mut encoded);
        assert(res@ + sentence_bytes(views.skip(i + 1)) =~= sentence_bytes(views));
        i = i + 1;
    }
    assert(views.skip(i as int).len() == 0);
    res.push(0u8);
    assert(res@ =~= sentence_bytes(views));
    res
}

/// The prefix of `n` starts a byte sequence that decodes back to `n`.
proof fn lemma_len_prefix_parses(n: nat, s: Seq<u8>)
    requires
        n <= MAX_WORD_LEN,
        s.len() >= prefix_width(n),
        s.subrange(0, prefix_width(n) as int) == len_prefix(n),
    ensures
        parse_len(s) == Parsed::Complete(n, prefix_width(n)),
        len_prefix(n).len() == prefix_width(n),
{
    let p = len_prefix(n);
    assert(s[0] == s.subrange(0, prefix_width(n) as int)[0]);
    if n >= 0x80 {
        assert(s[1] == s.subrange(0, prefix_width(n) as int)[1]);
    }
    if n >= 0x4000 {
        assert(s[2] == s.subrange(0, prefix_width(n) as int)[2]);
    }
    if n >= 0x20_0000 {
        assert(s[3] == s.subrange(0, prefix_width(n) as int)[3]);
    }
    if n >= 0x1000_0000 {
        assert(s[4] == s.subrange(0, prefix_width(n) as int)[4]);
    }
}

/// A strict beginning of the prefix of `n` is incomplete.
proof fn lemma_len_prefix_cut(n: nat, s: Seq<u8>)
    requires
        n <= MAX_WORD_LEN,
        s.len() < prefix_width(n),
        s == len_prefix(n).subrange(0, s.len() as int),
    ensures
        parse_len(s) == Parsed::<nat>::Incomplete,
{
    if s.len() > 0 {
        assert(s[0] == len_prefix(n)[0]);
    }
}

/// The encoder's prefix is the shortest: any valid prefix that decodes to
/// `n` takes at least as many bytes.
pub proof fn lemma_prefix_is_shortest(s: Seq<u8>, n: nat, w: nat)
    requires
        parse_len(s) == Parsed::Complete(n, w),
    ensures
        prefix_width(n) <= w,
{
}

/// Decoding an encoded word gives the word back, followed by whatever comes
/// after it; its prefix takes the width of the shortest form.
pub proof fn lemma_word_round_trip(w: Seq<u8>, rest: Seq<u8>, max: nat)
    requires
        w.len() <= max,
        w.len() <= MAX_WORD_LEN,
    ensures
        parse_word(word_bytes(w) + rest, max) == Parsed::Complete(w, word_bytes(w).len()),
        word_bytes(w).len() == prefix_width(w.len()) + w.len(),
{
    let s = word_bytes(w) + rest;
    let k = prefix_width(w.len());
    assert(s.subrange(0, k as int) =~= len_prefix(w.len()));
    lemma_len_prefix_parses(w.len(), s);
    assert(s.subrange(k as int, (k + w.len()) as int) =~= w);
}

/// Decoding an encoded sentence gives its words back and consumes all of it,
/// for any list of non-empty words (an empty word would end the sentence).
pub proof fn lemma_sentence_round_trip(words: Seq<Seq<u8>>, max: nat)
    requires
        forall|i: int|
            0 <= i < words.len() ==> 0 < (#[trigger] words[i]).len() <= max && words[i].len()
                <= MAX_WORD_LEN,
    ensures
        parse_sentence(sentence_bytes(words), max) == Parsed::Complete(
            words,
            sentence_bytes(words).len(),
        ),
    decreases words.len(),
{
    let s = sentence_bytes(words);
    if words.len() == 0 {
        assert(s == seq![0u8]);
        assert(parse_len(s) == Parsed::Complete(0nat, 1nat));
        assert(s.subrange(1, 1) =~= Seq::<u8>::empty());
        assert(parse_word(s, max) == Parsed::Complete(Seq::<u8>::empty(), 1nat));
        assert(words =~= Seq::<Seq<u8>>::empty());
    } else {
        let w = words[0];
        let tail = words.skip(1);
        assert forall|i: int| 0 <= i < tail.len() implies 0 < (#[trigger] tail[i]).len() <= max
            && tail[i].len() <= MAX_WORD_LEN by {
            assert(tail[i] == words[i + 1]);
        }
        lemma_sentence_round_trip(tail, max);
        lemma_word_round_trip(w, sentence_bytes(tail), max);
        let k = word_bytes(w).len();
        assert(s == word_bytes(w) + sentence_bytes(tail));
        assert(parse_word(s, max) == Parsed::Complete(w, k));
        assert(s.skip(k as int) =~= sentence_bytes(tail));
        assert(seq![w] + tail =~= words);
        assert(s.len() == k + sentence_bytes(tail).len());
        assert(parse_sentence(s.skip(k as int), max) == Parsed::Complete(
            tail,
            sentence_bytes(tail).len(),
        ));
    }
}

/// Every strict beginning of an encoded sentence of non-empty words decodes
/// as incomplete.
pub proof fn lemma_sentence_prefix_incomplete(words: Seq<Seq<u8>>, max: nat, n: nat)
    requires
        forall|i: int|
            0 <= i < words.len() ==> 0 < (#[trigger] words[i]).len() <= max && words[i].len()
                <= MAX_WORD_LEN,
        n < sentence_bytes(words).len(),
    ensures
        parse_sentence(sentence_bytes(words).subrange(0, n as int), max) == Parsed::<
            Seq<Seq<u8>>,
        >::Incomplete,
    decreases words.len(),
{
    let s = sentence_bytes(words);
    let cut = s.subrange(0, n as int);
    if words.len() == 0 {
        assert(cut.len() == 0);
    } else {
        let w = words[0];
        let tail = words.skip(1);
        let width = prefix_width(w.len());
        let k = width + w.len();
        lemma_word_round_trip(w, sentence_bytes(tail), max);
        if n < width {
            assert(cut =~= len_prefix(w.len()).subrange(0, n as int));
            lemma_len_prefix_cut(w.len(), cut);
        } else {
            assert(cut.subrange(0, width as int) =~= len_prefix(w.len()));
            lemma_len_prefix_parses(w.len(), cut);
            if n >= k {
                assert(cut.subrange(width as int, k as int) =~= w);
                assert forall|i: int| 0 <= i < tail.len() implies 0 < (#[trigger] tail[i]).len()
                    <= max && tail[i].len() <= MAX_WORD_LEN by {
                    assert(tail[i] == words[i + 1]);
                }
                assert(cut.skip(k as int) =~= sentence_bytes(tail).subrange(0, n - k));
                lemma_sentence_prefix_incomplete(tail, max, (n - k) as nat);
            }
        }
    }
}

} // verus!
