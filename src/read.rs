//! Incremental decoding of words and sentences from a byte buffer.
use vstd::prelude::*;

use crate::codec::MAX_WORD_LEN;
use crate::error::Error;

verus! {

/// Outcome of decoding a value from the front of a byte sequence.
pub ghost enum Parsed<T> {
    /// The value, and how many bytes it took.
    Complete(T, nat),
    /// The bytes end before the value does.
    Incomplete,
    /// The bytes cannot start a value.
    Malformed,
}

/// The views of a list of words.
pub open spec fn words_view(words: Seq<Vec<u8>>) -> Seq<Seq<u8>> {
    words.map_values(|w: Vec<u8>| w@)
}

/// Decodes a length prefix in any of its valid forms.
pub open spec fn parse_len(s: Seq<u8>) -> Parsed<nat> {
    if s.len() == 0 {
        Parsed::Incomplete
    } else if s[0] < 0x80 {
        Parsed::Complete(s[0] as nat, 1)
    } else if s[0] < 0xC0 {
        if s.len() < 2 {
            Parsed::Incomplete
        } else {
            Parsed::Complete(((s[0] - 0x80) * 0x100 + s[1]) as nat, 2)
        }
    } else if s[0] < 0xE0 {
        if s.len() < 3 {
            Parsed::Incomplete
        } else {
            Parsed::Complete(((s[0] - 0xC0) * 0x1_0000 + s[1] * 0x100 + s[2]) as nat, 3)
        }
    } else if s[0] < 0xF0 {
        if s.len() < 4 {
            Parsed::Incomplete
        } else {
            Parsed::Complete(
                ((s[0] - 0xE0) * 0x100_0000 + s[1] * 0x1_0000 + s[2] * 0x100 + s[3]) as nat,
                4,
            )
        }
    } else if s[0] == 0xF0 {
        if s.len() < 5 {
            Parsed::Incomplete
        } else {
            Parsed::Complete(
                (s[1] * 0x100_0000 + s[2] * 0x1_0000 + s[3] * 0x100 + s[4]) as nat,
                5,
            )
        }
    } else {
        Parsed::Malformed
    }
}

/// Decodes one word whose length is at most `max`.
pub open spec fn parse_word(s: Seq<u8>, max: nat) -> Parsed<Seq<u8>> {
    match parse_len(s) {
        Parsed::Complete(n, w) => {
            if n > max {
                Parsed::Malformed
            } else if s.len() < w + n {
                Parsed::Incomplete
            } else {
                Parsed::Complete(s.subrange(w as int, (w + n) as int), w + n)
            }
        },
        Parsed::Incomplete => Parsed::Incomplete,
        Parsed::Malformed => Parsed::Malformed,
    }
}

/// Decodes the words of one sentence, up to and including its empty
/// terminating word; the terminator is not part of the list.
pub open spec fn parse_sentence(s: Seq<u8>, max: nat) -> Parsed<Seq<Seq<u8>>>
    decreases s.len(),
{
    match parse_word(s, max) {
        Parsed::Complete(w, k) => {
            if w.len() == 0 {
                Parsed::Complete(Seq::empty(), k)
            } else if 0 < k <= s.len() {
                match parse_sentence(s.skip(k as int), max) {
                    Parsed::Complete(ws, k2) => Parsed::Complete(seq![w] + ws, k + k2),
                    Parsed::Incomplete => Parsed::Incomplete,
                    Parsed::Malformed => Parsed::Malformed,
                }
            } else {
                Parsed::Malformed
            }
        },
        Parsed::Incomplete => Parsed::Incomplete,
        Parsed::Malformed => Parsed::Malformed,
    }
}

/// A read position in a byte buffer, with the largest word length it accepts.
pub struct ApiDeserializer<'de> {
    buffer: &'de [u8],
    position: usize,
    max_word_len: u32,
}

impl<'de> ApiDeserializer<'de> {
    /// All the bytes of the buffer.
    pub closed spec fn data(&self) -> Seq<u8> {
        self.buffer@
    }

    /// How many bytes have been consumed.
    pub closed spec fn pos(&self) -> nat {
        self.position as nat
    }

    /// The largest word length this cursor accepts.
    pub closed spec fn max_len(&self) -> nat {
        self.max_word_len as nat
    }

    pub closed spec fn wf(&self) -> bool {
        self.position <= self.buffer@.len()
    }

    /// The bytes not consumed yet.
    pub open spec fn rest(&self) -> Seq<u8> {
        self.data().skip(self.pos() as int)
    }

    /// A cursor at the start of `buffer`, accepting words of any length.
    pub fn new(buffer: &'de [u8]) -> (r: Self)
        ensures
            r.wf(),
            r.data() == buffer@,
            r.pos() == 0,
            r.max_len() == MAX_WORD_LEN,
    {
        ApiDeserializer { buffer, position: 0, max_word_len: 0xFFFF_FFFF }
    }

    /// A cursor at the start of `buffer` that refuses words longer than `max_word_len`.
    pub fn with_max_word_len(buffer: &'de [u8], max_word_len: u32) -> (r: Self)
        ensures
            r.wf(),
            r.data() == buffer@,
            r.pos() == 0,
            r.max_len() == max_word_len,
    {
        ApiDeserializer { buffer, position: 0, max_word_len }
    }

    /// The whole underlying buffer.
    pub fn inner(&self) -> (r: &'de [u8])
        ensures
            r@ == self.data(),
    {
        self.buffer
    }

    /// How many bytes have been consumed.
    pub fn position(&self) -> (r: usize)
        ensures
            r == self.pos(),
    {
        self.position
    }
}

/// Takes the next byte, if there is one.
pub fn get_byte(cursor: &mut ApiDeserializer) -> (r: Option<u8>)
    requires
        old(cursor).wf(),
    ensures
        final(cursor).wf(),
        final(cursor).data() == old(cursor).data(),
        final(cursor).max_len() == old(cursor).max_len(),
        old(cursor).rest().len() == 0 ==> r is None && final(cursor).pos() == old(cursor).pos(),
        old(cursor).rest().len() > 0 ==> r == Some(old(cursor).rest()[0]) && final(cursor).pos()
            == old(cursor).pos() + 1,
{
    if cursor.position < cursor.buffer.len() {
        let b = cursor.buffer[cursor.position];
        cursor.position = cursor.position + 1;
        Some(b)
    } else {
        None
    }
}

/// Reads a length prefix. On success the cursor moves past it; on error it
/// stays where it was.
pub fn read_len(cursor: &mut ApiDeserializer) -> (r: Result<u32, Error>)
    requires
        old(cursor).wf(),
    ensures
        final(cursor).wf(),
        final(cursor).data() == old(cursor).data(),
        final(cursor).max_len() == old(cursor).max_len(),
        match parse_len(old(cursor).rest()) {
            Parsed::Complete(n, w) => r matches Ok(v) && v as nat == n && final(cursor).pos()
                == old(cursor).pos() + w,
            Parsed::Incomplete => r matches Err(Error::Incomplete) && final(cursor).pos() == old(cursor).pos(),
            Parsed::Malformed => r matches Err(Error::Framing) && final(cursor).pos() == old(cursor).pos(),
        },
{
    let start = cursor.position;
    let ghost s = cursor.rest();
    let first = match get_byte(cursor) {
        Some(b) => b,
        None => {
            return Err(Error::Incomplete);
        },
    };
    if first < 0x80 {
        return Ok(first as u32);
    }
    if first > 0xF0 {
        cursor.position = start;
        return Err(Error::Framing);
    }
    let need: usize = if first < 0xC0 {
        1
    } else if first < 0xE0 {
        2
    } else if first < 0xF0 {
        3
    } else {
        4
    };
    if cursor.buffer.len() - cursor.position < need {
        cursor.position = start;
        return Err(Error::Incomplete);
    }
    let p = cursor.position;
    let buf = cursor.buffer;
    assert(s[1] == buf@[p as int]);
    let value: u32 = if first < 0xC0 {
        (first - 0x80) as u32 * 0x100 + buf[p] as u32
    } else if first < 0xE0 {
        assert(s[2] == buf@[p + 1]);
        (first - 0xC0) as u32 * 0x1_0000 + buf[p] as u32 * 0x100 + buf[p + 1] as u32
    } else if first < 0xF0 {
        assert(s[2] == buf@[p + 1]);
        assert(s[3] == buf@[p + 2]);
        (first - 0xE0) as u32 * 0x100_0000 + buf[p] as u32 * 0x1_0000 + buf[p + 1] as u32 * 0x100
            + buf[p + 2] as u32
    } else {
        assert(s[2] == buf@[p + 1]);
        assert(s[3] == buf@[p + 2]);
        assert(s[4] == buf@[p + 3]);
        buf[p] as u32 * 0x100_0000 + buf[p + 1] as u32 * 0x1_0000 + buf[p + 2] as u32 * 0x100
            + buf[p + 3] as u32
    };
    cursor.position = p + need;
    Ok(value)
}

/// Takes the next `len` bytes. On `Incomplete` the cursor does not move.
pub fn read_bytes(cursor: &mut ApiDeserializer, len: u32) -> (r: Result<Vec<u8>, Error>)
    requires
        old(cursor).wf(),
    ensures
        final(cursor).wf(),
        final(cursor).data() == old(cursor).data(),
        final(cursor).max_len() == old(cursor).max_len(),
        len > old(cursor).rest().len() ==> (r matches Err(Error::Incomplete) && final(cursor).pos()
            == old(cursor).pos()),
        len <= old(cursor).rest().len() ==> (r matches Ok(b) && b@ == old(cursor).rest().subrange(
            0,
            len as int,
        ) && final(cursor).pos() == old(cursor).pos() + len),
{
    let start = cursor.position;
    if (len as usize) > cursor.buffer.len() - start {
        return Err(Error::Incomplete);
    }
    let end = start + len as usize;
    let mut out: Vec<u8> = Vec::with_capacity(len as usize);
    let mut i = start;
    while i < end
        invariant
            start <= i <= end,
            end <= cursor.buffer@.len(),
            out@ == cursor.buffer@.subrange(start as int, i as int),
        decreases end - i,
    {
        out.push(cursor.buffer[i]);
        i = i + 1;
        assert(out@ =~= cursor.buffer@.subrange(start as int, i as int));
    }
    cursor.position = end;
    assert(out@ =~= old(cursor).rest().subrange(0, len as int));
    Ok(out)
}

/// Reads one word. On error the cursor does not move.
pub fn read_word(cursor: &mut ApiDeserializer) -> (r: Result<Vec<u8>, Error>)
    requires
        old(cursor).wf(),
    ensures
        final(cursor).wf(),
        final(cursor).data() == old(cursor).data(),
        final(cursor).max_len() == old(cursor).max_len(),
        match parse_word(old(cursor).rest(), old(cursor).max_len()) {
            Parsed::Complete(w, k) => r matches Ok(v) && v@ == w && final(cursor).pos() == old(cursor).pos() + k,
            Parsed::Incomplete => r matches Err(Error::Incomplete) && final(cursor).pos() == old(cursor).pos(),
            Parsed::Malformed => r matches Err(Error::Framing) && final(cursor).pos() == old(cursor).pos(),
        },
{
    let start = cursor.position;
    let ghost s = cursor.rest();
    let len = match read_len(cursor) {
        Ok(n) => n,
        Err(e) => {
            return Err(e);
        },
    };
    if len > cursor.max_word_len {
        cursor.position = start;
        return Err(Error::Framing);
    }
    let ghost w = (cursor.pos() - old(cursor).pos()) as int;
    assert(cursor.rest() =~= s.skip(w));
    match read_bytes(cursor, len) {
        Ok(b) => {
            assert(b@ =~= s.subrange(w, w + len));
            Ok(b)
        },
        Err(e) => {
            cursor.position = start;
            Err(e)
        },
    }
}

/// What a sentence decodes to when `prefix` (taking `used` bytes) has
/// already been read and `p` is the outcome of decoding the rest.
pub open spec fn after_words(prefix: Seq<Seq<u8>>, used: nat, p: Parsed<Seq<Seq<u8>>>) -> Parsed<
    Seq<Seq<u8>>,
> {
    match p {
        Parsed::Complete(ws, k) => Parsed::Complete(prefix + ws, used + k),
        Parsed::Incomplete => Parsed::Incomplete,
        Parsed::Malformed => Parsed::Malformed,
    }
}

/// Reads the words of one sentence, consuming its terminating empty word,
/// which is not returned. On error the cursor does not move.
pub fn read_sentence(cursor: &mut ApiDeserializer) -> (r: Result<Vec<Vec<u8>>, Error>)
    requires
        old(cursor).wf(),
    ensures
        final(cursor).wf(),
        final(cursor).data() == old(cursor).data(),
        final(cursor).max_len() == old(cursor).max_len(),
        match parse_sentence(old(cursor).rest(), old(cursor).max_len()) {
            Parsed::Complete(ws, k) => r matches Ok(v) && words_view(v@) == ws && final(cursor).pos() == old(cursor).pos() + k,
            Parsed::Incomplete => r matches Err(Error::Incomplete) && final(cursor).pos() == old(cursor).pos(),
            Parsed::Malformed => r matches Err(Error::Framing) && final(cursor).pos() == old(cursor).pos(),
        },
{
    let start = cursor.position;
    let ghost s = cursor.rest();
    let ghost max = cursor.max_len();
    let mut sentence: Vec<Vec<u8>> = Vec::new();
    assert(after_words(Seq::empty(), 0, parse_sentence(s, max)) == parse_sentence(s, max)) by {
        match parse_sentence(s, max) {
            Parsed::Complete(ws, k) => assert(Seq::<Seq<u8>>::empty() + ws =~= ws),
            _ => {},
        }
    }
    loop
        invariant
            cursor.wf(),
            cursor.data() == old(cursor).data(),
            cursor.max_len() == max,
            max == old(cursor).max_len(),
            s == old(cursor).rest(),
            start == old(cursor).pos(),
            start <= cursor.pos(),
            cursor.rest() == s.skip(cursor.pos() - start),
            parse_sentence(s, max) == after_words(
                words_view(sentence@),
                (cursor.pos() - start) as nat,
                parse_sentence(cursor.rest(), max),
            ),
        decreases cursor.rest().len(),
    {
        let ghost before = cursor.rest();
        let ghost used = (cursor.pos() - start) as nat;
        let ghost prev = sentence@;
        match read_word(cursor) {
            Ok(word) => {
                let ghost k = (cursor.pos() - start - used) as nat;
                if word.len() == 0 {
                    assert(parse_sentence(before, max) == Parsed::Complete(Seq::<Seq<u8>>::empty(), k));
                    assert(words_view(sentence@) + Seq::<Seq<u8>>::empty() =~= words_view(sentence@));
                    return Ok(sentence);
                }
                assert(cursor.rest() =~= before.skip(k as int));
                sentence.push(word);
                assert(words_view(sentence@) =~= words_view(prev) + seq![word@]);
                assert(cursor.rest() =~= s.skip(cursor.pos() - start));
                proof {
                    match parse_sentence(cursor.rest(), max) {
                        Parsed::Complete(ws, k2) => {
                            assert(words_view(prev) + (seq![word@] + ws) =~= words_view(sentence@)
                                + ws);
                        },
                        _ => {},
                    }
                }
            },
            Err(e) => {
                cursor.position = start;
                return Err(e);
            },
        }
    }
}

/// Decodes one sentence from the front of `buffer`, refusing words longer
/// than `max_word_len`. Gives the words and the number of bytes they took.
pub fn decode_sentence(buffer: &[u8], max_word_len: u32) -> (r: Result<(Vec<Vec<u8>>, usize), Error>)
    ensures
        match parse_sentence(buffer@, max_word_len as nat) {
            Parsed::Complete(ws, k) => r matches Ok((v, n)) && words_view(v@) == ws && n == k,
            Parsed::Incomplete => r matches Err(Error::Incomplete),
            Parsed::Malformed => r matches Err(Error::Framing),
        },
{
    let mut cursor = ApiDeserializer::with_max_word_len(buffer, max_word_len);
    assert(cursor.rest() =~= buffer@);
    match read_sentence(&mut cursor) {
        Ok(words) => Ok((words, cursor.position())),
        Err(e) => Err(e),
    }
}

} // verus!
