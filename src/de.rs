//! Turning the words of one sentence into a reply value.
use vstd::prelude::*;
use vstd::slice::slice_subrange;
use vstd::string::StringSliceAdditionalSpecFns;

use crate::error::{DeserializerError, DeserializerErrorView};
use crate::fields::{
    bytes_equal, bytes_start_with, copy_bytes, decode_fields, parse_text, read_fields,
    starts_with, text_of, Attributes, Field, FieldKind, FieldValue, FieldView,
    Presence, pairs_view,
};
use crate::model::{category_of_code, Response, ResponseView, TrapCategory};
use crate::read::words_view;

verus! {

/// The reply kind that a sentence's first word announces.
#[derive(Debug, Clone, Copy, PartialEq, Eq, Structural)]
pub enum ReplyKind {
    /// `!done`
    Done,
    /// `!re`
    Reply,
    /// `!trap`
    Trap,
    /// `!fatal`
    Fatal,
}

/// The reply kind that `w` names, if any.
pub open spec fn reply_kind(w: Seq<u8>) -> Option<ReplyKind> {
    if w == "!done".spec_bytes() {
        Some(ReplyKind::Done)
    } else if w == "!re".spec_bytes() {
        Some(ReplyKind::Reply)
    } else if w == "!trap".spec_bytes() {
        Some(ReplyKind::Trap)
    } else if w == "!fatal".spec_bytes() {
        Some(ReplyKind::Fatal)
    } else {
        None
    }
}

/// Reads the reply kind that `w` names.
pub fn reply_kind_of(w: &[u8]) -> (r: Option<ReplyKind>)
    ensures
        r == reply_kind(w@),
{
    if bytes_equal(w, "!done".as_bytes()) {
        Some(ReplyKind::Done)
    } else if bytes_equal(w, "!re".as_bytes()) {
        Some(ReplyKind::Reply)
    } else if bytes_equal(w, "!trap".as_bytes()) {
        Some(ReplyKind::Trap)
    } else if bytes_equal(w, "!fatal".as_bytes()) {
        Some(ReplyKind::Fatal)
    } else {
        None
    }
}

/// A routing annotation: a word that starts with `.tag`.
pub open spec fn is_tag_word(w: Seq<u8>) -> bool {
    starts_with(w, ".tag".spec_bytes())
}

/// The words of `ws` that are not routing annotations, in order.
pub open spec fn strip_tags(ws: Seq<Seq<u8>>) -> Seq<Seq<u8>>
    decreases ws.len(),
{
    if ws.len() == 0 {
        Seq::empty()
    } else if is_tag_word(ws[0]) {
        strip_tags(ws.skip(1))
    } else {
        seq![ws[0]] + strip_tags(ws.skip(1))
    }
}

/// The first index at or after `i` that holds `=`, or the length of `w`.
pub open spec fn key_end(w: Seq<u8>, i: int) -> int
    decreases w.len() - i,
{
    if i >= w.len() {
        w.len() as int
    } else if w[i] == 0x3D {
        i
    } else {
        key_end(w, i + 1)
    }
}

/// Splits `=key=value` at the first `=` after the leading one.
pub open spec fn split_attribute(w: Seq<u8>) -> Option<(Seq<u8>, Seq<u8>)> {
    if w.len() > 0 && w[0] == 0x3D && key_end(w, 1) < w.len() {
        Some((w.subrange(1, key_end(w, 1)), w.subrange(key_end(w, 1) + 1, w.len() as int)))
    } else {
        None
    }
}

/// The attribute pairs of `ws`; a word that is not an attribute is the error.
pub open spec fn parse_attributes(ws: Seq<Seq<u8>>) -> Result<Seq<(Seq<u8>, Seq<u8>)>, Seq<u8>>
    decreases ws.len(),
{
    if ws.len() == 0 {
        Ok(Seq::empty())
    } else {
        match split_attribute(ws[0]) {
            None => Err(ws[0]),
            Some(p) => match parse_attributes(ws.skip(1)) {
                Ok(ps) => Ok(seq![p] + ps),
                Err(w) => Err(w),
            },
        }
    }
}

/// Whether `w` is an attribute word, that is, starts with `=`.
pub open spec fn is_attribute_word(w: Seq<u8>) -> bool {
    w.len() > 0 && w[0] == 0x3D
}

/// The first word of `ws` that is not an attribute word.
pub open spec fn first_plain(ws: Seq<Seq<u8>>) -> Option<Seq<u8>>
    decreases ws.len(),
{
    if ws.len() == 0 {
        None
    } else if is_attribute_word(ws[0]) {
        first_plain(ws.skip(1))
    } else {
        Some(ws[0])
    }
}

/// The fields of a `!trap` sentence: an optional category code, and a message.
pub open spec fn trap_schema() -> Seq<Field> {
    seq![
        Field { key: "category", kind: FieldKind::Unsigned(7), presence: Presence::Optional },
        Field { key: "message", kind: FieldKind::Text, presence: Presence::Required },
    ]
}

/// The reply value of a `!trap` sentence with attributes `attrs`.
pub open spec fn trap_response(attrs: Seq<(Seq<u8>, Seq<u8>)>) -> Result<
    ResponseView<Seq<(Seq<u8>, Seq<u8>)>>,
    DeserializerErrorView,
> {
    match decode_fields(attrs, trap_schema()) {
        Err(e) => Err(e),
        Ok(vs) => Ok(
            ResponseView::Trap(
                match vs[0] {
                    FieldView::Unsigned(n) => category_of_code(n),
                    _ => None,
                },
                match vs[1] {
                    FieldView::Text(t) => t,
                    _ => Seq::empty(),
                },
            ),
        ),
    }
}

/// The reply value that the words `ws` of one sentence stand for.
pub open spec fn sentence_response(ws: Seq<Seq<u8>>) -> Result<
    ResponseView<Seq<(Seq<u8>, Seq<u8>)>>,
    DeserializerErrorView,
> {
    if ws.len() == 0 {
        Err(DeserializerErrorView::MissingWord)
    } else {
        let body = strip_tags(ws.skip(1));
        match reply_kind(ws[0]) {
            None => Err(DeserializerErrorView::UnknownReplyKind(ws[0])),
            Some(ReplyKind::Done) => Ok(ResponseView::Done),
            Some(ReplyKind::Fatal) => match first_plain(body) {
                None => Err(DeserializerErrorView::MissingWord),
                Some(w) => match text_of(w) {
                    Some(t) => Ok(ResponseView::Fatal(t)),
                    None => Err(DeserializerErrorView::InvalidValue("message"@, w)),
                },
            },
            Some(kind) => match parse_attributes(body) {
                Err(w) => Err(DeserializerErrorView::MalformedAttribute(w)),
                Ok(attrs) => if kind == ReplyKind::Reply {
                    Ok(ResponseView::Reply(attrs))
                } else {
                    trap_response(attrs)
                },
            },
        }
    }
}

/// Reads the words of a sentence after its reply kind, passing over routing
/// annotations.
pub struct SentenceDeserializer<'de> {
    words: &'de [Vec<u8>],
    position: usize,
}

impl<'de> SentenceDeserializer<'de> {
    /// The words not read yet.
    pub closed spec fn rest(&self) -> Seq<Seq<u8>> {
        words_view(self.words@).skip(self.position as int)
    }

    pub closed spec fn wf(&self) -> bool {
        self.position <= self.words@.len()
    }

    /// A reader at the first of `words`.
    pub fn new(words: &'de [Vec<u8>]) -> (r: Self)
        ensures
            r.wf(),
            r.rest() == words_view(words@),
    {
        let r = SentenceDeserializer { words, position: 0 };
        assert(r.rest() =~= words_view(words@));
        r
    }

    /// The words not read yet.
    pub fn inner(&self) -> (r: &'de [Vec<u8>])
        requires
            self.wf(),
        ensures
            words_view(r@) == self.rest(),
    {
        let r = slice_subrange(self.words, self.position, self.words.len());
        assert(words_view(r@) =~= self.rest());
        r
    }

    /// The next word that is not a routing annotation.
    pub fn read_word(&mut self) -> (r: Option<&'de Vec<u8>>)
        requires
            old(self).wf(),
        ensures
            final(self).wf(),
            match r {
                None => strip_tags(old(self).rest()) == Seq::<Seq<u8>>::empty(),
                Some(w) => strip_tags(old(self).rest()) == seq![w@] + strip_tags(final(self).rest()),
            },
    {
        loop
            invariant
                self.wf(),
                self.words == old(self).words,
                strip_tags(old(self).rest()) == strip_tags(self.rest()),
            decreases self.words@.len() - self.position,
        {
            let ghost before = self.rest();
            if self.position >= self.words.len() {
                assert(before.len() == 0);
                return None;
            }
            let w = &self.words[self.position];
            self.position = self.position + 1;
            assert(before.skip(1) =~= self.rest());
            assert(before[0] == w@);
            if !bytes_start_with(w.as_slice(), ".tag".as_bytes()) {
                return Some(w);
            }
        }
    }
}

/// Reads up to the first remaining word that is neither a routing
/// annotation nor an attribute word.
pub fn read_plain_word<'de>(de: &mut SentenceDeserializer<'de>) -> (r: Option<&'de Vec<u8>>)
    requires
        old(de).wf(),
    ensures
        final(de).wf(),
        match first_plain(strip_tags(old(de).rest())) {
            Some(w) => r matches Some(x) && x@ == w,
            None => r is None,
        },
{
    loop
        invariant
            de.wf(),
            first_plain(strip_tags(old(de).rest())) == first_plain(strip_tags(de.rest())),
        decreases strip_tags(de.rest()).len(),
    {
        let ghost before = strip_tags(de.rest());
        match de.read_word() {
            None => {
                return None;
            },
            Some(w) => {
                assert(before[0] == w@);
                assert(before.skip(1) =~= strip_tags(de.rest()));
                if w.len() == 0 || w[0] != 0x3D {
                    return Some(w);
                }
            },
        }
    }
}

/// Splits an attribute word `=key=value` into its key and value.
pub fn word_part(w: &[u8]) -> (r: Option<(Vec<u8>, Vec<u8>)>)
    ensures
        match split_attribute(w@) {
            Some((k, v)) => r matches Some((a, b)) && a@ == k && b@ == v,
            None => r is None,
        },
{
    if w.len() == 0 || w[0] != 0x3D {
        return None;
    }
    let mut i: usize = 1;
    while i < w.len() && w[i] != 0x3D
        invariant
            1 <= i <= w@.len(),
            key_end(w@, 1) == key_end(w@, i as int),
        decreases w@.len() - i,
    {
        i = i + 1;
    }
    if i == w.len() {
        return None;
    }
    let key = copy_bytes(slice_subrange(w, 1, i));
    let value = copy_bytes(slice_subrange(w, i + 1, w.len()));
    Some((key, value))
}

/// What the attributes of a sentence decode to when `prefix` has already
/// been read and `p` is the outcome for the rest.
pub open spec fn after_pairs(
    prefix: Seq<(Seq<u8>, Seq<u8>)>,
    p: Result<Seq<(Seq<u8>, Seq<u8>)>, Seq<u8>>,
) -> Result<Seq<(Seq<u8>, Seq<u8>)>, Seq<u8>> {
    match p {
        Ok(ps) => Ok(prefix + ps),
        Err(w) => Err(w),
    }
}

/// Reads the remaining words as attributes.
pub fn read_attributes(de: &mut SentenceDeserializer) -> (r: Result<Attributes, DeserializerError>)
    requires
        old(de).wf(),
    ensures
        match parse_attributes(strip_tags(old(de).rest())) {
            Ok(ps) => r matches Ok(a) && a@ == ps,
            Err(w) => r matches Err(e) && e@ == DeserializerErrorView::MalformedAttribute(w),
        },
{
    let ghost all = strip_tags(de.rest());
    let mut pairs: Vec<(Vec<u8>, Vec<u8>)> = Vec::new();
    proof {
        match parse_attributes(all) {
            Ok(ps) => assert(pairs_view(pairs@) + ps =~= ps),
            Err(_) => {},
        }
    }
    loop
        invariant
            de.wf(),
            all == strip_tags(old(de).rest()),
            parse_attributes(all) == after_pairs(
                pairs_view(pairs@),
                parse_attributes(strip_tags(de.rest())),
            ),
        decreases strip_tags(de.rest()).len(),
    {
        let ghost before = strip_tags(de.rest());
        let ghost prev = pairs@;
        match de.read_word() {
            None => {
                assert(pairs_view(pairs@) + Seq::<(Seq<u8>, Seq<u8>)>::empty() =~= pairs_view(
                    pairs@,
                ));
                return Ok(Attributes::from_pairs(pairs));
            },
            Some(w) => {
                assert(before[0] == w@);
                assert(before.skip(1) =~= strip_tags(de.rest()));
                match word_part(w.as_slice()) {
                    None => {
                        return Err(DeserializerError::MalformedAttribute(copy_bytes(w.as_slice())));
                    },
                    Some(p) => {
                        let ghost pv = (p.0@, p.1@);
                        pairs.push(p);
                        assert(pairs_view(pairs@) =~= pairs_view(prev).push(pv));
                        proof {
                            match parse_attributes(strip_tags(de.rest())) {
                                Ok(ps) => {
                                    assert(pairs_view(prev) + (seq![pv] + ps) =~= pairs_view(
                                        pairs@,
                                    ) + ps);
                                },
                                Err(_) => {},
                            }
                        }
                    },
                }
            },
        }
    }
}

/// The fields of a `!trap` sentence.
fn trap_fields() -> (r: Vec<Field>)
    ensures
        r@ == trap_schema(),
{
    let r = vec![
        Field { key: "category", kind: FieldKind::Unsigned(7), presence: Presence::Optional },
        Field { key: "message", kind: FieldKind::Text, presence: Presence::Required },
    ];
    assert(r@ =~= trap_schema());
    r
}

/// Decodes the words of one sentence (without its terminator) into a reply
/// whose payload is the sentence's attributes.
pub fn deserialize_sentence(words: &[Vec<u8>]) -> (r: Result<Response<Attributes>, DeserializerError>)
    ensures
        match sentence_response(words_view(words@)) {
            Ok(v) => r matches Ok(x) && x@ == v,
            Err(e) => r matches Err(x) && x@ == e,
        },
{
    let ghost ws = words_view(words@);
    if words.len() == 0 {
        return Err(DeserializerError::MissingWord);
    }
    let kind = match reply_kind_of(words[0].as_slice()) {
        Some(k) => k,
        None => {
            return Err(DeserializerError::UnknownReplyKind(copy_bytes(words[0].as_slice())));
        },
    };
    let mut de = SentenceDeserializer::new(slice_subrange(words, 1, words.len()));
    assert(de.rest() =~= ws.skip(1));
    match kind {
        ReplyKind::Done => Ok(Response::Done),
        ReplyKind::Fatal => match read_plain_word(&mut de) {
            None => Err(DeserializerError::MissingWord),
            Some(w) => match parse_text(w.as_slice()) {
                Some(t) => Ok(Response::Fatal(t)),
                None => Err(
                    DeserializerError::InvalidValue {
                        key: "message".to_owned(),
                        value: copy_bytes(w.as_slice()),
                    },
                ),
            },
        },
        ReplyKind::Reply => match read_attributes(&mut de) {
            Ok(a) => Ok(Response::Reply(a)),
            Err(e) => Err(e),
        },
        ReplyKind::Trap => {
            let attrs = match read_attributes(&mut de) {
                Ok(a) => a,
                Err(e) => {
                    return Err(e);
                },
            };
            let schema = trap_fields();
            let mut vals = match read_fields(&attrs, &schema) {
                Ok(v) => v,
                Err(e) => {
                    return Err(e);
                },
            };
            proof {
                crate::fields::lemma_decoded_fields_fit(attrs@, schema@);
            }
            let message = match vals.pop() {
                Some(FieldValue::Text(t)) => t,
                _ => String::new(),
            };
            let category = match vals.pop() {
                Some(FieldValue::Unsigned(n)) => TrapCategory::from_code(n),
                _ => None,
            };
            Ok(Response::Trap { category, message })
        },
    }
}

} // verus!
