//! What the client facade decides: how commands are framed, which tag a
//! call gets, and what a finished call resolves to.
use vstd::prelude::*;
use vstd::string::StringSliceAdditionalSpecFns;

use rand::Rng;

use crate::call::Item;
use crate::codec::{encode_sentence, sentence_bytes, MAX_WORD_LEN};
use crate::error::{DeserializerError, Error};
use crate::fields::{copy_bytes, decimal_value, is_decimal, FromAttributes};
use crate::model::{decode_response, fold_responses, fold_spec, typed_response, Response};
use crate::read::words_view;
use crate::table::{is_fresh, CallKind, TagTable, MAX_TAG, MIN_TAG};

verus! {

/// The connection state of a client.
pub trait State {

}

/// API in disconnected state: socket is connected but user has not yet completed its authentification.
pub struct Disconnected;

/// API in authenticated state: user has access to the full api.
pub struct Authenticated;

impl State for Disconnected {

}

impl State for Authenticated {

}

/// The decimal digits of `n`, most significant first, without leading zeros.
pub open spec fn digits(n: nat) -> Seq<u8>
    decreases n,
{
    if n < 10 {
        seq![(0x30 + n) as u8]
    } else {
        digits(n / 10).push((0x30 + n % 10) as u8)
    }
}

/// The digits of `n` are a strict decimal that reads back as `n`.
pub proof fn lemma_digits_read_back(n: nat)
    ensures
        is_decimal(digits(n)),
        decimal_value(digits(n)) == n,
        digits(n).len() >= 1,
    decreases n,
{
    if n < 10 {
        let d = digits(n);
        assert(d.drop_last() =~= Seq::<u8>::empty());
        assert(decimal_value(d) == decimal_value(Seq::<u8>::empty()) * 10 + (d.last() - 0x30) as nat);
    } else {
        lemma_digits_read_back(n / 10);
        let d = digits(n);
        assert(d.drop_last() =~= digits(n / 10));
        assert(d.last() == (0x30 + n % 10) as u8);
        assert(decimal_value(d) == decimal_value(digits(n / 10)) * 10 + (d.last() - 0x30) as nat);
        assert((n / 10) * 10 + n % 10 == n);
        assert forall|i: int| 0 <= i < d.len() implies crate::fields::is_digit(#[trigger] d[i]) by {
            if i < d.len() - 1 {
                assert(d[i] == digits(n / 10)[i]);
            }
        }
    }
}

/// Writes the decimal digits of `n`.
pub fn write_digits(n: u16) -> (r: Vec<u8>)
    ensures
        r@ == digits(n as nat),
    decreases n,
{
    if n < 10 {
        let r = vec![(0x30 + n) as u8];
        assert(r@ =~= digits(n as nat));
        return r;
    }
    let mut r = write_digits(n / 10);
    r.push((0x30 + n % 10) as u8);
    r
}

/// The routing word `.tag=<digits>` of tag `t`.
pub open spec fn tag_word(t: nat) -> Seq<u8> {
    ".tag=".spec_bytes() + digits(t)
}

/// The routing word written for tag `t` is read back as `t`.
pub proof fn lemma_tag_word_read_back(t: u16)
    ensures
        crate::table::tag_of(tag_word(t as nat)) == Some(t as nat),
{
    let marker = ".tag=".spec_bytes();
    let w = tag_word(t as nat);
    lemma_digits_read_back(t as nat);
    assert(w.subrange(0, marker.len() as int) =~= marker);
    assert(w.skip(marker.len() as int) =~= digits(t as nat));
}

/// The word that carries attribute `(k, v)`: a query `?k` stands alone when
/// `v` is empty, else `?k=v`; a key starting with `.` or `=` is kept as it
/// is (`k=v`); any other key becomes `=k=v`.
pub open spec fn attribute_word(k: Seq<u8>, v: Seq<u8>) -> Seq<u8> {
    if k.len() > 0 && k[0] == 0x3F {
        if v.len() == 0 {
            k
        } else {
            k + seq![0x3Du8] + v
        }
    } else if k.len() > 0 && (k[0] == 0x2E || k[0] == 0x3D) {
        k + seq![0x3Du8] + v
    } else {
        seq![0x3Du8] + k + seq![0x3Du8] + v
    }
}

/// The words of a command: its path, its routing word, then one word per attribute.
pub open spec fn command_words(cmd: Seq<u8>, tag: nat, attrs: Seq<(Seq<u8>, Seq<u8>)>) -> Seq<Seq<u8>> {
    seq![cmd, tag_word(tag)] + attrs.map_values(|p: (Seq<u8>, Seq<u8>)| attribute_word(p.0, p.1))
}

/// The byte views of a list of attribute pairs.
pub open spec fn str_pairs_view(attrs: Seq<(&str, &str)>) -> Seq<(Seq<u8>, Seq<u8>)> {
    attrs.map_values(|p: (&str, &str)| (p.0.spec_bytes(), p.1.spec_bytes()))
}

/// Concatenates byte strings.
fn concat(parts: &[&[u8]]) -> (r: Vec<u8>)
    ensures
        r@ == parts@.fold_left(Seq::<u8>::empty(), |acc: Seq<u8>, p: &[u8]| acc + p@),
{
    let mut out: Vec<u8> = Vec::new();
    let mut i: usize = 0;
    while i < parts.len()
        invariant
            i <= parts@.len(),
            out@ == parts@.subrange(0, i as int).fold_left(
                Seq::<u8>::empty(),
                |acc: Seq<u8>, p: &[u8]| acc + p@,
            ),
        decreases parts@.len() - i,
    {
        let part = parts[i];
        let mut j: usize = 0;
        let ghost start = out@;
        while j < part.len()
            invariant
                j <= part@.len(),
                out@ == start + part@.subrange(0, j as int),
            decreases part@.len() - j,
        {
            out.push(part[j]);
            j = j + 1;
            assert(out@ =~= start + part@.subrange(0, j as int));
        }
        assert(part@.subrange(0, part@.len() as int) =~= part@);
        assert(parts@.subrange(0, i + 1).drop_last() =~= parts@.subrange(0, i as int));
        i = i + 1;
    }
    assert(parts@.subrange(0, parts@.len() as int) =~= parts@);
    out
}

/// Frames one attribute as a word.
pub fn write_attribute(k: &[u8], v: &[u8]) -> (r: Vec<u8>)
    ensures
        r@ == attribute_word(k@, v@),
{
    let eq: &[u8] = "=".as_bytes();
    proof {
        reveal_strlit("=");
        vstd::string::is_ascii_spec_bytes("=");
    }
    assert(eq@ =~= seq![0x3Du8]);
    let r = if k.len() > 0 && k[0] == 0x3F {
        if v.len() == 0 {
            concat(&[k])
        } else {
            concat(&[k, eq, v])
        }
    } else if k.len() > 0 && (k[0] == 0x2E || k[0] == 0x3D) {
        concat(&[k, eq, v])
    } else {
        concat(&[eq, k, eq, v])
    };
    proof {
        reveal_with_fuel(Seq::fold_left, 5);
    }
    assert(r@ =~= attribute_word(k@, v@));
    r
}

/// Writes the routing word of tag `t`.
pub fn write_tag_word(t: u16) -> (r: Vec<u8>)
    ensures
        r@ == tag_word(t as nat),
{
    let d = write_digits(t);
    let r = concat(&[".tag=".as_bytes(), d.as_slice()]);
    proof {
        reveal_with_fuel(Seq::fold_left, 3);
    }
    assert(r@ =~= tag_word(t as nat));
    r
}

/// The byte views of a list of byte-string pairs.
pub open spec fn byte_pairs_view(attrs: Seq<(Vec<u8>, Vec<u8>)>) -> Seq<(Seq<u8>, Seq<u8>)> {
    attrs.map_values(|p: (Vec<u8>, Vec<u8>)| (p.0@, p.1@))
}

/// Whether every word of `ws` fits the largest word length.
pub open spec fn words_fit(ws: Seq<Seq<u8>>) -> bool {
    forall|i: int| 0 <= i < ws.len() ==> (#[trigger] ws[i]).len() <= MAX_WORD_LEN
}

/// Encodes the command `cmd` under tag `tag` with attributes `attrs`;
/// refused with `Framing` when a word would exceed the largest word length.
pub fn encode_command(cmd: &[u8], tag: u16, attrs: &Vec<(Vec<u8>, Vec<u8>)>) -> (r: Result<
    Vec<u8>,
    Error,
>)
    ensures
        words_fit(command_words(cmd@, tag as nat, byte_pairs_view(attrs@))) ==> (r matches Ok(b) && b@ == sentence_bytes(command_words(cmd@, tag as nat, byte_pairs_view(attrs@)))),
        !words_fit(command_words(cmd@, tag as nat, byte_pairs_view(attrs@))) ==> (r matches Err(Error::Framing)),
{
    let ghost ws = command_words(cmd@, tag as nat, byte_pairs_view(attrs@));
    let mut words: Vec<Vec<u8>> = Vec::new();
    words.push(copy_bytes(cmd));
    words.push(write_tag_word(tag));
    assert(words_view(words@) =~= ws.subrange(0, 2));
    let mut i: usize = 0;
    while i < attrs.len()
        invariant
            i <= attrs@.len(),
            ws == command_words(cmd@, tag as nat, byte_pairs_view(attrs@)),
            words_view(words@) == ws.subrange(0, i + 2),
        decreases attrs@.len() - i,
    {
        let w = write_attribute(attrs[i].0.as_slice(), attrs[i].1.as_slice());
        assert(byte_pairs_view(attrs@)[i as int] == (attrs@[i as int].0@, attrs@[i as int].1@));
        assert(ws[i + 2] == attribute_word(attrs@[i as int].0@, attrs@[i as int].1@));
        let ghost prev = words@;
        let ghost wv = w@;
        words.push(w);
        assert(words_view(words@) =~= words_view(prev).push(wv));
        assert(ws.subrange(0, i + 3) =~= ws.subrange(0, i + 2).push(ws[i + 2]));
        assert(words_view(words@) =~= ws.subrange(0, i + 3));
        i = i + 1;
    }
    assert(words_view(words@) =~= ws);
    let mut j: usize = 0;
    while j < words.len()
        invariant
            j <= words@.len(),
            ws == command_words(cmd@, tag as nat, byte_pairs_view(attrs@)),
            words_view(words@) == ws,
            forall|k: int| 0 <= k < j ==> (#[trigger] ws[k]).len() <= MAX_WORD_LEN,
        decreases words@.len() - j,
    {
        if words[j].len() as u64 > MAX_WORD_LEN {
            assert(ws[j as int].len() > MAX_WORD_LEN);
            assert(!words_fit(ws));
            return Err(Error::Framing);
        }
        j = j + 1;
    }
    assert forall|k: int| 0 <= k < words@.len() implies (#[trigger] words@[k])@.len()
        <= MAX_WORD_LEN by {
        assert(ws[k] == words@[k]@);
    }
    let b = encode_sentence(words.as_slice());
    assert(words@.map_values(|w: Vec<u8>| w@) =~= ws);
    Ok(b)
}

/// Copies `&str` attribute pairs to byte strings.
pub fn attribute_bytes(attrs: &[(&str, &str)]) -> (r: Vec<(Vec<u8>, Vec<u8>)>)
    ensures
        byte_pairs_view(r@) == str_pairs_view(attrs@),
{
    let mut out: Vec<(Vec<u8>, Vec<u8>)> = Vec::new();
    let mut i: usize = 0;
    while i < attrs.len()
        invariant
            i <= attrs@.len(),
            byte_pairs_view(out@) == str_pairs_view(attrs@).subrange(0, i as int),
        decreases attrs@.len() - i,
    {
        let (k, v) = attrs[i];
        let kb = copy_bytes(k.as_bytes());
        let vb = copy_bytes(v.as_bytes());
        assert(str_pairs_view(attrs@)[i as int] == (k.spec_bytes(), v.spec_bytes()));
        let ghost prev = out@;
        out.push((kb, vb));
        assert(byte_pairs_view(out@) =~= byte_pairs_view(prev).push((k.spec_bytes(), v.spec_bytes())));
        assert(byte_pairs_view(out@) =~= str_pairs_view(attrs@).subrange(0, i + 1));
        i = i + 1;
    }
    assert(str_pairs_view(attrs@).subrange(0, attrs@.len() as int) =~= str_pairs_view(attrs@));
    out
}

/// Encodes a command given as text, under tag `tag`.
pub fn encode_text_command(command: &str, tag: u16, attributes: &[(&str, &str)]) -> (r: Result<
    Vec<u8>,
    Error,
>)
    ensures
        words_fit(command_words(command.spec_bytes(), tag as nat, str_pairs_view(attributes@))) ==> (r matches Ok(b) && b@ == sentence_bytes(command_words(command.spec_bytes(), tag as nat, str_pairs_view(attributes@)))),
        !words_fit(command_words(command.spec_bytes(), tag as nat, str_pairs_view(attributes@))) ==> (r matches Err(Error::Framing)),
{
    let attrs = attribute_bytes(attributes);
    encode_command(command.as_bytes(), tag, &attrs)
}

/// The `/login` command for `login` and `password`, under tag `tag`.
pub fn login_command(tag: u16, login: &str, password: &str) -> (r: Result<Vec<u8>, Error>)
    ensures
        words_fit(command_words(
                "/login".spec_bytes(),
                tag as nat,
                seq![
                    ("name".spec_bytes(), login.spec_bytes()),
                    ("password".spec_bytes(), password.spec_bytes()),
                ],
            )) ==> (r matches Ok(b) && b@ == sentence_bytes(command_words(
                "/login".spec_bytes(),
                tag as nat,
                seq![
                    ("name".spec_bytes(), login.spec_bytes()),
                    ("password".spec_bytes(), password.spec_bytes()),
                ],
            ))),
        !words_fit(command_words(
                "/login".spec_bytes(),
                tag as nat,
                seq![
                    ("name".spec_bytes(), login.spec_bytes()),
                    ("password".spec_bytes(), password.spec_bytes()),
                ],
            )) ==> (r matches Err(Error::Framing)),
{
    let attrs = vec![
        (copy_bytes("name".as_bytes()), copy_bytes(login.as_bytes())),
        (copy_bytes("password".as_bytes()), copy_bytes(password.as_bytes())),
    ];
    assert(byte_pairs_view(attrs@) =~= seq![
        ("name".spec_bytes(), login.spec_bytes()),
        ("password".spec_bytes(), password.spec_bytes()),
    ]);
    encode_command("/login".as_bytes(), tag, &attrs)
}

/// The `/cancel` command for the call with tag `target`, sent under tag `tag`.
pub fn cancel_command(tag: u16, target: u16) -> (r: Vec<u8>)
    ensures
        r@ == sentence_bytes(
            command_words(
                "/cancel".spec_bytes(),
                tag as nat,
                seq![("tag".spec_bytes(), digits(target as nat))],
            ),
        ),
{
    let attrs = vec![(copy_bytes("tag".as_bytes()), write_digits(target))];
    assert(byte_pairs_view(attrs@) =~= seq![("tag".spec_bytes(), digits(target as nat))]);
    let ghost ws = command_words(
        "/cancel".spec_bytes(),
        tag as nat,
        seq![("tag".spec_bytes(), digits(target as nat))],
    );
    proof {
        reveal_strlit("/cancel");
        reveal_strlit("tag");
        reveal_strlit(".tag=");
        vstd::string::is_ascii_spec_bytes("/cancel");
        vstd::string::is_ascii_spec_bytes("tag");
        vstd::string::is_ascii_spec_bytes(".tag=");
        lemma_digits_short(tag as nat);
        lemma_digits_short(target as nat);
        assert(ws.len() == 3);
        assert forall|i: int| 0 <= i < ws.len() implies (#[trigger] ws[i]).len()
            <= MAX_WORD_LEN by {
            if i == 2 {
                assert(ws[2] == attribute_word("tag".spec_bytes(), digits(target as nat)));
            }
        }
    }
    match encode_command("/cancel".as_bytes(), tag, &attrs) {
        Ok(b) => b,
        Err(_) => Vec::new(),
    }
}

/// A number below 65536 has at most five digits.
proof fn lemma_digits_short(n: nat)
    requires
        n < 0x1_0000,
    ensures
        digits(n).len() <= 5,
{
    if n >= 10 {
        if n >= 100 {
            if n >= 1000 {
                if n >= 10000 {
                    assert(digits(n / 10000).len() == 1);
                }
                assert(digits(n / 1000).len() <= 2);
            }
            assert(digits(n / 100).len() <= 3);
        }
        assert(digits(n / 10).len() <= 4);
    }
}

/// Relies on rand's `thread_rng` and `gen_range`: a value drawn from the
/// half-open range `1..65535`.
#[verifier::external_body]
fn random_tag_start() -> (r: u16)
    ensures
        MIN_TAG <= r <= MAX_TAG,
{
    rand::thread_rng().gen_range(1..u16::MAX)
}

/// Registers a call of kind `kind` under a free tag found from a random start.
pub fn register_call(table: &mut TagTable, kind: CallKind) -> (r: Result<(u16, u64), Error>)
    requires
        old(table).wf(),
    ensures
        final(table).wf(),
        match r {
            Ok((t, id)) => MIN_TAG <= t <= MAX_TAG && !old(table).has_tag(t) && final(table).live().len()
                == old(table).live().len() + 1 && final(table).live().drop_last() == old(table).live()
                && final(table).live().last().tag == t && final(table).live().last().id == id
                && is_fresh(final(table).live().last().sink, kind) && final(table).finished() == old(table).finished(),
            Err(e) => e is NoFreeTag && final(table).live() == old(table).live() && final(table).finished()
                == old(table).finished() && ((forall|t: u16| MIN_TAG <= t <= MAX_TAG ==> old(table).has_tag(t))
                || old(table).next_id_spec() == u64::MAX),
        },
{
    let start = random_tag_start();
    table.register(kind, start)
}

/// What a login call resolves to: `!done` (or a reply) admits the session,
/// a trap refuses it, a fatal message or an undecodable reply fails it.
pub fn login_outcome(item: Item) -> (r: Result<(), Error>)
    ensures
        match item {
            Ok(Response::Done) => r is Ok,
            Ok(Response::Reply(_)) => r is Ok,
            Ok(Response::Trap { category, message }) => r matches Err(Error::Remote {
                category: c,
                message: m,
            }) && c == category && m == message,
            Ok(Response::Fatal(m)) => r matches Err(Error::Fatal(x)) && x == m,
            Err(e) => r matches Err(Error::Deserialize(x)) && x == e,
        },
{
    match item {
        Ok(Response::Done) => Ok(()),
        Ok(Response::Reply(_)) => Ok(()),
        Ok(Response::Trap { category, message }) => Err(Error::Remote { category, message }),
        Ok(Response::Fatal(m)) => Err(Error::Fatal(m)),
        Err(e) => Err(Error::Deserialize(e)),
    }
}

/// Whether `out` is `item` with its reply payload decoded as a `T`.
pub open spec fn item_typed<T: FromAttributes>(
    item: Item,
    out: Result<Response<T>, DeserializerError>,
) -> bool {
    match item {
        Ok(r) => typed_response(r, out),
        Err(e) => out == Err::<Response<T>, DeserializerError>(e),
    }
}

/// Decodes the payload of one delivered item as a `T`.
pub fn typed_item<T: FromAttributes>(item: Item) -> (r: Result<Response<T>, DeserializerError>)
    ensures
        item_typed(item, r),
{
    match item {
        Ok(resp) => decode_response(resp),
        Err(e) => Err(e),
    }
}

/// What a one-shot call resolves to: the decoded reply, or the error that
/// its trap, fatal message, decoding failure or missing reply gives.
pub fn one_shot_outcome<T: FromAttributes>(item: Item) -> (r: Result<T, Error>)
    ensures
        match item {
            Err(e) => r matches Err(Error::Deserialize(x)) && x == e,
            Ok(Response::Done) => r matches Err(Error::NoReply),
            Ok(Response::Trap { category, message }) => r matches Err(Error::Remote {
                category: c,
                message: m,
            }) && c == category && m == message,
            Ok(Response::Fatal(m)) => r matches Err(Error::Fatal(x)) && x == m,
            Ok(Response::Reply(a)) => match r {
                Ok(x) => T::decoded(a@, Ok(x)),
                Err(Error::Deserialize(e)) => T::decoded(a@, Err(e)),
                _ => false,
            },
        },
{
    match typed_item::<T>(item) {
        Ok(resp) => resp.into_result(),
        Err(e) => Err(Error::Deserialize(e)),
    }
}

/// Whether the payload of `item` decodes as a `T`.
pub open spec fn decodes_ok<T: FromAttributes>(item: Item) -> bool {
    exists|x: Response<T>| #[trigger] item_typed::<T>(item, Ok(x))
}

/// Whether `e` is the decoding error of an item of `items` and every item
/// before it decodes.
pub open spec fn first_failure<T: FromAttributes>(items: Seq<Item>, e: DeserializerError) -> bool {
    exists|i: int|
        0 <= i < items.len() && #[trigger] item_typed::<T>(items[i], Err(e)) && forall|j: int|
            0 <= j < i ==> decodes_ok::<T>(#[trigger] items[j])
}

/// Decodes every delivered item of an array call as a `T`; the first that
/// fails gives the error.
pub fn typed_items<T: FromAttributes>(items: Vec<Item>) -> (r: Result<
    Vec<Response<T>>,
    DeserializerError,
>)
    ensures
        match r {
            Ok(v) => v@.len() == items@.len() && forall|i: int|
                0 <= i < items@.len() ==> item_typed(items@[i], Ok(#[trigger] v@[i])),
            Err(e) => first_failure::<T>(items@, e),
        },
{
    let ghost all = items@;
    let mut rest = items;
    let mut out: Vec<Response<T>> = Vec::new();
    while rest.len() > 0
        invariant
            all == items@,
            out@.len() + rest@.len() == all.len(),
            rest@ == all.skip(out@.len() as int),
            forall|i: int| 0 <= i < out@.len() ==> item_typed(all[i], Ok(#[trigger] out@[i])),
        decreases rest@.len(),
    {
        let ghost k = out@.len();
        let ghost cur = rest@;
        let item = rest.remove(0);
        assert(item == all[k as int]);
        assert(rest@ =~= all.skip(k + 1 as int));
        match typed_item::<T>(item) {
            Ok(x) => {
                out.push(x);
            },
            Err(e) => {
                assert forall|j: int| 0 <= j < k implies decodes_ok::<T>(#[trigger] all[j]) by {
                    assert(item_typed::<T>(all[j], Ok(out@[j])));
                }
                assert(item_typed::<T>(all[k as int], Err(e)));
                return Err(e);
            },
        }
    }
    Ok(out)
}

/// What an array call resolves to: the decoded replies in order, or the
/// error of the first item that cannot be decoded, or of the trap or fatal
/// message that came before the end.
pub fn array_outcome<T: FromAttributes>(items: Vec<Item>) -> (r: Result<Vec<T>, Error>)
    ensures
        r matches Err(Error::Deserialize(e)) ==> first_failure::<T>(items@, e),
        (exists|typed: Seq<Response<T>>|
            typed.len() == items@.len() && (forall|i: int|
                0 <= i < items@.len() ==> item_typed(items@[i], Ok(#[trigger] typed[i])))
                && match fold_spec(typed) {
                Response::Reply(xs) => r matches Ok(v) && v@ == xs,
                Response::Trap { category, message } => r matches Err(Error::Remote {
                    category: c,
                    message: m,
                }) && c == category && m == message,
                Response::Fatal(m) => r matches Err(Error::Fatal(x)) && x == m,
                Response::Done => false,
            }) || r matches Err(Error::Deserialize(_)),
{
    let typed = match typed_items::<T>(items) {
        Ok(v) => v,
        Err(e) => {
            return Err(Error::Deserialize(e));
        },
    };
    let ghost tv = typed@;
    let folded = fold_responses(typed);
    match folded {
        Response::Reply(v) => Ok(v),
        Response::Trap { category, message } => Err(Error::Remote { category, message }),
        Response::Fatal(m) => Err(Error::Fatal(m)),
        Response::Done => Err(Error::NoReply),
    }
}

} // verus!
