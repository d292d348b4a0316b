//! Attribute words and the schema-driven decoding of their values.
use vstd::prelude::*;
use vstd::string::StringSliceAdditionalSpecFns;
use vstd::utf8::{decode_utf8, valid_utf8};

use crate::error::{DeserializerError, DeserializerErrorView};

verus! {

/// The attributes of one reply, as `(key, value)` pairs in sentence order.
#[derive(Debug)]
pub struct Attributes {
    pairs: Vec<(Vec<u8>, Vec<u8>)>,
}

/// The views of a list of `(key, value)` pairs.
pub open spec fn pairs_view(pairs: Seq<(Vec<u8>, Vec<u8>)>) -> Seq<(Seq<u8>, Seq<u8>)> {
    pairs.map_values(|p: (Vec<u8>, Vec<u8>)| (p.0@, p.1@))
}

impl View for Attributes {
    type V = Seq<(Seq<u8>, Seq<u8>)>;

    closed spec fn view(&self) -> Seq<(Seq<u8>, Seq<u8>)> {
        pairs_view(self.pairs@)
    }
}

impl Attributes {
    /// Attributes holding `pairs`, in that order.
    pub fn from_pairs(pairs: Vec<(Vec<u8>, Vec<u8>)>) -> (r: Self)
        ensures
            r@ == pairs_view(pairs@),
    {
        Attributes { pairs }
    }

    /// Number of pairs.
    pub fn len(&self) -> (r: usize)
        ensures
            r == self@.len(),
    {
        self.pairs.len()
    }

    /// The key of the `i`-th pair.
    pub fn key_at(&self, i: usize) -> (r: &Vec<u8>)
        requires
            i < self@.len(),
        ensures
            r@ == self@[i as int].0,
    {
        &self.pairs[i].0
    }

    /// The value of the `i`-th pair.
    pub fn value_at(&self, i: usize) -> (r: &Vec<u8>)
        requires
            i < self@.len(),
        ensures
            r@ == self@[i as int].1,
    {
        &self.pairs[i].1
    }

    /// The value of the first pair whose key is `key`.
    pub fn get(&self, key: &[u8]) -> (r: Option<&Vec<u8>>)
        ensures
            match lookup(self@, key@) {
                Some(v) => r matches Some(x) && x@ == v,
                None => r is None,
            },
    {
        let ghost all = self@;
        let mut i: usize = 0;
        assert(all.skip(0) =~= all);
        while i < self.pairs.len()
            invariant
                i <= self.pairs@.len(),
                all == pairs_view(self.pairs@),
                lookup(all, key@) == lookup(all.skip(i as int), key@),
            decreases self.pairs@.len() - i,
        {
            assert(all.skip(i as int).skip(1) =~= all.skip(i + 1));
            if bytes_equal(self.pairs[i].0.as_slice(), key) {
                return Some(&self.pairs[i].1);
            }
            i = i + 1;
        }
        None
    }
}

/// The value of the first pair whose key is `key`.
pub open spec fn lookup(attrs: Seq<(Seq<u8>, Seq<u8>)>, key: Seq<u8>) -> Option<Seq<u8>>
    decreases attrs.len(),
{
    if attrs.len() == 0 {
        None
    } else if attrs[0].0 == key {
        Some(attrs[0].1)
    } else {
        lookup(attrs.skip(1), key)
    }
}

/// Whether two byte strings are equal.
pub fn bytes_equal(a: &[u8], b: &[u8]) -> (r: bool)
    ensures
        r == (a@ == b@),
{
    if a.len() != b.len() {
        return false;
    }
    let mut i: usize = 0;
    while i < a.len()
        invariant
            i <= a@.len(),
            a@.len() == b@.len(),
            forall|j: int| 0 <= j < i ==> a@[j] == b@[j],
        decreases a@.len() - i,
    {
        if a[i] != b[i] {
            return false;
        }
        i = i + 1;
    }
    assert(a@ =~= b@);
    true
}

/// Whether `w` begins with `p`.
pub open spec fn starts_with(w: Seq<u8>, p: Seq<u8>) -> bool {
    p.len() <= w.len() && w.subrange(0, p.len() as int) == p
}

/// Whether `w` begins with `p`.
pub fn bytes_start_with(w: &[u8], p: &[u8]) -> (r: bool)
    ensures
        r == starts_with(w@, p@),
{
    if p.len() > w.len() {
        return false;
    }
    let mut i: usize = 0;
    while i < p.len()
        invariant
            i <= p@.len(),
            p@.len() <= w@.len(),
            forall|j: int| 0 <= j < i ==> w@[j] == p@[j],
        decreases p@.len() - i,
    {
        if w[i] != p[i] {
            assert(w@.subrange(0, p@.len() as int)[i as int] != p@[i as int]);
            return false;
        }
        i = i + 1;
    }
    assert(w@.subrange(0, p@.len() as int) =~= p@);
    true
}

/// Whether `b` is an ASCII decimal digit.
pub open spec fn is_digit(b: u8) -> bool {
    0x30 <= b <= 0x39
}

/// The number written by the digits `s`, most significant first.
pub open spec fn decimal_value(s: Seq<u8>) -> nat
    decreases s.len(),
{
    if s.len() == 0 {
        0
    } else {
        decimal_value(s.drop_last()) * 10 + (s.last() - 0x30) as nat
    }
}

/// `s` is a strict unsigned decimal: one or more digits, nothing else.
pub open spec fn is_decimal(s: Seq<u8>) -> bool {
    s.len() > 0 && forall|i: int| 0 <= i < s.len() ==> is_digit(#[trigger] s[i])
}

/// The unsigned integer that `s` writes, if it is a strict decimal no larger than `max`.
pub open spec fn unsigned_of(s: Seq<u8>, max: nat) -> Option<nat> {
    if is_decimal(s) && decimal_value(s) <= max {
        Some(decimal_value(s))
    } else {
        None
    }
}

/// Parses a strict unsigned decimal no larger than `max`.
pub fn parse_unsigned(s: &[u8], max: u64) -> (r: Option<u64>)
    ensures
        match unsigned_of(s@, max as nat) {
            Some(n) => r == Some(n as u64),
            None => r is None,
        },
{
    if s.len() == 0 {
        return None;
    }
    let mut acc: u128 = 0;
    let mut too_big = false;
    let mut i: usize = 0;
    while i < s.len()
        invariant
            i <= s@.len(),
            forall|j: int| 0 <= j < i ==> is_digit(#[trigger] s@[j]),
            too_big ==> decimal_value(s@.subrange(0, i as int)) > max,
            !too_big ==> acc == decimal_value(s@.subrange(0, i as int)) && acc <= max,
        decreases s@.len() - i,
    {
        let b = s[i];
        if b < 0x30 || b > 0x39 {
            return None;
        }
        assert(s@.subrange(0, i + 1).drop_last() =~= s@.subrange(0, i as int));
        if !too_big {
            acc = acc * 10 + (b - 0x30) as u128;
            if acc > max as u128 {
                too_big = true;
            }
        }
        i = i + 1;
    }
    assert(s@.subrange(0, s@.len() as int) =~= s@);
    if too_big {
        None
    } else {
        Some(acc as u64)
    }
}

/// The boolean that `s` spells, if it is `true` or `false`.
pub open spec fn bool_of(s: Seq<u8>) -> Option<bool> {
    if s == "true".spec_bytes() {
        Some(true)
    } else if s == "false".spec_bytes() {
        Some(false)
    } else {
        None
    }
}

/// Parses the literal `true` or `false`.
pub fn parse_bool(s: &[u8]) -> (r: Option<bool>)
    ensures
        r == bool_of(s@),
{
    if bytes_equal(s, "true".as_bytes()) {
        Some(true)
    } else if bytes_equal(s, "false".as_bytes()) {
        Some(false)
    } else {
        None
    }
}

/// Relies on `String::from_utf8`: it succeeds exactly on valid UTF-8 and
/// then holds the characters those bytes encode.
#[verifier::external_body]
fn utf8_string(bytes: Vec<u8>) -> (r: Option<String>)
    ensures
        r is Some <==> valid_utf8(bytes@),
        r matches Some(s) ==> s@ == decode_utf8(bytes@),
{
    String::from_utf8(bytes).ok()
}

/// The text that `s` encodes, if it is valid UTF-8.
pub open spec fn text_of(s: Seq<u8>) -> Option<Seq<char>> {
    if valid_utf8(s) {
        Some(decode_utf8(s))
    } else {
        None
    }
}

/// Decodes UTF-8 text; invalid bytes give `None`.
pub fn parse_text(s: &[u8]) -> (r: Option<String>)
    ensures
        match text_of(s@) {
            Some(t) => r matches Some(x) && x@ == t,
            None => r is None,
        },
{
    let mut copy: Vec<u8> = Vec::new();
    let mut i: usize = 0;
    while i < s.len()
        invariant
            i <= s@.len(),
            copy@ == s@.subrange(0, i as int),
        decreases s@.len() - i,
    {
        copy.push(s[i]);
        i = i + 1;
        assert(copy@ =~= s@.subrange(0, i as int));
    }
    assert(copy@ =~= s@);
    utf8_string(copy)
}

/// How a field's value is read from its attribute.
#[derive(Debug, Clone, Copy)]
pub enum FieldKind {
    /// UTF-8 text, taken verbatim.
    Text,
    /// A strict unsigned decimal no larger than the bound.
    Unsigned(u64),
    /// `true` or `false`.
    Bool,
    /// The literal `auto`, or a decimal that fits in 16 bits.
    Mtu,
}

/// What an absent attribute means for a field.
#[derive(Debug, Clone, Copy)]
pub enum Presence {
    /// Absence is an error.
    Required,
    /// Absence is recorded as such.
    Optional,
    /// Absence reads as `false`.
    DefaultFalse,
}

/// One field of a record schema: the attribute key it is read from, and how.
#[derive(Debug, Clone, Copy)]
pub struct Field {
    pub key: &'static str,
    pub kind: FieldKind,
    pub presence: Presence,
}

/// A decoded field value.
#[derive(Debug)]
pub enum FieldValue {
    Absent,
    Text(String),
    Unsigned(u64),
    Bool(bool),
    MtuAuto,
    MtuValue(u16),
}

/// The mathematical content of a [`FieldValue`].
pub ghost enum FieldView {
    Absent,
    Text(Seq<char>),
    Unsigned(nat),
    Bool(bool),
    MtuAuto,
    MtuValue(nat),
}

impl View for FieldValue {
    type V = FieldView;

    open spec fn view(&self) -> FieldView {
        match self {
            FieldValue::Absent => FieldView::Absent,
            FieldValue::Text(s) => FieldView::Text(s@),
            FieldValue::Unsigned(n) => FieldView::Unsigned(*n as nat),
            FieldValue::Bool(b) => FieldView::Bool(*b),
            FieldValue::MtuAuto => FieldView::MtuAuto,
            FieldValue::MtuValue(n) => FieldView::MtuValue(*n as nat),
        }
    }
}

/// The views of a list of field values.
pub open spec fn values_view(vals: Seq<FieldValue>) -> Seq<FieldView> {
    vals.map_values(|v: FieldValue| v@)
}

/// What the present value `v` converts to under `kind`, if it converts.
pub open spec fn convert(kind: FieldKind, v: Seq<u8>) -> Option<FieldView> {
    match kind {
        FieldKind::Text => match text_of(v) {
            Some(t) => Some(FieldView::Text(t)),
            None => None,
        },
        FieldKind::Unsigned(max) => match unsigned_of(v, max as nat) {
            Some(n) => Some(FieldView::Unsigned(n)),
            None => None,
        },
        FieldKind::Bool => match bool_of(v) {
            Some(b) => Some(FieldView::Bool(b)),
            None => None,
        },
        FieldKind::Mtu => if v == "auto".spec_bytes() {
            Some(FieldView::MtuAuto)
        } else {
            match unsigned_of(v, 0xFFFF) {
                Some(n) => Some(FieldView::MtuValue(n)),
                None => None,
            }
        },
    }
}

/// Decodes field `f` from `attrs`: the first attribute with its key decides.
pub open spec fn decode_field(attrs: Seq<(Seq<u8>, Seq<u8>)>, f: Field) -> Result<
    FieldView,
    DeserializerErrorView,
> {
    match lookup(attrs, f.key.spec_bytes()) {
        None => match f.presence {
            Presence::Required => Err(DeserializerErrorView::MissingField(f.key@)),
            Presence::Optional => Ok(FieldView::Absent),
            Presence::DefaultFalse => Ok(FieldView::Bool(false)),
        },
        Some(v) => match convert(f.kind, v) {
            Some(x) => Ok(x),
            None => Err(DeserializerErrorView::InvalidValue(f.key@, v)),
        },
    }
}

/// Decodes every field of `schema` in order; the first failing field gives the error.
pub open spec fn decode_fields(attrs: Seq<(Seq<u8>, Seq<u8>)>, schema: Seq<Field>) -> Result<
    Seq<FieldView>,
    DeserializerErrorView,
>
    decreases schema.len(),
{
    if schema.len() == 0 {
        Ok(Seq::empty())
    } else {
        match decode_fields(attrs, schema.drop_last()) {
            Err(e) => Err(e),
            Ok(vs) => match decode_field(attrs, schema.last()) {
                Err(e) => Err(e),
                Ok(v) => Ok(vs.push(v)),
            },
        }
    }
}

/// Whether `v` has the shape that a successful decoding of `f` gives.
pub open spec fn fits(f: Field, v: FieldView) -> bool {
    match f.presence {
        Presence::Required => fits_present(f.kind, v),
        Presence::Optional => v is Absent || fits_present(f.kind, v),
        Presence::DefaultFalse => v == FieldView::Bool(false) || fits_present(f.kind, v),
    }
}

/// Whether `v` is a present value of kind `kind`.
pub open spec fn fits_present(kind: FieldKind, v: FieldView) -> bool {
    match kind {
        FieldKind::Text => v is Text,
        FieldKind::Unsigned(max) => v matches FieldView::Unsigned(n) && n <= max,
        FieldKind::Bool => v is Bool,
        FieldKind::Mtu => v is MtuAuto || (v matches FieldView::MtuValue(n) && n <= 0xFFFF),
    }
}

/// Successfully decoded fields line up with the schema and each fits its field.
pub proof fn lemma_decoded_fields_fit(attrs: Seq<(Seq<u8>, Seq<u8>)>, schema: Seq<Field>)
    requires
        decode_fields(attrs, schema) is Ok,
    ensures
        decode_fields(attrs, schema)->Ok_0.len() == schema.len(),
        forall|i: int|
            0 <= i < schema.len() ==> fits(
                schema[i],
                #[trigger] decode_fields(attrs, schema)->Ok_0[i],
            ),
    decreases schema.len(),
{
    if schema.len() > 0 {
        lemma_decoded_fields_fit(attrs, schema.drop_last());
        let f = schema.last();
        lemma_field_fits(attrs, f);
        let vs = decode_fields(attrs, schema.drop_last())->Ok_0;
        let v = decode_field(attrs, f)->Ok_0;
        assert(decode_fields(attrs, schema)->Ok_0 == vs.push(v));
        assert forall|i: int| 0 <= i < schema.len() implies fits(
            schema[i],
            #[trigger] decode_fields(attrs, schema)->Ok_0[i],
        ) by {
            if i < schema.len() - 1 {
                assert(schema.drop_last()[i] == schema[i]);
                assert(vs.push(v)[i] == vs[i]);
            }
        }
    }
}

/// A successfully decoded field fits its field.
proof fn lemma_field_fits(attrs: Seq<(Seq<u8>, Seq<u8>)>, f: Field)
    requires
        decode_field(attrs, f) is Ok,
    ensures
        fits(f, decode_field(attrs, f)->Ok_0),
{
}

/// Converts a present attribute value under `kind`.
fn convert_value(kind: FieldKind, v: &[u8]) -> (r: Option<FieldValue>)
    ensures
        match convert(kind, v@) {
            Some(x) => r matches Some(y) && y@ == x,
            None => r is None,
        },
{
    match kind {
        FieldKind::Text => match parse_text(v) {
            Some(t) => Some(FieldValue::Text(t)),
            None => None,
        },
        FieldKind::Unsigned(max) => match parse_unsigned(v, max) {
            Some(n) => Some(FieldValue::Unsigned(n)),
            None => None,
        },
        FieldKind::Bool => match parse_bool(v) {
            Some(b) => Some(FieldValue::Bool(b)),
            None => None,
        },
        FieldKind::Mtu => if bytes_equal(v, "auto".as_bytes()) {
            Some(FieldValue::MtuAuto)
        } else {
            match parse_unsigned(v, 0xFFFF) {
                Some(n) => Some(FieldValue::MtuValue(n as u16)),
                None => None,
            }
        },
    }
}

/// Copies a byte string.
pub fn copy_bytes(src: &[u8]) -> (r: Vec<u8>)
    ensures
        r@ == src@,
{
    let mut out: Vec<u8> = Vec::with_capacity(src.len());
    let mut i: usize = 0;
    while i < src.len()
        invariant
            i <= src@.len(),
            out@ == src@.subrange(0, i as int),
        decreases src@.len() - i,
    {
        out.push(src[i]);
        i = i + 1;
        assert(out@ =~= src@.subrange(0, i as int));
    }
    assert(out@ =~= src@);
    out
}

/// Decodes one field of a record from `attrs`.
pub fn read_field(attrs: &Attributes, f: Field) -> (r: Result<FieldValue, DeserializerError>)
    ensures
        match decode_field(attrs@, f) {
            Ok(v) => r matches Ok(x) && x@ == v,
            Err(e) => r matches Err(x) && x@ == e,
        },
{
    match attrs.get(f.key.as_bytes()) {
        None => match f.presence {
            Presence::Required => Err(DeserializerError::MissingField(f.key.to_owned())),
            Presence::Optional => Ok(FieldValue::Absent),
            Presence::DefaultFalse => Ok(FieldValue::Bool(false)),
        },
        Some(v) => match convert_value(f.kind, v.as_slice()) {
            Some(x) => Ok(x),
            None => Err(
                DeserializerError::InvalidValue { key: f.key.to_owned(), value: copy_bytes(v.as_slice()) },
            ),
        },
    }
}

/// Decodes the fields of `schema` from `attrs`, in order.
pub fn read_fields(attrs: &Attributes, schema: &Vec<Field>) -> (r: Result<
    Vec<FieldValue>,
    DeserializerError,
>)
    ensures
        match decode_fields(attrs@, schema@) {
            Ok(vs) => r matches Ok(x) && values_view(x@) == vs,
            Err(e) => r matches Err(x) && x@ == e,
        },
{
    let mut out: Vec<FieldValue> = Vec::new();
    let mut i: usize = 0;
    assert(values_view(out@) =~= Seq::<FieldView>::empty());
    assert(schema@.subrange(0, 0) =~= Seq::<Field>::empty());
    while i < schema.len()
        invariant
            i <= schema@.len(),
            decode_fields(attrs@, schema@.subrange(0, i as int)) == Ok::<
                Seq<FieldView>,
                DeserializerErrorView,
            >(values_view(out@)),
        decreases schema@.len() - i,
    {
        assert(schema@.subrange(0, i + 1).drop_last() =~= schema@.subrange(0, i as int));
        match read_field(attrs, schema[i]) {
            Ok(v) => {
                let ghost before = out@;
                let ghost vv = v@;
                out.push(v);
                assert(values_view(out@) =~= values_view(before).push(vv));
                i = i + 1;
            },
            Err(e) => {
                proof {
                    lemma_prefix_error(attrs@, schema@, (i + 1) as nat);
                }
                return Err(e);
            },
        }
    }
    assert(schema@.subrange(0, schema@.len() as int) =~= schema@);
    Ok(out)
}

/// An error on a prefix of the schema is the error on the whole schema.
proof fn lemma_prefix_error(attrs: Seq<(Seq<u8>, Seq<u8>)>, schema: Seq<Field>, n: nat)
    requires
        n <= schema.len(),
        decode_fields(attrs, schema.subrange(0, n as int)) is Err,
    ensures
        decode_fields(attrs, schema) == decode_fields(attrs, schema.subrange(0, n as int)),
    decreases schema.len() - n,
{
    if n < schema.len() {
        assert(schema.subrange(0, n + 1 as int).drop_last() =~= schema.subrange(0, n as int));
        lemma_prefix_error(attrs, schema, n + 1);
    } else {
        assert(schema.subrange(0, n as int) =~= schema);
    }
}

/// The field view of text that may be absent.
pub open spec fn opt_text_view(o: Option<String>) -> FieldView {
    match o {
        Some(s) => FieldView::Text(s@),
        None => FieldView::Absent,
    }
}

/// The field view of a number that may be absent.
pub open spec fn opt_unsigned_view(o: Option<u64>) -> FieldView {
    match o {
        Some(n) => FieldView::Unsigned(n as nat),
        None => FieldView::Absent,
    }
}

/// The field view of a boolean that may be absent.
pub open spec fn opt_bool_view(o: Option<bool>) -> FieldView {
    match o {
        Some(b) => FieldView::Bool(b),
        None => FieldView::Absent,
    }
}

/// The text held at `i`.
pub fn text_at(vals: &Vec<FieldValue>, i: usize) -> (r: String)
    requires
        i < vals@.len(),
        vals@[i as int]@ is Text,
    ensures
        FieldView::Text(r@) == vals@[i as int]@,
{
    match &vals[i] {
        FieldValue::Text(s) => s.clone(),
        _ => String::new(),
    }
}

/// The text held at `i`, if present.
pub fn opt_text_at(vals: &Vec<FieldValue>, i: usize) -> (r: Option<String>)
    requires
        i < vals@.len(),
        vals@[i as int]@ is Text || vals@[i as int]@ is Absent,
    ensures
        opt_text_view(r) == vals@[i as int]@,
{
    match &vals[i] {
        FieldValue::Text(s) => Some(s.clone()),
        _ => None,
    }
}

/// The number held at `i`.
pub fn unsigned_at(vals: &Vec<FieldValue>, i: usize) -> (r: u64)
    requires
        i < vals@.len(),
        vals@[i as int]@ is Unsigned,
    ensures
        FieldView::Unsigned(r as nat) == vals@[i as int]@,
{
    match &vals[i] {
        FieldValue::Unsigned(n) => *n,
        _ => 0,
    }
}

/// The number held at `i`, if present.
pub fn opt_unsigned_at(vals: &Vec<FieldValue>, i: usize) -> (r: Option<u64>)
    requires
        i < vals@.len(),
        vals@[i as int]@ is Unsigned || vals@[i as int]@ is Absent,
    ensures
        opt_unsigned_view(r) == vals@[i as int]@,
{
    match &vals[i] {
        FieldValue::Unsigned(n) => Some(*n),
        _ => None,
    }
}

/// The boolean held at `i`.
pub fn bool_at(vals: &Vec<FieldValue>, i: usize) -> (r: bool)
    requires
        i < vals@.len(),
        vals@[i as int]@ is Bool,
    ensures
        FieldView::Bool(r) == vals@[i as int]@,
{
    match &vals[i] {
        FieldValue::Bool(b) => *b,
        _ => false,
    }
}

/// The boolean held at `i`, if present.
pub fn opt_bool_at(vals: &Vec<FieldValue>, i: usize) -> (r: Option<bool>)
    requires
        i < vals@.len(),
        vals@[i as int]@ is Bool || vals@[i as int]@ is Absent,
    ensures
        opt_bool_view(r) == vals@[i as int]@,
{
    match &vals[i] {
        FieldValue::Bool(b) => Some(*b),
        _ => None,
    }
}

/// A type that can be read from the attributes of a reply.
pub trait FromAttributes: Sized {
    /// Whether `r` is what decoding `attrs` gives.
    spec fn decoded(attrs: Seq<(Seq<u8>, Seq<u8>)>, r: Result<Self, DeserializerError>) -> bool;

    /// Decodes a value from the attributes of a reply.
    fn from_attributes(attrs: Attributes) -> (r: Result<Self, DeserializerError>)
        ensures
            Self::decoded(attrs@, r),
    ;
}

impl FromAttributes for Attributes {
    open spec fn decoded(attrs: Seq<(Seq<u8>, Seq<u8>)>, r: Result<Self, DeserializerError>) -> bool {
        r matches Ok(a) && a@ == attrs
    }

    fn from_attributes(attrs: Attributes) -> (r: Result<Self, DeserializerError>) {
        Ok(attrs)
    }
}

impl FromAttributes for () {
    open spec fn decoded(attrs: Seq<(Seq<u8>, Seq<u8>)>, r: Result<Self, DeserializerError>) -> bool {
        r == Ok::<(), DeserializerError>(())
    }

    fn from_attributes(attrs: Attributes) -> (r: Result<Self, DeserializerError>) {
        Ok(())
    }
}

} // verus!
