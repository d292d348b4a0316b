//! Reply values and the typed records of the router's endpoints.
use vstd::prelude::*;

use crate::error::{DeserializerError, DeserializerErrorView, Error};
use crate::fields::{
    bool_at, bytes_equal, convert, decode_fields, parse_unsigned, fits, lemma_decoded_fields_fit, opt_bool_at, opt_bool_view,
    opt_text_at, opt_text_view, opt_unsigned_at, opt_unsigned_view, read_fields, text_at,
    unsigned_at, values_view, Attributes, Field, FieldKind, FieldValue, FieldView,
    FromAttributes, Presence,
};

verus! {

/// Possible values of a `!trap` sentence's `category`.
#[derive(Debug, Clone, Copy, PartialEq, Eq, Structural)]
pub enum TrapCategory {
    /// 0 - missing item or command
    MissingItemOrCommand,
    /// 1 - argument value failure
    ArgumentValueFailure,
    /// 2 - execution of command interrupted
    CommandExecutionInterrupted,
    /// 3 - scripting related failure
    ScriptingFailure,
    /// 4 - general failure
    GeneralFailure,
    /// 5 - API related failure
    APIFailure,
    /// 6 - TTY related failure
    TTYFailure,
    /// 7 - value generated with :return command
    ReturnValue,
}

/// The category with numeric code `code`, if there is one.
pub open spec fn category_of_code(code: nat) -> Option<TrapCategory> {
    if code == 0 {
        Some(TrapCategory::MissingItemOrCommand)
    } else if code == 1 {
        Some(TrapCategory::ArgumentValueFailure)
    } else if code == 2 {
        Some(TrapCategory::CommandExecutionInterrupted)
    } else if code == 3 {
        Some(TrapCategory::ScriptingFailure)
    } else if code == 4 {
        Some(TrapCategory::GeneralFailure)
    } else if code == 5 {
        Some(TrapCategory::APIFailure)
    } else if code == 6 {
        Some(TrapCategory::TTYFailure)
    } else if code == 7 {
        Some(TrapCategory::ReturnValue)
    } else {
        None
    }
}

impl TrapCategory {
    /// The category with numeric code `code`; codes above 7 have none.
    pub fn from_code(code: u64) -> (r: Option<TrapCategory>)
        ensures
            r == category_of_code(code as nat),
    {
        if code == 0 {
            Some(TrapCategory::MissingItemOrCommand)
        } else if code == 1 {
            Some(TrapCategory::ArgumentValueFailure)
        } else if code == 2 {
            Some(TrapCategory::CommandExecutionInterrupted)
        } else if code == 3 {
            Some(TrapCategory::ScriptingFailure)
        } else if code == 4 {
            Some(TrapCategory::GeneralFailure)
        } else if code == 5 {
            Some(TrapCategory::APIFailure)
        } else if code == 6 {
            Some(TrapCategory::TTYFailure)
        } else if code == 7 {
            Some(TrapCategory::ReturnValue)
        } else {
            None
        }
    }
}

/// A response to a command, sent by the router.
#[derive(Debug)]
pub enum Response<T> {
    /// `!done` sentence, indicating end of reply or stream
    Done,
    /// `!re` sentence, ie a reply from the router
    Reply(T),
    /// `!trap` sentence, sent by the router instead of `!re` when an error happened.
    Trap {
        /// Type of error
        category: Option<TrapCategory>,
        /// Error message, to be shown to the user
        message: String,
    },
    /// `!fatal` sentence, with the message that follows it.
    Fatal(String),
}

/// The mathematical content of a [`Response`].
pub ghost enum ResponseView<A> {
    Done,
    Reply(A),
    Trap(Option<TrapCategory>, Seq<char>),
    Fatal(Seq<char>),
}

impl<T: View> View for Response<T> {
    type V = ResponseView<T::V>;

    open spec fn view(&self) -> ResponseView<T::V> {
        match self {
            Response::Done => ResponseView::Done,
            Response::Reply(v) => ResponseView::Reply(v@),
            Response::Trap { category, message } => ResponseView::Trap(*category, message@),
            Response::Fatal(m) => ResponseView::Fatal(m@),
        }
    }
}

/// The `mtu` of an interface: either `auto` or a number of bytes.
#[derive(Debug, Clone, Copy, PartialEq, Eq, Structural)]
pub enum InterfaceMTU {
    /// 'auto' value
    Auto,
    /// MTU value in bytes
    Value(u16),
}

/// The field view of an MTU.
pub open spec fn mtu_view(m: InterfaceMTU) -> FieldView {
    match m {
        InterfaceMTU::Auto => FieldView::MtuAuto,
        InterfaceMTU::Value(n) => FieldView::MtuValue(n as nat),
    }
}

/// The MTU held at `i`.
fn mtu_at(vals: &Vec<FieldValue>, i: usize) -> (r: InterfaceMTU)
    requires
        i < vals@.len(),
        vals@[i as int]@ is MtuAuto || vals@[i as int]@ is MtuValue,
    ensures
        mtu_view(r) == vals@[i as int]@,
{
    match &vals[i] {
        FieldValue::MtuValue(n) => InterfaceMTU::Value(*n),
        _ => InterfaceMTU::Auto,
    }
}

/// Reply from `/system/resource/print`.
#[derive(Debug)]
pub struct SystemResources {
    /// Attribute `uptime`.
    pub uptime: String,
    /// Attribute `version`.
    pub version: String,
    /// Attribute `build-time`.
    pub build_time: String,
    /// Attribute `factory-software`.
    pub factory_software: String,
    /// Attribute `free-memory`.
    pub free_memory: u32,
    /// Attribute `total-memory`.
    pub total_memory: u32,
    /// Attribute `cpu`.
    pub cpu: String,
    /// Attribute `cpu-count`.
    pub cpu_count: u8,
    /// Attribute `cpu-load`.
    pub cpu_load: u16,
    /// Attribute `free-hdd-space`.
    pub free_hdd_space: u32,
    /// Attribute `total-hdd-space`.
    pub total_hdd_space: u32,
    /// Attribute `architecture-name`.
    pub architecture_name: String,
    /// Attribute `board-name`.
    pub board_name: String,
    /// Attribute `platform`.
    pub platform: String,
}

impl SystemResources {
    /// The fields of this record, in declaration order.
    pub open spec fn schema_spec() -> Seq<Field> {
        seq![
            Field { key: "uptime", kind: FieldKind::Text, presence: Presence::Required },
            Field { key: "version", kind: FieldKind::Text, presence: Presence::Required },
            Field { key: "build-time", kind: FieldKind::Text, presence: Presence::Required },
            Field { key: "factory-software", kind: FieldKind::Text, presence: Presence::Required },
            Field { key: "free-memory", kind: FieldKind::Unsigned(0xFFFF_FFFF), presence: Presence::Required },
            Field { key: "total-memory", kind: FieldKind::Unsigned(0xFFFF_FFFF), presence: Presence::Required },
            Field { key: "cpu", kind: FieldKind::Text, presence: Presence::Required },
            Field { key: "cpu-count", kind: FieldKind::Unsigned(0xFF), presence: Presence::Required },
            Field { key: "cpu-load", kind: FieldKind::Unsigned(0xFFFF), presence: Presence::Required },
            Field { key: "free-hdd-space", kind: FieldKind::Unsigned(0xFFFF_FFFF), presence: Presence::Required },
            Field { key: "total-hdd-space", kind: FieldKind::Unsigned(0xFFFF_FFFF), presence: Presence::Required },
            Field { key: "architecture-name", kind: FieldKind::Text, presence: Presence::Required },
            Field { key: "board-name", kind: FieldKind::Text, presence: Presence::Required },
            Field { key: "platform", kind: FieldKind::Text, presence: Presence::Required },
        ]
    }

    /// The fields of this record, in declaration order.
    pub fn schema() -> (r: Vec<Field>)
        ensures
            r@ == Self::schema_spec(),
    {
        let r = vec![
            Field { key: "uptime", kind: FieldKind::Text, presence: Presence::Required },
            Field { key: "version", kind: FieldKind::Text, presence: Presence::Required },
            Field { key: "build-time", kind: FieldKind::Text, presence: Presence::Required },
            Field { key: "factory-software", kind: FieldKind::Text, presence: Presence::Required },
            Field { key: "free-memory", kind: FieldKind::Unsigned(0xFFFF_FFFF), presence: Presence::Required },
            Field { key: "total-memory", kind: FieldKind::Unsigned(0xFFFF_FFFF), presence: Presence::Required },
            Field { key: "cpu", kind: FieldKind::Text, presence: Presence::Required },
            Field { key: "cpu-count", kind: FieldKind::Unsigned(0xFF), presence: Presence::Required },
            Field { key: "cpu-load", kind: FieldKind::Unsigned(0xFFFF), presence: Presence::Required },
            Field { key: "free-hdd-space", kind: FieldKind::Unsigned(0xFFFF_FFFF), presence: Presence::Required },
            Field { key: "total-hdd-space", kind: FieldKind::Unsigned(0xFFFF_FFFF), presence: Presence::Required },
            Field { key: "architecture-name", kind: FieldKind::Text, presence: Presence::Required },
            Field { key: "board-name", kind: FieldKind::Text, presence: Presence::Required },
            Field { key: "platform", kind: FieldKind::Text, presence: Presence::Required },
        ];
        assert(r@ =~= Self::schema_spec());
        r
    }

    /// The values of the fields, in declaration order.
    pub open spec fn fields_view(&self) -> Seq<FieldView> {
        seq![
            FieldView::Text(self.uptime@),
            FieldView::Text(self.version@),
            FieldView::Text(self.build_time@),
            FieldView::Text(self.factory_software@),
            FieldView::Unsigned(self.free_memory as nat),
            FieldView::Unsigned(self.total_memory as nat),
            FieldView::Text(self.cpu@),
            FieldView::Unsigned(self.cpu_count as nat),
            FieldView::Unsigned(self.cpu_load as nat),
            FieldView::Unsigned(self.free_hdd_space as nat),
            FieldView::Unsigned(self.total_hdd_space as nat),
            FieldView::Text(self.architecture_name@),
            FieldView::Text(self.board_name@),
            FieldView::Text(self.platform@),
        ]
    }
}

impl FromAttributes for SystemResources {
    open spec fn decoded(attrs: Seq<(Seq<u8>, Seq<u8>)>, r: Result<Self, DeserializerError>) -> bool {
        match decode_fields(attrs, Self::schema_spec()) {
            Ok(vs) => r matches Ok(x) && x.fields_view() == vs,
            Err(e) => r matches Err(x) && x@ == e,
        }
    }

    fn from_attributes(attrs: Attributes) -> (r: Result<Self, DeserializerError>) {
        let schema = Self::schema();
        let vals = match read_fields(&attrs, &schema) {
            Ok(v) => v,
            Err(e) => {
                return Err(e);
            },
        };
        proof {
            lemma_decoded_fields_fit(attrs@, schema@);
            assert forall|i: int| 0 <= i < schema@.len() implies fits(
                schema@[i],
                #[trigger] vals@[i]@,
            ) by {
                assert(values_view(vals@)[i] == vals@[i]@);
            }
        }
        let r = SystemResources {
            uptime: text_at(&vals, 0),
            version: text_at(&vals, 1),
            build_time: text_at(&vals, 2),
            factory_software: text_at(&vals, 3),
            free_memory: unsigned_at(&vals, 4) as u32,
            total_memory: unsigned_at(&vals, 5) as u32,
            cpu: text_at(&vals, 6),
            cpu_count: unsigned_at(&vals, 7) as u8,
            cpu_load: unsigned_at(&vals, 8) as u16,
            free_hdd_space: unsigned_at(&vals, 9) as u32,
            total_hdd_space: unsigned_at(&vals, 10) as u32,
            architecture_name: text_at(&vals, 11),
            board_name: text_at(&vals, 12),
            platform: text_at(&vals, 13),
        };
        assert(r.fields_view() =~= values_view(vals@));
        Ok(r)
    }
}

/// The attributes of one `/user/active/listen` event, before projection.
#[derive(Debug)]
pub struct ActiveUserRaw {
    /// Attribute `.id`.
    pub id: String,
    /// Attribute `.dead`.
    pub is_dead: bool,
    /// Attribute `when`.
    pub when: Option<String>,
    /// Attribute `name`.
    pub name: Option<String>,
    /// Attribute `address`.
    pub address: Option<String>,
    /// Attribute `via`.
    pub via: Option<String>,
    /// Attribute `group`.
    pub group: Option<String>,
    /// Attribute `radius`.
    pub radius: Option<bool>,
}

impl ActiveUserRaw {
    /// The fields of this record, in declaration order.
    pub open spec fn schema_spec() -> Seq<Field> {
        seq![
            Field { key: ".id", kind: FieldKind::Text, presence: Presence::Required },
            Field { key: ".dead", kind: FieldKind::Bool, presence: Presence::DefaultFalse },
            Field { key: "when", kind: FieldKind::Text, presence: Presence::Optional },
            Field { key: "name", kind: FieldKind::Text, presence: Presence::Optional },
            Field { key: "address", kind: FieldKind::Text, presence: Presence::Optional },
            Field { key: "via", kind: FieldKind::Text, presence: Presence::Optional },
            Field { key: "group", kind: FieldKind::Text, presence: Presence::Optional },
            Field { key: "radius", kind: FieldKind::Bool, presence: Presence::Optional },
        ]
    }

    /// The fields of this record, in declaration order.
    pub fn schema() -> (r: Vec<Field>)
        ensures
            r@ == Self::schema_spec(),
    {
        let r = vec![
            Field { key: ".id", kind: FieldKind::Text, presence: Presence::Required },
            Field { key: ".dead", kind: FieldKind::Bool, presence: Presence::DefaultFalse },
            Field { key: "when", kind: FieldKind::Text, presence: Presence::Optional },
            Field { key: "name", kind: FieldKind::Text, presence: Presence::Optional },
            Field { key: "address", kind: FieldKind::Text, presence: Presence::Optional },
            Field { key: "via", kind: FieldKind::Text, presence: Presence::Optional },
            Field { key: "group", kind: FieldKind::Text, presence: Presence::Optional },
            Field { key: "radius", kind: FieldKind::Bool, presence: Presence::Optional },
        ];
        assert(r@ =~= Self::schema_spec());
        r
    }

    /// The values of the fields, in declaration order.
    pub open spec fn fields_view(&self) -> Seq<FieldView> {
        seq![
            FieldView::Text(self.id@),
            FieldView::Bool(self.is_dead),
            opt_text_view(self.when),
            opt_text_view(self.name),
            opt_text_view(self.address),
            opt_text_view(self.via),
            opt_text_view(self.group),
            opt_bool_view(self.radius),
        ]
    }
}

impl FromAttributes for ActiveUserRaw {
    open spec fn decoded(attrs: Seq<(Seq<u8>, Seq<u8>)>, r: Result<Self, DeserializerError>) -> bool {
        match decode_fields(attrs, Self::schema_spec()) {
            Ok(vs) => r matches Ok(x) && x.fields_view() == vs,
            Err(e) => r matches Err(x) && x@ == e,
        }
    }

    fn from_attributes(attrs: Attributes) -> (r: Result<Self, DeserializerError>) {
        let schema = Self::schema();
        let vals = match read_fields(&attrs, &schema) {
            Ok(v) => v,
            Err(e) => {
                return Err(e);
            },
        };
        proof {
            lemma_decoded_fields_fit(attrs@, schema@);
            assert forall|i: int| 0 <= i < schema@.len() implies fits(
                schema@[i],
                #[trigger] vals@[i]@,
            ) by {
                assert(values_view(vals@)[i] == vals@[i]@);
            }
        }
        let r = ActiveUserRaw {
            id: text_at(&vals, 0),
            is_dead: bool_at(&vals, 1),
            when: opt_text_at(&vals, 2),
            name: opt_text_at(&vals, 3),
            address: opt_text_at(&vals, 4),
            via: opt_text_at(&vals, 5),
            group: opt_text_at(&vals, 6),
            radius: opt_bool_at(&vals, 7),
        };
        assert(r.fields_view() =~= values_view(vals@));
        Ok(r)
    }
}

/// An event of `/interface/listen`.
#[derive(Debug)]
pub struct InterfaceChange {
    /// Attribute `.id`.
    pub id: String,
}

impl InterfaceChange {
    /// The fields of this record, in declaration order.
    pub open spec fn schema_spec() -> Seq<Field> {
        seq![
            Field { key: ".id", kind: FieldKind::Text, presence: Presence::Required },
        ]
    }

    /// The fields of this record, in declaration order.
    pub fn schema() -> (r: Vec<Field>)
        ensures
            r@ == Self::schema_spec(),
    {
        let r = vec![
            Field { key: ".id", kind: FieldKind::Text, presence: Presence::Required },
        ];
        assert(r@ =~= Self::schema_spec());
        r
    }

    /// The values of the fields, in declaration order.
    pub open spec fn fields_view(&self) -> Seq<FieldView> {
        seq![
            FieldView::Text(self.id@),
        ]
    }
}

impl FromAttributes for InterfaceChange {
    open spec fn decoded(attrs: Seq<(Seq<u8>, Seq<u8>)>, r: Result<Self, DeserializerError>) -> bool {
        match decode_fields(attrs, Self::schema_spec()) {
            Ok(vs) => r matches Ok(x) && x.fields_view() == vs,
            Err(e) => r matches Err(x) && x@ == e,
        }
    }

    fn from_attributes(attrs: Attributes) -> (r: Result<Self, DeserializerError>) {
        let schema = Self::schema();
        let vals = match read_fields(&attrs, &schema) {
            Ok(v) => v,
            Err(e) => {
                return Err(e);
            },
        };
        proof {
            lemma_decoded_fields_fit(attrs@, schema@);
            assert forall|i: int| 0 <= i < schema@.len() implies fits(
                schema@[i],
                #[trigger] vals@[i]@,
            ) by {
                assert(values_view(vals@)[i] == vals@[i]@);
            }
        }
        let r = InterfaceChange {
            id: text_at(&vals, 0),
        };
        assert(r.fields_view() =~= values_view(vals@));
        Ok(r)
    }
}

/// Reply from `/interface/print`.
#[derive(Debug)]
pub struct Interface {
    /// Attribute `.id`.
    pub id: String,
    /// Attribute `name`.
    pub name: String,
    /// Attribute `type`.
    pub iface_type: String,
    /// Attribute `mtu`.
    pub mtu: InterfaceMTU,
    /// Attribute `actual-mtu`.
    pub actual_mtu: u16,
    /// Attribute `last-link-up`.
    pub last_link_up: Option<String>,
    /// Attribute `link-downs`.
    pub link_downs: u32,
    /// Attribute `rx-byte`.
    pub rx_byte: u64,
    /// Attribute `tx-byte`.
    pub tx_byte: u64,
    /// Attribute `rx-packet`.
    pub rx_packet: u64,
    /// Attribute `tx-packet`.
    pub tx_packet: u64,
    /// Attribute `rx-drop`.
    pub rx_drop: Option<u64>,
    /// Attribute `tx-drop`.
    pub tx_drop: Option<u64>,
    /// Attribute `tx-queue-drop`.
    pub tx_queue_drop: u64,
    /// Attribute `rx-error`.
    pub rx_error: Option<u64>,
    /// Attribute `tx-error`.
    pub tx_error: Option<u64>,
    /// Attribute `fp-rx-byte`.
    pub fp_rx_byte: u64,
    /// Attribute `fp-tx-byte`.
    pub fp_tx_byte: u64,
    /// Attribute `fp-rx-packet`.
    pub fp_rx_packet: u64,
    /// Attribute `fp-tx-packet`.
    pub fp_tx_packet: u64,
    /// Attribute `running`.
    pub running: bool,
    /// Attribute `slave`.
    pub slave: bool,
    /// Attribute `disabled`.
    pub disabled: bool,
}

impl Interface {
    /// The fields of this record, in declaration order.
    pub open spec fn schema_spec() -> Seq<Field> {
        seq![
            Field { key: ".id", kind: FieldKind::Text, presence: Presence::Required },
            Field { key: "name", kind: FieldKind::Text, presence: Presence::Required },
            Field { key: "type", kind: FieldKind::Text, presence: Presence::Required },
            Field { key: "mtu", kind: FieldKind::Mtu, presence: Presence::Required },
            Field { key: "actual-mtu", kind: FieldKind::Unsigned(0xFFFF), presence: Presence::Required },
            Field { key: "last-link-up", kind: FieldKind::Text, presence: Presence::Optional },
            Field { key: "link-downs", kind: FieldKind::Unsigned(0xFFFF_FFFF), presence: Presence::Required },
            Field { key: "rx-byte", kind: FieldKind::Unsigned(0xFFFF_FFFF_FFFF_FFFF), presence: Presence::Required },
            Field { key: "tx-byte", kind: FieldKind::Unsigned(0xFFFF_FFFF_FFFF_FFFF), presence: Presence::Required },
            Field { key: "rx-packet", kind: FieldKind::Unsigned(0xFFFF_FFFF_FFFF_FFFF), presence: Presence::Required },
            Field { key: "tx-packet", kind: FieldKind::Unsigned(0xFFFF_FFFF_FFFF_FFFF), presence: Presence::Required },
            Field { key: "rx-drop", kind: FieldKind::Unsigned(0xFFFF_FFFF_FFFF_FFFF), presence: Presence::Optional },
            Field { key: "tx-drop", kind: FieldKind::Unsigned(0xFFFF_FFFF_FFFF_FFFF), presence: Presence::Optional },
            Field { key: "tx-queue-drop", kind: FieldKind::Unsigned(0xFFFF_FFFF_FFFF_FFFF), presence: Presence::Required },
            Field { key: "rx-error", kind: FieldKind::Unsigned(0xFFFF_FFFF_FFFF_FFFF), presence: Presence::Optional },
            Field { key: "tx-error", kind: FieldKind::Unsigned(0xFFFF_FFFF_FFFF_FFFF), presence: Presence::Optional },
            Field { key: "fp-rx-byte", kind: FieldKind::Unsigned(0xFFFF_FFFF_FFFF_FFFF), presence: Presence::Required },
            Field { key: "fp-tx-byte", kind: FieldKind::Unsigned(0xFFFF_FFFF_FFFF_FFFF), presence: Presence::Required },
            Field { key: "fp-rx-packet", kind: FieldKind::Unsigned(0xFFFF_FFFF_FFFF_FFFF), presence: Presence::Required },
            Field { key: "fp-tx-packet", kind: FieldKind::Unsigned(0xFFFF_FFFF_FFFF_FFFF), presence: Presence::Required },
            Field { key: "running", kind: FieldKind::Bool, presence: Presence::Required },
            Field { key: "slave", kind: FieldKind::Bool, presence: Presence::DefaultFalse },
            Field { key: "disabled", kind: FieldKind::Bool, presence: Presence::Required },
        ]
    }

    /// The fields of this record, in declaration order.
    pub fn schema() -> (r: Vec<Field>)
        ensures
            r@ == Self::schema_spec(),
    {
        let r = vec![
            Field { key: ".id", kind: FieldKind::Text, presence: Presence::Required },
            Field { key: "name", kind: FieldKind::Text, presence: Presence::Required },
            Field { key: "type", kind: FieldKind::Text, presence: Presence::Required },
            Field { key: "mtu", kind: FieldKind::Mtu, presence: Presence::Required },
            Field { key: "actual-mtu", kind: FieldKind::Unsigned(0xFFFF), presence: Presence::Required },
            Field { key: "last-link-up", kind: FieldKind::Text, presence: Presence::Optional },
            Field { key: "link-downs", kind: FieldKind::Unsigned(0xFFFF_FFFF), presence: Presence::Required },
            Field { key: "rx-byte", kind: FieldKind::Unsigned(0xFFFF_FFFF_FFFF_FFFF), presence: Presence::Required },
            Field { key: "tx-byte", kind: FieldKind::Unsigned(0xFFFF_FFFF_FFFF_FFFF), presence: Presence::Required },
            Field { key: "rx-packet", kind: FieldKind::Unsigned(0xFFFF_FFFF_FFFF_FFFF), presence: Presence::Required },
            Field { key: "tx-packet", kind: FieldKind::Unsigned(0xFFFF_FFFF_FFFF_FFFF), presence: Presence::Required },
            Field { key: "rx-drop", kind: FieldKind::Unsigned(0xFFFF_FFFF_FFFF_FFFF), presence: Presence::Optional },
            Field { key: "tx-drop", kind: FieldKind::Unsigned(0xFFFF_FFFF_FFFF_FFFF), presence: Presence::Optional },
            Field { key: "tx-queue-drop", kind: FieldKind::Unsigned(0xFFFF_FFFF_FFFF_FFFF), presence: Presence::Required },
            Field { key: "rx-error", kind: FieldKind::Unsigned(0xFFFF_FFFF_FFFF_FFFF), presence: Presence::Optional },
            Field { key: "tx-error", kind: FieldKind::Unsigned(0xFFFF_FFFF_FFFF_FFFF), presence: Presence::Optional },
            Field { key: "fp-rx-byte", kind: FieldKind::Unsigned(0xFFFF_FFFF_FFFF_FFFF), presence: Presence::Required },
            Field { key: "fp-tx-byte", kind: FieldKind::Unsigned(0xFFFF_FFFF_FFFF_FFFF), presence: Presence::Required },
            Field { key: "fp-rx-packet", kind: FieldKind::Unsigned(0xFFFF_FFFF_FFFF_FFFF), presence: Presence::Required },
            Field { key: "fp-tx-packet", kind: FieldKind::Unsigned(0xFFFF_FFFF_FFFF_FFFF), presence: Presence::Required },
            Field { key: "running", kind: FieldKind::Bool, presence: Presence::Required },
            Field { key: "slave", kind: FieldKind::Bool, presence: Presence::DefaultFalse },
            Field { key: "disabled", kind: FieldKind::Bool, presence: Presence::Required },
        ];
        assert(r@ =~= Self::schema_spec());
        r
    }

    /// The values of the fields, in declaration order.
    pub open spec fn fields_view(&self) -> Seq<FieldView> {
        seq![
            FieldView::Text(self.id@),
            FieldView::Text(self.name@),
            FieldView::Text(self.iface_type@),
            mtu_view(self.mtu),
            FieldView::Unsigned(self.actual_mtu as nat),
            opt_text_view(self.last_link_up),
            FieldView::Unsigned(self.link_downs as nat),
            FieldView::Unsigned(self.rx_byte as nat),
            FieldView::Unsigned(self.tx_byte as nat),
            FieldView::Unsigned(self.rx_packet as nat),
            FieldView::Unsigned(self.tx_packet as nat),
            opt_unsigned_view(self.rx_drop),
            opt_unsigned_view(self.tx_drop),
            FieldView::Unsigned(self.tx_queue_drop as nat),
            opt_unsigned_view(self.rx_error),
            opt_unsigned_view(self.tx_error),
            FieldView::Unsigned(self.fp_rx_byte as nat),
            FieldView::Unsigned(self.fp_tx_byte as nat),
            FieldView::Unsigned(self.fp_rx_packet as nat),
            FieldView::Unsigned(self.fp_tx_packet as nat),
            FieldView::Bool(self.running),
            FieldView::Bool(self.slave),
            FieldView::Bool(self.disabled),
        ]
    }
}

impl FromAttributes for Interface {
    open spec fn decoded(attrs: Seq<(Seq<u8>, Seq<u8>)>, r: Result<Self, DeserializerError>) -> bool {
        match decode_fields(attrs, Self::schema_spec()) {
            Ok(vs) => r matches Ok(x) && x.fields_view() == vs,
            Err(e) => r matches Err(x) && x@ == e,
        }
    }

    fn from_attributes(attrs: Attributes) -> (r: Result<Self, DeserializerError>) {
        let schema = Self::schema();
        let vals = match read_fields(&attrs, &schema) {
            Ok(v) => v,
            Err(e) => {
                return Err(e);
            },
        };
        proof {
            lemma_decoded_fields_fit(attrs@, schema@);
            assert forall|i: int| 0 <= i < schema@.len() implies fits(
                schema@[i],
                #[trigger] vals@[i]@,
            ) by {
                assert(values_view(vals@)[i] == vals@[i]@);
            }
        }
        let r = Interface {
            id: text_at(&vals, 0),
            name: text_at(&vals, 1),
            iface_type: text_at(&vals, 2),
            mtu: mtu_at(&vals, 3),
            actual_mtu: unsigned_at(&vals, 4) as u16,
            last_link_up: opt_text_at(&vals, 5),
            link_downs: unsigned_at(&vals, 6) as u32,
            rx_byte: unsigned_at(&vals, 7),
            tx_byte: unsigned_at(&vals, 8),
            rx_packet: unsigned_at(&vals, 9),
            tx_packet: unsigned_at(&vals, 10),
            rx_drop: opt_unsigned_at(&vals, 11),
            tx_drop: opt_unsigned_at(&vals, 12),
            tx_queue_drop: unsigned_at(&vals, 13),
            rx_error: opt_unsigned_at(&vals, 14),
            tx_error: opt_unsigned_at(&vals, 15),
            fp_rx_byte: unsigned_at(&vals, 16),
            fp_tx_byte: unsigned_at(&vals, 17),
            fp_rx_packet: unsigned_at(&vals, 18),
            fp_tx_packet: unsigned_at(&vals, 19),
            running: bool_at(&vals, 20),
            slave: bool_at(&vals, 21),
            disabled: bool_at(&vals, 22),
        };
        assert(r.fields_view() =~= values_view(vals@));
        Ok(r)
    }
}

impl InterfaceMTU {
    /// Reads an MTU value: the literal `auto` first, else a decimal that fits in 16 bits.
    pub fn from_value(s: &[u8]) -> (r: Option<InterfaceMTU>)
        ensures
            match convert(FieldKind::Mtu, s@) {
                Some(v) => r matches Some(m) && mtu_view(m) == v,
                None => r is None,
            },
    {
        if bytes_equal(s, "auto".as_bytes()) {
            Some(InterfaceMTU::Auto)
        } else {
            match parse_unsigned(s, 0xFFFF) {
                Some(n) => Some(InterfaceMTU::Value(n as u16)),
                None => None,
            }
        }
    }
}

/// An event to describe user activity in terms of logins and logouts
#[derive(Debug)]
pub enum ActiveUser {
    /// Logout event, the String being the relative id of the user who logged out.
    Dead(String),
    /// Login event
    Active {
        /// Relative, incremental user id
        id: String,
        /// Login time
        when: String,
        /// Username
        name: String,
        /// IP address from which the connection originates from
        address: String,
        /// Mean of accessing admin interface: ssh, web, ...
        via: String,
        /// User group, as in which rights the user has on the system
        group: String,
        /// Is the user authenticated through RADIUS
        radius: bool,
    },
}

/// Whether `r` is the projection of the raw event `raw`: a dead entry gives
/// its id; a live one needs every field, the first missing one is the error.
pub open spec fn projects_to(raw: ActiveUserRaw, r: Result<ActiveUser, DeserializerError>) -> bool {
    if raw.is_dead {
        r matches Ok(ActiveUser::Dead(id)) && id == raw.id
    } else if raw.when is None {
        r matches Err(e) && e@ == DeserializerErrorView::MissingField("when"@)
    } else if raw.name is None {
        r matches Err(e) && e@ == DeserializerErrorView::MissingField("name"@)
    } else if raw.address is None {
        r matches Err(e) && e@ == DeserializerErrorView::MissingField("address"@)
    } else if raw.via is None {
        r matches Err(e) && e@ == DeserializerErrorView::MissingField("via"@)
    } else if raw.group is None {
        r matches Err(e) && e@ == DeserializerErrorView::MissingField("group"@)
    } else if raw.radius is None {
        r matches Err(e) && e@ == DeserializerErrorView::MissingField("radius"@)
    } else {
        r matches Ok(ActiveUser::Active { id, when, name, address, via, group, radius }) && id
            == raw.id && Some(when) == raw.when && Some(name) == raw.name && Some(address)
            == raw.address && Some(via) == raw.via && Some(group) == raw.group && Some(radius)
            == raw.radius
    }
}

impl ActiveUser {
    /// Projects a raw event onto a logout or a complete login.
    pub fn from_raw(raw: ActiveUserRaw) -> (r: Result<ActiveUser, DeserializerError>)
        ensures
            projects_to(raw, r),
    {
        if raw.is_dead {
            return Ok(ActiveUser::Dead(raw.id));
        }
        let when = match raw.when {
            Some(v) => v,
            None => {
                return Err(DeserializerError::MissingField("when".to_owned()));
            },
        };
        let name = match raw.name {
            Some(v) => v,
            None => {
                return Err(DeserializerError::MissingField("name".to_owned()));
            },
        };
        let address = match raw.address {
            Some(v) => v,
            None => {
                return Err(DeserializerError::MissingField("address".to_owned()));
            },
        };
        let via = match raw.via {
            Some(v) => v,
            None => {
                return Err(DeserializerError::MissingField("via".to_owned()));
            },
        };
        let group = match raw.group {
            Some(v) => v,
            None => {
                return Err(DeserializerError::MissingField("group".to_owned()));
            },
        };
        let radius = match raw.radius {
            Some(v) => v,
            None => {
                return Err(DeserializerError::MissingField("radius".to_owned()));
            },
        };
        Ok(ActiveUser::Active { id: raw.id, when, name, address, via, group, radius })
    }
}

impl FromAttributes for ActiveUser {
    open spec fn decoded(attrs: Seq<(Seq<u8>, Seq<u8>)>, r: Result<Self, DeserializerError>) -> bool {
        exists|raw: Result<ActiveUserRaw, DeserializerError>|
            ActiveUserRaw::decoded(attrs, raw) && match raw {
                Ok(x) => projects_to(x, r),
                Err(e) => r matches Err(y) && y@ == e@,
            }
    }

    fn from_attributes(attrs: Attributes) -> (r: Result<Self, DeserializerError>) {
        let ghost a = attrs@;
        let raw = ActiveUserRaw::from_attributes(attrs);
        let ghost g = raw;
        match raw {
            Ok(x) => ActiveUser::from_raw(x),
            Err(e) => {
                assert(ActiveUserRaw::decoded(a, g));
                Err(e)
            },
        }
    }
}

impl<T> Response<T> {
    /// The value of a reply; a trap or a fatal message is the error, and a
    /// call that ended without a reply has none.
    pub fn into_result(self) -> (r: Result<T, Error>)
        ensures
            match self {
                Response::Reply(v) => r == Ok::<T, Error>(v),
                Response::Trap { category, message } => r matches Err(Error::Remote {
                    category: c,
                    message: m,
                }) && c == category && m == message,
                Response::Fatal(m) => r matches Err(Error::Fatal(x)) && x == m,
                Response::Done => r matches Err(Error::NoReply),
            },
    {
        match self {
            Response::Reply(v) => Ok(v),
            Response::Trap { category, message } => Err(Error::Remote { category, message }),
            Response::Fatal(m) => Err(Error::Fatal(m)),
            Response::Done => Err(Error::NoReply),
        }
    }
}

/// Whether `out` is `r` with its reply payload decoded as a `T`.
pub open spec fn typed_response<T: FromAttributes>(
    r: Response<Attributes>,
    out: Result<Response<T>, DeserializerError>,
) -> bool {
    match r {
        Response::Reply(a) => match out {
            Ok(Response::Reply(x)) => T::decoded(a@, Ok(x)),
            Err(e) => T::decoded(a@, Err(e)),
            _ => false,
        },
        Response::Done => out matches Ok(Response::Done),
        Response::Trap { category, message } => out matches Ok(Response::Trap {
            category: c,
            message: m,
        }) && c == category && m == message,
        Response::Fatal(m) => out matches Ok(Response::Fatal(x)) && x == m,
    }
}

/// Decodes the payload of a reply as a `T`.
pub fn decode_response<T: FromAttributes>(r: Response<Attributes>) -> (out: Result<
    Response<T>,
    DeserializerError,
>)
    ensures
        typed_response(r, out),
{
    match r {
        Response::Reply(a) => match T::from_attributes(a) {
            Ok(x) => Ok(Response::Reply(x)),
            Err(e) => Err(e),
        },
        Response::Done => Ok(Response::Done),
        Response::Trap { category, message } => Ok(Response::Trap { category, message }),
        Response::Fatal(m) => Ok(Response::Fatal(m)),
    }
}

/// The outcome of a list of replies: the replies' values up to the first
/// `!done`, unless a trap or a fatal message comes first, which then wins.
pub open spec fn fold_spec<T>(items: Seq<Response<T>>) -> Response<Seq<T>>
    decreases items.len(),
{
    if items.len() == 0 {
        Response::Reply(Seq::empty())
    } else {
        match items[0] {
            Response::Done => Response::Reply(Seq::empty()),
            Response::Reply(x) => match fold_spec(items.skip(1)) {
                Response::Reply(xs) => Response::Reply(seq![x] + xs),
                other => other,
            },
            Response::Trap { category, message } => Response::Trap { category, message },
            Response::Fatal(m) => Response::Fatal(m),
        }
    }
}

/// Whether `out` holds what `f` describes.
pub open spec fn holds_fold<T>(f: Response<Seq<T>>, out: Response<Vec<T>>) -> bool {
    match f {
        Response::Reply(xs) => out matches Response::Reply(v) && v@ == xs,
        Response::Trap { category, message } => out matches Response::Trap {
            category: c,
            message: m,
        } && c == category && m == message,
        Response::Fatal(m) => out matches Response::Fatal(x) && x == m,
        Response::Done => false,
    }
}

/// Folds the replies of an array call into one response.
pub fn fold_responses<T>(items: Vec<Response<T>>) -> (out: Response<Vec<T>>)
    ensures
        holds_fold(fold_spec(items@), out),
{
    let ghost all = items@;
    let mut values: Vec<T> = Vec::new();
    let mut rest = items;
    assert(fold_spec(all) matches Response::Reply(xs) ==> values@ + xs =~= xs);
    loop
        invariant
            all == items@,
            match fold_spec(all) {
                Response::Reply(xs) => fold_spec(rest@) matches Response::Reply(ys) && xs
                    == values@ + ys,
                other => fold_spec(rest@) == other,
            },
        decreases rest@.len(),
    {
        let ghost cur = rest@;
        if rest.len() == 0 {
            assert(values@ + Seq::<T>::empty() =~= values@);
            return Response::Reply(values);
        }
        let item = rest.remove(0);
        assert(cur[0] == item);
        assert(rest@ =~= cur.skip(1));
        match item {
            Response::Done => {
                assert(values@ + Seq::<T>::empty() =~= values@);
                return Response::Reply(values);
            },
            Response::Reply(x) => {
                let ghost before = values@;
                values.push(x);
                proof {
                    match fold_spec(all) {
                        Response::Reply(xs) => {
                            let ys = fold_spec(cur.skip(1))->Reply_0;
                            assert(before + (seq![x] + ys) =~= values@ + ys);
                        },
                        _ => {},
                    }
                }
            },
            Response::Trap { category, message } => {
                return Response::Trap { category, message };
            },
            Response::Fatal(m) => {
                return Response::Fatal(m);
            },
        }
    }
}

} // verus!
