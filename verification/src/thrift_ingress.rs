//! The Thrift schema of the `Ingress` struct.
//!
//! A Thrift protocol hands a struct to its reader field by field. The
//! decisions that the schema takes on each field (which value to read, which
//! field to set, what an absent field defaults to) and the list of fields that
//! a writer emits stand here; the protocol object that moves the bytes is driven
//! by the caller.
use vstd::prelude::*;

verus! {

broadcast use vstd::string::to_string_from_display_ensures_for_str;

/// An ingress message as described by the Thrift IDL.
#[derive(Clone, Debug, Eq, Hash, Ord, PartialEq, PartialOrd)]
pub struct Ingress {
    pub source: Option<i64>,
    pub receiver: Option<i64>,
    pub method_name: Option<String>,
    pub method_payload: Option<Vec<u8>>,
    pub message_id: Option<i64>,
    pub message_time_ns: Option<i64>,
}

/// The mathematical value of an [`Ingress`].
#[verifier::ext_equal]
pub struct IngressModel {
    pub source: Option<i64>,
    pub receiver: Option<i64>,
    pub method_name: Option<Seq<char>>,
    pub method_payload: Option<Seq<u8>>,
    pub message_id: Option<i64>,
    pub message_time_ns: Option<i64>,
}

pub open spec fn opt_string_view(o: Option<String>) -> Option<Seq<char>> {
    match o {
        Some(s) => Some(s@),
        None => None,
    }
}

pub open spec fn opt_bytes_view(o: Option<Vec<u8>>) -> Option<Seq<u8>> {
    match o {
        Some(b) => Some(b@),
        None => None,
    }
}

impl View for Ingress {
    type V = IngressModel;

    open spec fn view(&self) -> IngressModel {
        IngressModel {
            source: self.source,
            receiver: self.receiver,
            method_name: opt_string_view(self.method_name),
            method_payload: opt_bytes_view(self.method_payload),
            message_id: self.message_id,
            message_time_ns: self.message_time_ns,
        }
    }
}

/// The value every field holds before the reader has seen it: zero, the empty
/// string and the empty byte string, each present.
pub open spec fn default_model() -> IngressModel {
    IngressModel {
        source: Some(0),
        receiver: Some(0),
        method_name: Some(Seq::empty()),
        method_payload: Some(Seq::empty()),
        message_id: Some(0),
        message_time_ns: Some(0),
    }
}

/// Each absent field of `m` replaced by the value the reader gives it.
pub open spec fn with_defaults(m: IngressModel) -> IngressModel {
    IngressModel {
        source: if m.source is Some { m.source } else { Some(0) },
        receiver: if m.receiver is Some { m.receiver } else { Some(0) },
        method_name: if m.method_name is Some { m.method_name } else { Some(Seq::empty()) },
        method_payload: if m.method_payload is Some { m.method_payload } else { Some(Seq::empty()) },
        message_id: if m.message_id is Some { m.message_id } else { Some(0) },
        message_time_ns: if m.message_time_ns is Some { m.message_time_ns } else { Some(0) },
    }
}

impl Ingress {
    /// Builds an ingress message; each argument becomes the field of the same name.
    pub fn new<F1, F2, F3, F4, F5, F6>(
        source: F1,
        receiver: F2,
        method_name: F3,
        method_payload: F4,
        message_id: F5,
        message_time_ns: F6,
    ) -> (res: Ingress) where
        F1: Into<Option<i64>>,
        F2: Into<Option<i64>>,
        F3: Into<Option<String>>,
        F4: Into<Option<Vec<u8>>>,
        F5: Into<Option<i64>>,
        F6: Into<Option<i64>>,
        ensures
            call_ensures(<F1 as Into<Option<i64>>>::into, (source,), res.source),
            call_ensures(<F2 as Into<Option<i64>>>::into, (receiver,), res.receiver),
            call_ensures(<F3 as Into<Option<String>>>::into, (method_name,), res.method_name),
            call_ensures(
                <F4 as Into<Option<Vec<u8>>>>::into,
                (method_payload,),
                res.method_payload,
            ),
            call_ensures(<F5 as Into<Option<i64>>>::into, (message_id,), res.message_id),
            call_ensures(
                <F6 as Into<Option<i64>>>::into,
                (message_time_ns,),
                res.message_time_ns,
            ),
    {
        Ingress {
            source: source.into(),
            receiver: receiver.into(),
            method_name: method_name.into(),
            method_payload: method_payload.into(),
            message_id: message_id.into(),
            message_time_ns: message_time_ns.into(),
        }
    }
}


/// `From<T> for Option<T>` in std: documented to move the value into a
/// new `Some`. With it a caller of [`Ingress::new`] that passes a plain
/// value knows the field is `Some` of it.
pub assume_specification<T>[ <Option<T> as core::convert::From<T>>::from ](val: T) -> (res: Option<T>)
    ensures
        res == Some(val),
;

/// The reflexive `From<T> for T` in std: documented to return its argument
/// unchanged. With it a caller of [`Ingress::new`] that passes an `Option`
/// knows the field is that option.
pub assume_specification<T>[ <T as core::convert::From<T>>::from ](t: T) -> (res: T)
    ensures
        res == t,
;

/// The hand-written default: every field present and zero or empty.
impl Default for Ingress {
    fn default() -> (res: Ingress)
        ensures
            res@ == default_model(),
    {
        Ingress {
            source: Some(0),
            receiver: Some(0),
            method_name: Some(String::new()),
            method_payload: Some(Vec::new()),
            message_id: Some(0),
            message_time_ns: Some(0),
        }
    }
}

/// The Thrift wire types.
#[derive(Clone, Copy, Debug, PartialEq, Eq, Structural)]
pub enum FieldType {
    Stop,
    Void,
    Bool,
    I08,
    Double,
    I16,
    I32,
    I64,
    String,
    Utf7,
    Struct,
    MapOf,
    SetOf,
    List,
    Utf8,
    Utf16,
}

/// The header a protocol reads before each field of a struct.
#[derive(Clone, Copy, Debug, PartialEq, Eq, Structural)]
pub struct FieldHeader {
    pub field_type: FieldType,
    /// Absent only on the stop marker.
    pub id: Option<i16>,
}

/// A field value as read from or written to a protocol.
#[derive(Clone, Debug, PartialEq, Eq)]
pub enum FieldValue {
    I64(i64),
    Text(String),
    Bytes(Vec<u8>),
}

pub enum FieldValueModel {
    I64(i64),
    Text(Seq<char>),
    Bytes(Seq<u8>),
}

impl View for FieldValue {
    type V = FieldValueModel;

    open spec fn view(&self) -> FieldValueModel {
        match self {
            FieldValue::I64(v) => FieldValueModel::I64(*v),
            FieldValue::Text(s) => FieldValueModel::Text(s@),
            FieldValue::Bytes(b) => FieldValueModel::Bytes(b@),
        }
    }
}

/// What the reader asks of the protocol after a field header.
#[derive(Clone, Copy, Debug, PartialEq, Eq, Structural)]
pub enum ReadStep {
    /// The stop marker: the struct is complete.
    Finish,
    /// Read an `i64` and hand it to the field with this id.
    ReadI64(i16),
    /// Read a string for `method_name`.
    ReadString,
    /// Read a byte string for `method_payload`.
    ReadBytes,
    /// An unknown field: skip a value of this type.
    Skip(FieldType),
}

/// A field header other than the stop marker arrived without an id.
#[derive(Clone, Copy, Debug, PartialEq, Eq, Structural)]
pub enum DecodeError {
    MissingFieldId,
}

/// The step the schema takes on a field header.
pub open spec fn step_spec(h: FieldHeader) -> Result<ReadStep, DecodeError> {
    if h.field_type == FieldType::Stop {
        Ok(ReadStep::Finish)
    } else {
        match h.id {
            None => Err(DecodeError::MissingFieldId),
            Some(id) => if id == 1 || id == 2 || id == 5 || id == 6 {
                Ok(ReadStep::ReadI64(id))
            } else if id == 3 {
                Ok(ReadStep::ReadString)
            } else if id == 4 {
                Ok(ReadStep::ReadBytes)
            } else {
                Ok(ReadStep::Skip(h.field_type))
            },
        }
    }
}

/// The state after the value `v` of field `id` was read into `m`. A value
/// whose kind does not belong to the field leaves `m` unchanged.
pub open spec fn apply_field(m: IngressModel, id: i16, v: FieldValueModel) -> IngressModel {
    match v {
        FieldValueModel::I64(x) => if id == 1 {
            IngressModel { source: Some(x), ..m }
        } else if id == 2 {
            IngressModel { receiver: Some(x), ..m }
        } else if id == 5 {
            IngressModel { message_id: Some(x), ..m }
        } else if id == 6 {
            IngressModel { message_time_ns: Some(x), ..m }
        } else {
            m
        },
        FieldValueModel::Text(s) => if id == 3 {
            IngressModel { method_name: Some(s), ..m }
        } else {
            m
        },
        FieldValueModel::Bytes(b) => if id == 4 {
            IngressModel { method_payload: Some(b), ..m }
        } else {
            m
        },
    }
}

/// The state after the fields of `fields` were read, in order, starting from `m`.
pub open spec fn apply_fields(m: IngressModel, fields: Seq<(i16, FieldValueModel)>) -> IngressModel
    decreases fields.len(),
{
    if fields.len() == 0 {
        m
    } else {
        apply_field(apply_fields(m, fields.drop_last()), fields.last().0, fields.last().1)
    }
}

/// The ingress message a reader builds from the fields `fields`.
pub open spec fn decode_spec(fields: Seq<(i16, FieldValueModel)>) -> IngressModel {
    apply_fields(default_model(), fields)
}

/// Reads an `Ingress` field by field: start from [`IngressReader::new`], ask
/// [`IngressReader::step`] for every header, hand each value read to
/// [`IngressReader::accept`] and call [`IngressReader::finish`] on the stop
/// marker.
pub struct IngressReader {
    partial: Ingress,
}

impl View for IngressReader {
    type V = IngressModel;

    closed spec fn view(&self) -> IngressModel {
        self.partial@
    }
}

impl IngressReader {
    pub fn new() -> (res: IngressReader)
        ensures
            res@ == default_model(),
    {
        IngressReader { partial: Ingress::default() }
    }

    /// What to read after the header `header`.
    pub fn step(header: &FieldHeader) -> (res: Result<ReadStep, DecodeError>)
        ensures
            res == step_spec(*header),
    {
        if header.field_type == FieldType::Stop {
            return Ok(ReadStep::Finish);
        }
        match header.id {
            None => Err(DecodeError::MissingFieldId),
            Some(id) => {
                if id == 1 || id == 2 || id == 5 || id == 6 {
                    Ok(ReadStep::ReadI64(id))
                } else if id == 3 {
                    Ok(ReadStep::ReadString)
                } else if id == 4 {
                    Ok(ReadStep::ReadBytes)
                } else {
                    Ok(ReadStep::Skip(header.field_type))
                }
            },
        }
    }

    /// Stores the value read for field `id`.
    pub fn accept(&mut self, id: i16, value: FieldValue)
        ensures
            final(self)@ == apply_field(old(self)@, id, value@),
    {
        match value {
            FieldValue::I64(x) => {
                if id == 1 {
                    self.partial.source = Some(x);
                } else if id == 2 {
                    self.partial.receiver = Some(x);
                } else if id == 5 {
                    self.partial.message_id = Some(x);
                } else if id == 6 {
                    self.partial.message_time_ns = Some(x);
                }
            },
            FieldValue::Text(s) => {
                if id == 3 {
                    self.partial.method_name = Some(s);
                }
            },
            FieldValue::Bytes(b) => {
                if id == 4 {
                    self.partial.method_payload = Some(b);
                }
            },
        }
    }

    /// The message read so far.
    pub fn finish(self) -> (res: Ingress)
        ensures
            res@ == self@,
    {
        self.partial
    }
}


/// One field that a writer emits: its name, wire type, id and value.
#[derive(Clone, Debug, PartialEq, Eq)]
pub struct FieldWrite {
    pub name: String,
    pub field_type: FieldType,
    pub id: i16,
    pub value: FieldValue,
}

/// The field name the IDL gives to the field with id `id`.
pub open spec fn field_name(id: i16) -> Seq<char> {
    if id == 1 {
        "source"@
    } else if id == 2 {
        "receiver"@
    } else if id == 3 {
        "method_name"@
    } else if id == 4 {
        "method_payload"@
    } else if id == 5 {
        "message_id"@
    } else {
        "message_time_ns"@
    }
}

/// The wire type of the field with id `id`; the payload bytes travel as a
/// Thrift string.
pub open spec fn wire_type(id: i16) -> FieldType {
    if id == 3 || id == 4 {
        FieldType::String
    } else {
        FieldType::I64
    }
}

pub open spec fn opt_i64_field(id: i16, o: Option<i64>) -> Seq<(i16, FieldValueModel)> {
    match o {
        Some(x) => seq![(id, FieldValueModel::I64(x))],
        None => seq![],
    }
}

pub open spec fn opt_text_field(id: i16, o: Option<Seq<char>>) -> Seq<(i16, FieldValueModel)> {
    match o {
        Some(x) => seq![(id, FieldValueModel::Text(x))],
        None => seq![],
    }
}

pub open spec fn opt_bytes_field(id: i16, o: Option<Seq<u8>>) -> Seq<(i16, FieldValueModel)> {
    match o {
        Some(x) => seq![(id, FieldValueModel::Bytes(x))],
        None => seq![],
    }
}

/// The fields a writer emits for `m`: the present ones, in id order.
pub open spec fn plan_spec(m: IngressModel) -> Seq<(i16, FieldValueModel)> {
    opt_i64_field(1, m.source) + opt_i64_field(2, m.receiver) + opt_text_field(
        3,
        m.method_name,
    ) + opt_bytes_field(4, m.method_payload) + opt_i64_field(5, m.message_id) + opt_i64_field(
        6,
        m.message_time_ns,
    )
}

pub open spec fn write_view(w: FieldWrite) -> (i16, FieldValueModel) {
    (w.id, w.value@)
}

/// Every planned write carries the name and wire type of its field.
pub open spec fn well_labelled(plan: Seq<FieldWrite>) -> bool {
    forall|i: int|
        0 <= i < plan.len() ==> (#[trigger] plan[i]).name@ == field_name(plan[i].id)
            && plan[i].field_type == wire_type(plan[i].id)
}

fn push_i64_field(plan: &mut Vec<FieldWrite>, name: &str, id: i16, o: Option<i64>)
    requires
        well_labelled(old(plan)@),
        name@ == field_name(id),
        wire_type(id) == FieldType::I64,
    ensures
        well_labelled(final(plan)@),
        final(plan)@.map_values(|w: FieldWrite| write_view(w)) == old(plan)@.map_values(
            |w: FieldWrite| write_view(w),
        ) + opt_i64_field(id, o),
        final(plan)@.len() == old(plan)@.len() + opt_i64_field(id, o).len(),
        forall|i: int|
            0 <= i < old(plan)@.len() ==> #[trigger] final(plan)@[i] == old(plan)@[i],
{
    if let Some(x) = o {
        plan.push(
            FieldWrite {
                name: name.to_string(),
                field_type: FieldType::I64,
                id,
                value: FieldValue::I64(x),
            },
        );
    }
    assert(final(plan)@.map_values(|w: FieldWrite| write_view(w)) =~= old(plan)@.map_values(
        |w: FieldWrite| write_view(w),
    ) + opt_i64_field(id, o));
}

impl Ingress {
    /// The fields to write for this message, in order; absent fields are left
    /// out. A writer brackets them with the struct header named `Ingress` and
    /// the stop marker.
    pub fn write_plan(&self) -> (res: Vec<FieldWrite>)
        ensures
            res@.map_values(|w: FieldWrite| write_view(w)) == plan_spec(self@),
            well_labelled(res@),
            forall|i: int| 0 <= i < res@.len() ==> ((#[trigger] res@[i]).value is I64 <==> res@[i].field_type == FieldType::I64),
            forall|i: int| 0 <= i < res@.len() ==> ((#[trigger] res@[i]).value is I64 || res@[i].field_type == FieldType::String),
    {
        let mut plan: Vec<FieldWrite> = Vec::new();
        assert(plan@.map_values(|w: FieldWrite| write_view(w)) =~= seq![]);
        push_i64_field(&mut plan, "source", 1, self.source);
        push_i64_field(&mut plan, "receiver", 2, self.receiver);
        let ghost before3 = plan@;
        match &self.method_name {
            Some(name) => {
                plan.push(
                    FieldWrite {
                        name: "method_name".to_string(),
                        field_type: FieldType::String,
                        id: 3,
                        value: FieldValue::Text(name.clone()),
                    },
                );
            },
            None => {},
        }
        assert(plan@.map_values(|w: FieldWrite| write_view(w)) =~= before3.map_values(
            |w: FieldWrite| write_view(w),
        ) + opt_text_field(3, opt_string_view(self.method_name)));
        let ghost before4 = plan@;
        match &self.method_payload {
            Some(payload) => {
                plan.push(
                    FieldWrite {
                        name: "method_payload".to_string(),
                        field_type: FieldType::String,
                        id: 4,
                        value: FieldValue::Bytes(payload.clone()),
                    },
                );
            },
            None => {},
        }
        assert(plan@.map_values(|w: FieldWrite| write_view(w)) =~= before4.map_values(
            |w: FieldWrite| write_view(w),
        ) + opt_bytes_field(4, opt_bytes_view(self.method_payload)));
        push_i64_field(&mut plan, "message_id", 5, self.message_id);
        push_i64_field(&mut plan, "message_time_ns", 6, self.message_time_ns);
        assert(plan@.map_values(|w: FieldWrite| write_view(w)) =~= plan_spec(self@));
        proof {
            lemma_plan_wire_types(self@, plan@);
        }
        plan
    }

    /// The name of the struct in the IDL.
    pub fn struct_name() -> (res: String)
        ensures
            res@ == "Ingress"@,
    {
        "Ingress".to_string()
    }
}

/// Every field a writer emits carries the wire type of its value: the i64
/// fields (source, receiver, message id, message time) travel as I64, the
/// method name and payload as Thrift strings.
pub proof fn lemma_plan_wire_types(m: IngressModel, plan: Seq<FieldWrite>)
    requires
        plan.map_values(|w: FieldWrite| write_view(w)) == plan_spec(m),
        well_labelled(plan),
    ensures
        forall|i: int| 0 <= i < plan.len() ==> ((#[trigger] plan[i]).value is I64 <==> plan[i].field_type == FieldType::I64),
        forall|i: int| 0 <= i < plan.len() ==> ((#[trigger] plan[i]).value is I64 || plan[i].field_type == FieldType::String),
        forall|i: int| 0 <= i < plan.len() ==> ((#[trigger] plan[i]).value is I64 <==> (plan[i].id == 1 || plan[i].id == 2 || plan[i].id == 5 || plan[i].id == 6)),
{
    let p = plan_spec(m);
    assert forall|i: int| 0 <= i < plan.len() implies ({
        let w = #[trigger] plan[i];
        &&& w.value is I64 <==> (w.id == 1 || w.id == 2 || w.id == 5 || w.id == 6)
        &&& 1 <= w.id <= 6
    }) by {
        assert(plan.map_values(|w: FieldWrite| write_view(w)).len() == plan.len());
        assert(plan.map_values(|w: FieldWrite| write_view(w))[i] == write_view(plan[i]));
        assert(write_view(plan[i]) == p[i]);
        let a = opt_i64_field(1, m.source);
        let b = opt_i64_field(2, m.receiver);
        let c = opt_text_field(3, m.method_name);
        let d = opt_bytes_field(4, m.method_payload);
        let e = opt_i64_field(5, m.message_id);
        let f = opt_i64_field(6, m.message_time_ns);
        assert(p == a + b + c + d + e + f);
        let ab = a + b;
        let abc = ab + c;
        let abcd = abc + d;
        let abcde = abcd + e;
        assert(p == abcde + f);
        assert(i < p.len());
        if i < a.len() {
            assert(p[i] == a[i]);
        } else if i < ab.len() {
            assert(p[i] == ab[i] && ab[i] == b[i - a.len()]);
        } else if i < abc.len() {
            assert(p[i] == abc[i] && abc[i] == c[i - ab.len()]);
        } else if i < abcd.len() {
            assert(p[i] == abcd[i] && abcd[i] == d[i - abc.len()]);
        } else if i < abcde.len() {
            assert(p[i] == abcde[i] && abcde[i] == e[i - abcd.len()]);
        } else {
            assert(p[i] == (abcde + f)[i]);
            assert(p[i] == f[i - abcde.len()]);
        }
    }
    assert forall|i: int| 0 <= i < plan.len() implies ((#[trigger] plan[i]).value is I64 <==> plan[i].field_type == FieldType::I64)
        && (plan[i].value is I64 || plan[i].field_type == FieldType::String) by {
        assert(plan[i].field_type == wire_type(plan[i].id));
        assert(plan[i].value is I64 <==> (plan[i].id == 1 || plan[i].id == 2 || plan[i].id == 5 || plan[i].id == 6));
        assert(1 <= plan[i].id <= 6);
    }
}

proof fn lemma_apply_short(m: IngressModel, s: Seq<(i16, FieldValueModel)>)
    requires
        s.len() <= 1,
    ensures
        s.len() == 0 ==> apply_fields(m, s) == m,
        s.len() == 1 ==> apply_fields(m, s) == apply_field(m, s[0].0, s[0].1),
{
    if s.len() == 1 {
        assert(s.drop_last() =~= seq![]);
        assert(apply_fields(m, s.drop_last()) == m);
    }
}

proof fn lemma_apply_fields_concat(
    m: IngressModel,
    s: Seq<(i16, FieldValueModel)>,
    t: Seq<(i16, FieldValueModel)>,
)
    ensures
        apply_fields(m, s + t) == apply_fields(apply_fields(m, s), t),
    decreases t.len(),
{
    if t.len() == 0 {
        assert(s + t =~= s);
    } else {
        lemma_apply_fields_concat(m, s, t.drop_last());
        assert((s + t).drop_last() =~= s + t.drop_last());
        assert((s + t).last() == t.last());
    }
}

/// Reading back what a writer emitted gives the message that was written,
/// with every absent field replaced by its default (zero or empty).
pub proof fn lemma_read_after_write(m: IngressModel)
    ensures
        decode_spec(plan_spec(m)) == with_defaults(m),
{
    let p1 = opt_i64_field(1, m.source);
    let p2 = opt_i64_field(2, m.receiver);
    let p3 = opt_text_field(3, m.method_name);
    let p4 = opt_bytes_field(4, m.method_payload);
    let p5 = opt_i64_field(5, m.message_id);
    let p6 = opt_i64_field(6, m.message_time_ns);
    let d = default_model();
    lemma_apply_fields_concat(d, p1, p2);
    lemma_apply_fields_concat(d, p1 + p2, p3);
    lemma_apply_fields_concat(d, p1 + p2 + p3, p4);
    lemma_apply_fields_concat(d, p1 + p2 + p3 + p4, p5);
    lemma_apply_fields_concat(d, p1 + p2 + p3 + p4 + p5, p6);
    lemma_apply_short(d, p1);
    let a1 = apply_fields(d, p1);
    lemma_apply_short(a1, p2);
    let a2 = apply_fields(a1, p2);
    lemma_apply_short(a2, p3);
    let a3 = apply_fields(a2, p3);
    lemma_apply_short(a3, p4);
    let a4 = apply_fields(a3, p4);
    lemma_apply_short(a4, p5);
    let a5 = apply_fields(a4, p5);
    lemma_apply_short(a5, p6);
    let a6 = apply_fields(a5, p6);
    assert(a6 =~= with_defaults(m));
}

} // verus!
