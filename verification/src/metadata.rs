//! The Metadata interface: a key/value store scoped by subject object.

use vstd::prelude::*;

use crate::error::PodError;
use crate::message::{
    clone_value, dict_of, dict_pod, int_map_of, int_map_pod, is_dict, is_int_map, read_bool,
    read_dict, read_fd, read_id, read_id_array, read_int, read_int_map, read_long, read_string,
    read_value, v_dict, v_id_array, v_int_map, v_string, Dict, IntMap,
};
use crate::opcode::{DeserializeFromOpCode, MessageOpCode};
use crate::value::{
    fview_id, lemma_pod_views, pod_views, ArrayView, Fd, Id, PodView, Value,
};

verus! {


/// Metadata method: set one property of a subject.
#[derive(Debug, PartialEq)]
pub struct SetProperty {
    pub subject: i32,
    pub key: Vec<u8>,
    pub type_: Vec<u8>,
    pub value: Vec<u8>,
}

impl SetProperty {
    /// The payload's struct-pod fields, in declared order.
    pub open spec fn spec_fields(self) -> Seq<PodView> {
        seq![
            PodView::Int(self.subject),
            PodView::String(self.key@),
            PodView::String(self.type_@),
            PodView::String(self.value@),
        ]
    }

    /// Whether struct-pod fields begin with this message's shape.
    pub open spec fn field_shape(fs: Seq<PodView>) -> bool {
        &&& fs.len() >= 4
        &&& fs[0] is Int
        &&& fs[1] is String
        &&& fs[2] is String
        &&& fs[3] is String
    }

    /// Whether `m` is exactly the message the leading fields carry.
    pub open spec fn parses(fs: Seq<PodView>, m: SetProperty) -> bool {
        &&& fs.len() >= 4
        &&& fs[0] == PodView::Int(m.subject)
        &&& fs[1] == PodView::String(m.key@)
        &&& fs[2] == PodView::String(m.type_@)
        &&& fs[3] == PodView::String(m.value@)
    }

    /// Encodes the payload as a struct pod with the fields in order.
    pub fn to_value(&self) -> (r: Value)
        ensures
            r@ == PodView::Struct(self.spec_fields()),
    {
        let mut fields: Vec<Value> = Vec::new();
        fields.push(Value::Int(self.subject));
        fields.push(v_string(&self.key));
        fields.push(v_string(&self.type_));
        fields.push(v_string(&self.value));
        let r = Value::Struct(fields);
        proof {
            lemma_pod_views(fields@);
            assert forall|j: int|
                0 <= j < fields@.len() implies pod_views(fields@)[j] == self.spec_fields()[j] by {
                assert(pod_views(fields@)[j] == fields@[j]@);
            }
            assert(pod_views(fields@) =~= self.spec_fields());
        }
        r
    }

    /// Decodes the payload from a struct pod, pulling fields in declared
    /// order; missing trailing fields fail, extra ones are tolerated.
    pub fn from_value(v: &Value) -> (r: Result<SetProperty, PodError>)
        ensures
            match r {
                Ok(m) => v@ matches PodView::Struct(fs) && SetProperty::parses(fs, m),
                Err(e) => !(v@ matches PodView::Struct(fs) && SetProperty::field_shape(fs)) && (e
                    == PodError::InvalidType || e == PodError::PropertyMissing) && (e
                    == PodError::PropertyMissing ==> (v@ matches PodView::Struct(fs2)
                    && fs2.len() < 4)),
            },
    {
        match v {
            Value::Struct(fields) => {
                proof {
                    lemma_pod_views(fields@);
                }
                let pos: usize = 0;
                let (subject, pos) = read_int(fields, pos)?;
                let (key, pos) = read_string(fields, pos)?;
                let (type_, pos) = read_string(fields, pos)?;
                let (value, pos) = read_string(fields, pos)?;
                let m = SetProperty { subject, key, type_, value };
                proof {
                    assert(SetProperty::parses(pod_views(fields@), m));
                }
                Ok(m)
            },
            _ => Err(PodError::InvalidType),
        }
    }
}

impl MessageOpCode for SetProperty {
    open spec fn spec_op_code() -> u32 {
        1
    }

    fn op_code() -> (r: u32) {
        1
    }
}

/// Metadata event: one property of a subject.
#[derive(Debug, PartialEq)]
pub struct Property {
    pub subject: i32,
    pub key: Vec<u8>,
    pub type_: Vec<u8>,
    pub value: Vec<u8>,
}

impl Property {
    /// The payload's struct-pod fields, in declared order.
    pub open spec fn spec_fields(self) -> Seq<PodView> {
        seq![
            PodView::Int(self.subject),
            PodView::String(self.key@),
            PodView::String(self.type_@),
            PodView::String(self.value@),
        ]
    }

    /// Whether struct-pod fields begin with this message's shape.
    pub open spec fn field_shape(fs: Seq<PodView>) -> bool {
        &&& fs.len() >= 4
        &&& fs[0] is Int
        &&& fs[1] is String
        &&& fs[2] is String
        &&& fs[3] is String
    }

    /// Whether `m` is exactly the message the leading fields carry.
    pub open spec fn parses(fs: Seq<PodView>, m: Property) -> bool {
        &&& fs.len() >= 4
        &&& fs[0] == PodView::Int(m.subject)
        &&& fs[1] == PodView::String(m.key@)
        &&& fs[2] == PodView::String(m.type_@)
        &&& fs[3] == PodView::String(m.value@)
    }

    /// Encodes the payload as a struct pod with the fields in order.
    pub fn to_value(&self) -> (r: Value)
        ensures
            r@ == PodView::Struct(self.spec_fields()),
    {
        let mut fields: Vec<Value> = Vec::new();
        fields.push(Value::Int(self.subject));
        fields.push(v_string(&self.key));
        fields.push(v_string(&self.type_));
        fields.push(v_string(&self.value));
        let r = Value::Struct(fields);
        proof {
            lemma_pod_views(fields@);
            assert forall|j: int|
                0 <= j < fields@.len() implies pod_views(fields@)[j] == self.spec_fields()[j] by {
                assert(pod_views(fields@)[j] == fields@[j]@);
            }
            assert(pod_views(fields@) =~= self.spec_fields());
        }
        r
    }

    /// Decodes the payload from a struct pod, pulling fields in declared
    /// order; missing trailing fields fail, extra ones are tolerated.
    pub fn from_value(v: &Value) -> (r: Result<Property, PodError>)
        ensures
            match r {
                Ok(m) => v@ matches PodView::Struct(fs) && Property::parses(fs, m),
                Err(e) => !(v@ matches PodView::Struct(fs) && Property::field_shape(fs)) && (e
                    == PodError::InvalidType || e == PodError::PropertyMissing) && (e
                    == PodError::PropertyMissing ==> (v@ matches PodView::Struct(fs2)
                    && fs2.len() < 4)),
            },
    {
        match v {
            Value::Struct(fields) => {
                proof {
                    lemma_pod_views(fields@);
                }
                let pos: usize = 0;
                let (subject, pos) = read_int(fields, pos)?;
                let (key, pos) = read_string(fields, pos)?;
                let (type_, pos) = read_string(fields, pos)?;
                let (value, pos) = read_string(fields, pos)?;
                let m = Property { subject, key, type_, value };
                proof {
                    assert(Property::parses(pod_views(fields@), m));
                }
                Ok(m)
            },
            _ => Err(PodError::InvalidType),
        }
    }
}

impl MessageOpCode for Property {
    open spec fn spec_op_code() -> u32 {
        0
    }

    fn op_code() -> (r: u32) {
        0
    }
}

/// Events of the Metadata interface.
#[derive(Debug, PartialEq)]
pub enum MetadataEvent {
    Property(Property),
    /// A sync barrier fanned out to this proxy (see the connection router).
    Done(crate::core_proxy::Done),
}

impl MetadataEvent {
    /// Whether an opcode is in this interface's event table and the body
    /// fields fit the event's shape.
    pub open spec fn event_shape(opcode: u32, fs: Seq<PodView>) -> bool {
        if opcode == 0 {
            Property::field_shape(fs)
        } else {
            false
        }
    }

    /// Whether `e` is exactly the event this opcode and body carry.
    pub open spec fn event_parses(opcode: u32, fs: Seq<PodView>, e: MetadataEvent) -> bool {
        if opcode == 0 {
            e matches MetadataEvent::Property(m) && Property::parses(fs, m)
        } else {
            false
        }
    }

    /// Decodes the event an opcode and a payload pod carry.
    pub fn from_body(opcode: u32, body: &Value) -> (r: Result<MetadataEvent, PodError>)
        ensures
            match r {
                Ok(e) => body@ matches PodView::Struct(fs) && MetadataEvent::event_parses(opcode, fs, e),
                Err(_) => !(body@ matches PodView::Struct(fs) && MetadataEvent::event_shape(
                    opcode,
                    fs,
                )),
            },
    {
        if opcode == 0 {
            match Property::from_value(body) {
                Ok(m) => Ok(MetadataEvent::Property(m)),
                Err(e) => Err(e),
            }
        } else {
            Err(PodError::InvalidType)
        }
    }
}

impl DeserializeFromOpCode for MetadataEvent {
    open spec fn spec_event_shape(opcode: u32, fs: Seq<crate::value::PodView>) -> bool {
        MetadataEvent::event_shape(opcode, fs)
    }

    open spec fn spec_event_parses(opcode: u32, fs: Seq<crate::value::PodView>, e: MetadataEvent) -> bool {
        MetadataEvent::event_parses(opcode, fs, e)
    }
    /// Parses the buffer's leading pod and decodes it by opcode.
    fn deserialize_from_opcode(opcode: u32, buffer: &Vec<u8>) -> Result<(MetadataEvent, usize), PodError> {
        match crate::deserialize::deserialize_pod(buffer, 0) {
            Ok((v, np)) => match MetadataEvent::from_body(opcode, &v) {
                Ok(e) => Ok((e, np)),
                Err(e) => Err(e),
            },
            Err(e) => Err(e),
        }
    }
}

/// Metadata method: clear the store. The payload is a single `Null` pod
/// field.
#[derive(Debug, PartialEq)]
pub struct Clear {
    pub none: Value,
}

impl Default for Clear {
    /// The canonical clear payload: a `Null` pod.
    fn default() -> (r: Clear)
        ensures
            r.none == Value::Null,
    {
        Clear { none: Value::Null }
    }
}

impl Clear {
    /// The payload's struct-pod fields.
    pub open spec fn spec_fields(self) -> Seq<PodView> {
        seq![self.none@]
    }

    /// Encodes the payload as a struct pod.
    pub fn to_value(&self) -> (r: Value)
        ensures
            r@ == PodView::Struct(self.spec_fields()),
    {
        let mut fields: Vec<Value> = Vec::new();
        fields.push(clone_value(&self.none));
        let r = Value::Struct(fields);
        proof {
            lemma_pod_views(fields@);
            assert(pod_views(fields@) =~= self.spec_fields());
        }
        r
    }
}

} // verus!
