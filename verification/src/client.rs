//! The Client interface: methods and events of the connection's own client object (object id 1).

use vstd::prelude::*;

use crate::error::PodError;
use crate::message::{
    clone_value, dict_of, dict_pod, int_map_of, int_map_pod, is_dict, is_int_map, read_bool,
    read_dict, read_fd, read_id, read_id_array, read_int, read_int_map, read_long, read_string,
    read_value, v_dict, v_id_array, v_int_map, v_string, Dict, IntMap,
};
use crate::opcode::{DeserializeFromOpCode, MessageOpCode};
use crate::value::{
    fview_id, lemma_pod_views, pod_views, ArrayView, Fd, Id, PodView, Value,
};

verus! {

pub const CLIENT_ID: i32 = 1;

/// Client method: report an error.
#[derive(Debug, PartialEq)]
pub struct Error {
    pub id: i32,
    pub res: i32,
    pub error: Vec<u8>,
}

impl Error {
    /// The payload's struct-pod fields, in declared order.
    pub open spec fn spec_fields(self) -> Seq<PodView> {
        seq![
            PodView::Int(self.id),
            PodView::Int(self.res),
            PodView::String(self.error@),
        ]
    }

    /// Whether struct-pod fields begin with this message's shape.
    pub open spec fn field_shape(fs: Seq<PodView>) -> bool {
        &&& fs.len() >= 3
        &&& fs[0] is Int
        &&& fs[1] is Int
        &&& fs[2] is String
    }

    /// Whether `m` is exactly the message the leading fields carry.
    pub open spec fn parses(fs: Seq<PodView>, m: Error) -> bool {
        &&& fs.len() >= 3
        &&& fs[0] == PodView::Int(m.id)
        &&& fs[1] == PodView::Int(m.res)
        &&& fs[2] == PodView::String(m.error@)
    }

    /// Encodes the payload as a struct pod with the fields in order.
    pub fn to_value(&self) -> (r: Value)
        ensures
            r@ == PodView::Struct(self.spec_fields()),
    {
        let mut fields: Vec<Value> = Vec::new();
        fields.push(Value::Int(self.id));
        fields.push(Value::Int(self.res));
        fields.push(v_string(&self.error));
        let r = Value::Struct(fields);
        proof {
            lemma_pod_views(fields@);
            assert forall|j: int|
                0 <= j < fields@.len() implies pod_views(fields@)[j] == self.spec_fields()[j] by {
                assert(pod_views(fields@)[j] == fields@[j]@);
            }
            assert(pod_views(fields@) =~= self.spec_fields());
        }
        r
    }

    /// Decodes the payload from a struct pod, pulling fields in declared
    /// order; missing trailing fields fail, extra ones are tolerated.
    pub fn from_value(v: &Value) -> (r: Result<Error, PodError>)
        ensures
            match r {
                Ok(m) => v@ matches PodView::Struct(fs) && Error::parses(fs, m),
                Err(e) => !(v@ matches PodView::Struct(fs) && Error::field_shape(fs)) && (e
                    == PodError::InvalidType || e == PodError::PropertyMissing) && (e
                    == PodError::PropertyMissing ==> (v@ matches PodView::Struct(fs2)
                    && fs2.len() < 3)),
            },
    {
        match v {
            Value::Struct(fields) => {
                proof {
                    lemma_pod_views(fields@);
                }
                let pos: usize = 0;
                let (id, pos) = read_int(fields, pos)?;
                let (res, pos) = read_int(fields, pos)?;
                let (error, pos) = read_string(fields, pos)?;
                let m = Error { id, res, error };
                proof {
                    assert(Error::parses(pod_views(fields@), m));
                }
                Ok(m)
            },
            _ => Err(PodError::InvalidType),
        }
    }
}

impl MessageOpCode for Error {
    open spec fn spec_op_code() -> u32 {
        1
    }

    fn op_code() -> (r: u32) {
        1
    }
}

/// Client method: update the client's properties.
#[derive(Debug, PartialEq)]
pub struct UpdateProperties {
    pub props: Dict,
}

impl UpdateProperties {
    /// The payload's struct-pod fields, in declared order.
    pub open spec fn spec_fields(self) -> Seq<PodView> {
        seq![
            dict_pod(self.props@),
        ]
    }

    /// Whether struct-pod fields begin with this message's shape.
    pub open spec fn field_shape(fs: Seq<PodView>) -> bool {
        &&& fs.len() >= 1
        &&& is_dict(fs[0])
    }

    /// Whether `m` is exactly the message the leading fields carry.
    pub open spec fn parses(fs: Seq<PodView>, m: UpdateProperties) -> bool {
        &&& fs.len() >= 1
        &&& is_dict(fs[0]) && m.props@ == dict_of(fs[0])
    }

    /// Encodes the payload as a struct pod with the fields in order.
    pub fn to_value(&self) -> (r: Result<Value, PodError>)
        ensures
            match r {
                Ok(value) => value@ == PodView::Struct(self.spec_fields()),
                Err(_) => self.props@.len() > 0x7fff_ffff,
            },
    {
        let mut fields: Vec<Value> = Vec::new();
        fields.push(v_dict(&self.props)?);
        let r = Value::Struct(fields);
        proof {
            lemma_pod_views(fields@);
            assert forall|j: int|
                0 <= j < fields@.len() implies pod_views(fields@)[j] == self.spec_fields()[j] by {
                assert(pod_views(fields@)[j] == fields@[j]@);
            }
            assert(pod_views(fields@) =~= self.spec_fields());
        }
        Ok(r)
    }

    /// Decodes the payload from a struct pod, pulling fields in declared
    /// order; missing trailing fields fail, extra ones are tolerated.
    pub fn from_value(v: &Value) -> (r: Result<UpdateProperties, PodError>)
        ensures
            match r {
                Ok(m) => v@ matches PodView::Struct(fs) && UpdateProperties::parses(fs, m),
                Err(e) => !(v@ matches PodView::Struct(fs) && UpdateProperties::field_shape(fs)) && (e
                    == PodError::InvalidType || e == PodError::PropertyMissing) && (e
                    == PodError::PropertyMissing ==> (v@ matches PodView::Struct(fs2)
                    && fs2.len() < 1)),
            },
    {
        match v {
            Value::Struct(fields) => {
                proof {
                    lemma_pod_views(fields@);
                }
                let pos: usize = 0;
                let (props, pos) = read_dict(fields, pos)?;
                let m = UpdateProperties { props };
                proof {
                    assert(UpdateProperties::parses(pod_views(fields@), m));
                }
                Ok(m)
            },
            _ => Err(PodError::InvalidType),
        }
    }
}

impl MessageOpCode for UpdateProperties {
    open spec fn spec_op_code() -> u32 {
        2
    }

    fn op_code() -> (r: u32) {
        2
    }
}

/// Client method: fetch a window of permission entries.
#[derive(Debug, PartialEq)]
pub struct GetPermissions {
    pub index: i32,
    pub num: i32,
}

impl GetPermissions {
    /// The payload's struct-pod fields, in declared order.
    pub open spec fn spec_fields(self) -> Seq<PodView> {
        seq![
            PodView::Int(self.index),
            PodView::Int(self.num),
        ]
    }

    /// Whether struct-pod fields begin with this message's shape.
    pub open spec fn field_shape(fs: Seq<PodView>) -> bool {
        &&& fs.len() >= 2
        &&& fs[0] is Int
        &&& fs[1] is Int
    }

    /// Whether `m` is exactly the message the leading fields carry.
    pub open spec fn parses(fs: Seq<PodView>, m: GetPermissions) -> bool {
        &&& fs.len() >= 2
        &&& fs[0] == PodView::Int(m.index)
        &&& fs[1] == PodView::Int(m.num)
    }

    /// Encodes the payload as a struct pod with the fields in order.
    pub fn to_value(&self) -> (r: Value)
        ensures
            r@ == PodView::Struct(self.spec_fields()),
    {
        let mut fields: Vec<Value> = Vec::new();
        fields.push(Value::Int(self.index));
        fields.push(Value::Int(self.num));
        let r = Value::Struct(fields);
        proof {
            lemma_pod_views(fields@);
            assert forall|j: int|
                0 <= j < fields@.len() implies pod_views(fields@)[j] == self.spec_fields()[j] by {
                assert(pod_views(fields@)[j] == fields@[j]@);
            }
            assert(pod_views(fields@) =~= self.spec_fields());
        }
        r
    }

    /// Decodes the payload from a struct pod, pulling fields in declared
    /// order; missing trailing fields fail, extra ones are tolerated.
    pub fn from_value(v: &Value) -> (r: Result<GetPermissions, PodError>)
        ensures
            match r {
                Ok(m) => v@ matches PodView::Struct(fs) && GetPermissions::parses(fs, m),
                Err(e) => !(v@ matches PodView::Struct(fs) && GetPermissions::field_shape(fs)) && (e
                    == PodError::InvalidType || e == PodError::PropertyMissing) && (e
                    == PodError::PropertyMissing ==> (v@ matches PodView::Struct(fs2)
                    && fs2.len() < 2)),
            },
    {
        match v {
            Value::Struct(fields) => {
                proof {
                    lemma_pod_views(fields@);
                }
                let pos: usize = 0;
                let (index, pos) = read_int(fields, pos)?;
                let (num, pos) = read_int(fields, pos)?;
                let m = GetPermissions { index, num };
                proof {
                    assert(GetPermissions::parses(pod_views(fields@), m));
                }
                Ok(m)
            },
            _ => Err(PodError::InvalidType),
        }
    }
}

impl MessageOpCode for GetPermissions {
    open spec fn spec_op_code() -> u32 {
        3
    }

    fn op_code() -> (r: u32) {
        3
    }
}

/// Client method: update permission entries.
#[derive(Debug, PartialEq)]
pub struct UpdatePermissions {
    pub index: i32,
    pub num: i32,
}

impl UpdatePermissions {
    /// The payload's struct-pod fields, in declared order.
    pub open spec fn spec_fields(self) -> Seq<PodView> {
        seq![
            PodView::Int(self.index),
            PodView::Int(self.num),
        ]
    }

    /// Whether struct-pod fields begin with this message's shape.
    pub open spec fn field_shape(fs: Seq<PodView>) -> bool {
        &&& fs.len() >= 2
        &&& fs[0] is Int
        &&& fs[1] is Int
    }

    /// Whether `m` is exactly the message the leading fields carry.
    pub open spec fn parses(fs: Seq<PodView>, m: UpdatePermissions) -> bool {
        &&& fs.len() >= 2
        &&& fs[0] == PodView::Int(m.index)
        &&& fs[1] == PodView::Int(m.num)
    }

    /// Encodes the payload as a struct pod with the fields in order.
    pub fn to_value(&self) -> (r: Value)
        ensures
            r@ == PodView::Struct(self.spec_fields()),
    {
        let mut fields: Vec<Value> = Vec::new();
        fields.push(Value::Int(self.index));
        fields.push(Value::Int(self.num));
        let r = Value::Struct(fields);
        proof {
            lemma_pod_views(fields@);
            assert forall|j: int|
                0 <= j < fields@.len() implies pod_views(fields@)[j] == self.spec_fields()[j] by {
                assert(pod_views(fields@)[j] == fields@[j]@);
            }
            assert(pod_views(fields@) =~= self.spec_fields());
        }
        r
    }

    /// Decodes the payload from a struct pod, pulling fields in declared
    /// order; missing trailing fields fail, extra ones are tolerated.
    pub fn from_value(v: &Value) -> (r: Result<UpdatePermissions, PodError>)
        ensures
            match r {
                Ok(m) => v@ matches PodView::Struct(fs) && UpdatePermissions::parses(fs, m),
                Err(e) => !(v@ matches PodView::Struct(fs) && UpdatePermissions::field_shape(fs)) && (e
                    == PodError::InvalidType || e == PodError::PropertyMissing) && (e
                    == PodError::PropertyMissing ==> (v@ matches PodView::Struct(fs2)
                    && fs2.len() < 2)),
            },
    {
        match v {
            Value::Struct(fields) => {
                proof {
                    lemma_pod_views(fields@);
                }
                let pos: usize = 0;
                let (index, pos) = read_int(fields, pos)?;
                let (num, pos) = read_int(fields, pos)?;
                let m = UpdatePermissions { index, num };
                proof {
                    assert(UpdatePermissions::parses(pod_views(fields@), m));
                }
                Ok(m)
            },
            _ => Err(PodError::InvalidType),
        }
    }
}

impl MessageOpCode for UpdatePermissions {
    open spec fn spec_op_code() -> u32 {
        4
    }

    fn op_code() -> (r: u32) {
        4
    }
}

/// Client event: client information.
#[derive(Debug, PartialEq)]
pub struct Info {
    pub id: i32,
    pub change_mask: i64,
    pub props: Dict,
}

impl Info {
    /// The payload's struct-pod fields, in declared order.
    pub open spec fn spec_fields(self) -> Seq<PodView> {
        seq![
            PodView::Int(self.id),
            PodView::Long(self.change_mask),
            dict_pod(self.props@),
        ]
    }

    /// Whether struct-pod fields begin with this message's shape.
    pub open spec fn field_shape(fs: Seq<PodView>) -> bool {
        &&& fs.len() >= 3
        &&& fs[0] is Int
        &&& fs[1] is Long
        &&& is_dict(fs[2])
    }

    /// Whether `m` is exactly the message the leading fields carry.
    pub open spec fn parses(fs: Seq<PodView>, m: Info) -> bool {
        &&& fs.len() >= 3
        &&& fs[0] == PodView::Int(m.id)
        &&& fs[1] == PodView::Long(m.change_mask)
        &&& is_dict(fs[2]) && m.props@ == dict_of(fs[2])
    }

    /// Encodes the payload as a struct pod with the fields in order.
    pub fn to_value(&self) -> (r: Result<Value, PodError>)
        ensures
            match r {
                Ok(value) => value@ == PodView::Struct(self.spec_fields()),
                Err(_) => self.props@.len() > 0x7fff_ffff,
            },
    {
        let mut fields: Vec<Value> = Vec::new();
        fields.push(Value::Int(self.id));
        fields.push(Value::Long(self.change_mask));
        fields.push(v_dict(&self.props)?);
        let r = Value::Struct(fields);
        proof {
            lemma_pod_views(fields@);
            assert forall|j: int|
                0 <= j < fields@.len() implies pod_views(fields@)[j] == self.spec_fields()[j] by {
                assert(pod_views(fields@)[j] == fields@[j]@);
            }
            assert(pod_views(fields@) =~= self.spec_fields());
        }
        Ok(r)
    }

    /// Decodes the payload from a struct pod, pulling fields in declared
    /// order; missing trailing fields fail, extra ones are tolerated.
    pub fn from_value(v: &Value) -> (r: Result<Info, PodError>)
        ensures
            match r {
                Ok(m) => v@ matches PodView::Struct(fs) && Info::parses(fs, m),
                Err(e) => !(v@ matches PodView::Struct(fs) && Info::field_shape(fs)) && (e
                    == PodError::InvalidType || e == PodError::PropertyMissing) && (e
                    == PodError::PropertyMissing ==> (v@ matches PodView::Struct(fs2)
                    && fs2.len() < 3)),
            },
    {
        match v {
            Value::Struct(fields) => {
                proof {
                    lemma_pod_views(fields@);
                }
                let pos: usize = 0;
                let (id, pos) = read_int(fields, pos)?;
                let (change_mask, pos) = read_long(fields, pos)?;
                let (props, pos) = read_dict(fields, pos)?;
                let m = Info { id, change_mask, props };
                proof {
                    assert(Info::parses(pod_views(fields@), m));
                }
                Ok(m)
            },
            _ => Err(PodError::InvalidType),
        }
    }
}

impl MessageOpCode for Info {
    open spec fn spec_op_code() -> u32 {
        0
    }

    fn op_code() -> (r: u32) {
        0
    }
}

/// Client event: a window of permission entries.
#[derive(Debug, PartialEq)]
pub struct Permissions {
    pub index: i32,
    pub permissions: IntMap,
}

impl Permissions {
    /// The payload's struct-pod fields, in declared order.
    pub open spec fn spec_fields(self) -> Seq<PodView> {
        seq![
            PodView::Int(self.index),
            int_map_pod(self.permissions@),
        ]
    }

    /// Whether struct-pod fields begin with this message's shape.
    pub open spec fn field_shape(fs: Seq<PodView>) -> bool {
        &&& fs.len() >= 2
        &&& fs[0] is Int
        &&& is_int_map(fs[1])
    }

    /// Whether `m` is exactly the message the leading fields carry.
    pub open spec fn parses(fs: Seq<PodView>, m: Permissions) -> bool {
        &&& fs.len() >= 2
        &&& fs[0] == PodView::Int(m.index)
        &&& is_int_map(fs[1]) && m.permissions@ == int_map_of(fs[1])
    }

    /// Encodes the payload as a struct pod with the fields in order.
    pub fn to_value(&self) -> (r: Result<Value, PodError>)
        ensures
            match r {
                Ok(value) => value@ == PodView::Struct(self.spec_fields()),
                Err(_) => self.permissions@.len() > 0x7fff_ffff,
            },
    {
        let mut fields: Vec<Value> = Vec::new();
        fields.push(Value::Int(self.index));
        fields.push(v_int_map(&self.permissions)?);
        let r = Value::Struct(fields);
        proof {
            lemma_pod_views(fields@);
            assert forall|j: int|
                0 <= j < fields@.len() implies pod_views(fields@)[j] == self.spec_fields()[j] by {
                assert(pod_views(fields@)[j] == fields@[j]@);
            }
            assert(pod_views(fields@) =~= self.spec_fields());
        }
        Ok(r)
    }

    /// Decodes the payload from a struct pod, pulling fields in declared
    /// order; missing trailing fields fail, extra ones are tolerated.
    pub fn from_value(v: &Value) -> (r: Result<Permissions, PodError>)
        ensures
            match r {
                Ok(m) => v@ matches PodView::Struct(fs) && Permissions::parses(fs, m),
                Err(e) => !(v@ matches PodView::Struct(fs) && Permissions::field_shape(fs)) && (e
                    == PodError::InvalidType || e == PodError::PropertyMissing) && (e
                    == PodError::PropertyMissing ==> (v@ matches PodView::Struct(fs2)
                    && fs2.len() < 2)),
            },
    {
        match v {
            Value::Struct(fields) => {
                proof {
                    lemma_pod_views(fields@);
                }
                let pos: usize = 0;
                let (index, pos) = read_int(fields, pos)?;
                let (permissions, pos) = read_int_map(fields, pos)?;
                let m = Permissions { index, permissions };
                proof {
                    assert(Permissions::parses(pod_views(fields@), m));
                }
                Ok(m)
            },
            _ => Err(PodError::InvalidType),
        }
    }
}

impl MessageOpCode for Permissions {
    open spec fn spec_op_code() -> u32 {
        1
    }

    fn op_code() -> (r: u32) {
        1
    }
}

/// Events of the Client interface (object id 1).
#[derive(Debug, PartialEq)]
pub enum ClientEvent {
    Info(Info),
    Permissions(Permissions),
    /// A sync barrier fanned out to this proxy (see the connection router).
    Done(crate::core_proxy::Done),
}

impl ClientEvent {
    /// Whether an opcode is in this interface's event table and the body
    /// fields fit the event's shape.
    pub open spec fn event_shape(opcode: u32, fs: Seq<PodView>) -> bool {
        if opcode == 0 {
            Info::field_shape(fs)
        } else if opcode == 1 {
            Permissions::field_shape(fs)
        } else {
            false
        }
    }

    /// Whether `e` is exactly the event this opcode and body carry.
    pub open spec fn event_parses(opcode: u32, fs: Seq<PodView>, e: ClientEvent) -> bool {
        if opcode == 0 {
            e matches ClientEvent::Info(m) && Info::parses(fs, m)
        } else if opcode == 1 {
            e matches ClientEvent::Permissions(m) && Permissions::parses(fs, m)
        } else {
            false
        }
    }

    /// Decodes the event an opcode and a payload pod carry.
    pub fn from_body(opcode: u32, body: &Value) -> (r: Result<ClientEvent, PodError>)
        ensures
            match r {
                Ok(e) => body@ matches PodView::Struct(fs) && ClientEvent::event_parses(opcode, fs, e),
                Err(_) => !(body@ matches PodView::Struct(fs) && ClientEvent::event_shape(
                    opcode,
                    fs,
                )),
            },
    {
        if opcode == 0 {
            match Info::from_value(body) {
                Ok(m) => Ok(ClientEvent::Info(m)),
                Err(e) => Err(e),
            }
        } else if opcode == 1 {
            match Permissions::from_value(body) {
                Ok(m) => Ok(ClientEvent::Permissions(m)),
                Err(e) => Err(e),
            }
        } else {
            Err(PodError::InvalidType)
        }
    }
}

impl DeserializeFromOpCode for ClientEvent {
    open spec fn spec_event_shape(opcode: u32, fs: Seq<crate::value::PodView>) -> bool {
        ClientEvent::event_shape(opcode, fs)
    }

    open spec fn spec_event_parses(opcode: u32, fs: Seq<crate::value::PodView>, e: ClientEvent) -> bool {
        ClientEvent::event_parses(opcode, fs, e)
    }
    /// Parses the buffer's leading pod and decodes it by opcode.
    fn deserialize_from_opcode(opcode: u32, buffer: &Vec<u8>) -> Result<(ClientEvent, usize), PodError> {
        match crate::deserialize::deserialize_pod(buffer, 0) {
            Ok((v, np)) => match ClientEvent::from_body(opcode, &v) {
                Ok(e) => Ok((e, np)),
                Err(e) => Err(e),
            },
            Err(e) => Err(e),
        }
    }
}

/// The compute part of `Client.update_properties`: frames
/// `UpdateProperties { props }` for the client object. Fails exactly
/// when the dictionary is too large for the wire (an entry count beyond
/// `i32`, or an encoding beyond the header's 24-bit size field), and
/// then changes nothing.
pub fn update_properties_frame(w: &mut crate::PipewireWriter, props: Dict) -> (r: Result<
    Vec<u8>,
    PodError,
>)
    requires
        old(w).seq < 0xffff_ffff,
    ensures
        r matches Ok(frame) ==> frame@ == crate::method_frame(
            CLIENT_ID,
            2,
            old(w).seq,
            PodView::Struct((UpdateProperties { props }).spec_fields()),
        ) && final(w).seq == old(w).seq + 1,
        r is Err ==> *final(w) == *old(w) && (props@.len() > 0x7fff_ffff || !crate::frameable(
            PodView::Struct((UpdateProperties { props }).spec_fields()),
        )),
        props@.len() <= 0x7fff_ffff && crate::frameable(
            PodView::Struct((UpdateProperties { props }).spec_fields()),
        ) ==> r is Ok,
{
    let msg = UpdateProperties { props };
    let payload = match msg.to_value() {
        Ok(v) => v,
        Err(e) => {
            return Err(e);
        },
    };
    w.call_method(CLIENT_ID, 2, &payload)
}

} // verus!
