//! The Registry interface: enumeration of the server's global objects.

use vstd::prelude::*;

use crate::error::PodError;
use crate::message::{
    clone_value, dict_of, dict_pod, int_map_of, int_map_pod, is_dict, is_int_map, read_bool,
    read_dict, read_fd, read_id, read_id_array, read_int, read_int_map, read_long, read_string,
    read_value, v_dict, v_id_array, v_int_map, v_string, Dict, IntMap,
};
use crate::opcode::{DeserializeFromOpCode, MessageOpCode};
use crate::value::{
    fview_id, lemma_pod_views, pod_views, ArrayView, Fd, Id, PodView, Value,
};

verus! {

/// The registry interface version requested on `GetRegistry`.
pub const REGISTRY_VERSION: i32 = 3;

/// Registry method: bind a global to a caller-allocated proxy id.
#[derive(Debug, PartialEq)]
pub struct Bind {
    pub id: i32,
    pub type_: Vec<u8>,
    pub version: i32,
    pub new_id: i32,
}

impl Bind {
    /// The payload's struct-pod fields, in declared order.
    pub open spec fn spec_fields(self) -> Seq<PodView> {
        seq![
            PodView::Int(self.id),
            PodView::String(self.type_@),
            PodView::Int(self.version),
            PodView::Int(self.new_id),
        ]
    }

    /// Whether struct-pod fields begin with this message's shape.
    pub open spec fn field_shape(fs: Seq<PodView>) -> bool {
        &&& fs.len() >= 4
        &&& fs[0] is Int
        &&& fs[1] is String
        &&& fs[2] is Int
        &&& fs[3] is Int
    }

    /// Whether `m` is exactly the message the leading fields carry.
    pub open spec fn parses(fs: Seq<PodView>, m: Bind) -> bool {
        &&& fs.len() >= 4
        &&& fs[0] == PodView::Int(m.id)
        &&& fs[1] == PodView::String(m.type_@)
        &&& fs[2] == PodView::Int(m.version)
        &&& fs[3] == PodView::Int(m.new_id)
    }

    /// Encodes the payload as a struct pod with the fields in order.
    pub fn to_value(&self) -> (r: Value)
        ensures
            r@ == PodView::Struct(self.spec_fields()),
    {
        let mut fields: Vec<Value> = Vec::new();
        fields.push(Value::Int(self.id));
        fields.push(v_string(&self.type_));
        fields.push(Value::Int(self.version));
        fields.push(Value::Int(self.new_id));
        let r = Value::Struct(fields);
        proof {
            lemma_pod_views(fields@);
            assert forall|j: int|
                0 <= j < fields@.len() implies pod_views(fields@)[j] == self.spec_fields()[j] by {
                assert(pod_views(fields@)[j] == fields@[j]@);
            }
            assert(pod_views(fields@) =~= self.spec_fields());
        }
        r
    }

    /// Decodes the payload from a struct pod, pulling fields in declared
    /// order; missing trailing fields fail, extra ones are tolerated.
    pub fn from_value(v: &Value) -> (r: Result<Bind, PodError>)
        ensures
            match r {
                Ok(m) => v@ matches PodView::Struct(fs) && Bind::parses(fs, m),
                Err(e) => !(v@ matches PodView::Struct(fs) && Bind::field_shape(fs)) && (e
                    == PodError::InvalidType || e == PodError::PropertyMissing) && (e
                    == PodError::PropertyMissing ==> (v@ matches PodView::Struct(fs2)
                    && fs2.len() < 4)),
            },
    {
        match v {
            Value::Struct(fields) => {
                proof {
                    lemma_pod_views(fields@);
                }
                let pos: usize = 0;
                let (id, pos) = read_int(fields, pos)?;
                let (type_, pos) = read_string(fields, pos)?;
                let (version, pos) = read_int(fields, pos)?;
                let (new_id, pos) = read_int(fields, pos)?;
                let m = Bind { id, type_, version, new_id };
                proof {
                    assert(Bind::parses(pod_views(fields@), m));
                }
                Ok(m)
            },
            _ => Err(PodError::InvalidType),
        }
    }
}

impl MessageOpCode for Bind {
    open spec fn spec_op_code() -> u32 {
        1
    }

    fn op_code() -> (r: u32) {
        1
    }
}

/// Registry method: ask the server to destroy a global.
#[derive(Debug, PartialEq)]
pub struct Destroy {
    pub id: i32,
}

impl Destroy {
    /// The payload's struct-pod fields, in declared order.
    pub open spec fn spec_fields(self) -> Seq<PodView> {
        seq![
            PodView::Int(self.id),
        ]
    }

    /// Whether struct-pod fields begin with this message's shape.
    pub open spec fn field_shape(fs: Seq<PodView>) -> bool {
        &&& fs.len() >= 1
        &&& fs[0] is Int
    }

    /// Whether `m` is exactly the message the leading fields carry.
    pub open spec fn parses(fs: Seq<PodView>, m: Destroy) -> bool {
        &&& fs.len() >= 1
        &&& fs[0] == PodView::Int(m.id)
    }

    /// Encodes the payload as a struct pod with the fields in order.
    pub fn to_value(&self) -> (r: Value)
        ensures
            r@ == PodView::Struct(self.spec_fields()),
    {
        let mut fields: Vec<Value> = Vec::new();
        fields.push(Value::Int(self.id));
        let r = Value::Struct(fields);
        proof {
            lemma_pod_views(fields@);
            assert forall|j: int|
                0 <= j < fields@.len() implies pod_views(fields@)[j] == self.spec_fields()[j] by {
                assert(pod_views(fields@)[j] == fields@[j]@);
            }
            assert(pod_views(fields@) =~= self.spec_fields());
        }
        r
    }

    /// Decodes the payload from a struct pod, pulling fields in declared
    /// order; missing trailing fields fail, extra ones are tolerated.
    pub fn from_value(v: &Value) -> (r: Result<Destroy, PodError>)
        ensures
            match r {
                Ok(m) => v@ matches PodView::Struct(fs) && Destroy::parses(fs, m),
                Err(e) => !(v@ matches PodView::Struct(fs) && Destroy::field_shape(fs)) && (e
                    == PodError::InvalidType || e == PodError::PropertyMissing) && (e
                    == PodError::PropertyMissing ==> (v@ matches PodView::Struct(fs2)
                    && fs2.len() < 1)),
            },
    {
        match v {
            Value::Struct(fields) => {
                proof {
                    lemma_pod_views(fields@);
                }
                let pos: usize = 0;
                let (id, pos) = read_int(fields, pos)?;
                let m = Destroy { id };
                proof {
                    assert(Destroy::parses(pod_views(fields@), m));
                }
                Ok(m)
            },
            _ => Err(PodError::InvalidType),
        }
    }
}

impl MessageOpCode for Destroy {
    open spec fn spec_op_code() -> u32 {
        2
    }

    fn op_code() -> (r: u32) {
        2
    }
}

/// Registry event: a global object exists.
#[derive(Debug, PartialEq)]
pub struct Global {
    pub id: i32,
    pub permissions: i32,
    pub type_: Vec<u8>,
    pub version: i32,
    pub props: Dict,
}

impl Global {
    /// The payload's struct-pod fields, in declared order.
    pub open spec fn spec_fields(self) -> Seq<PodView> {
        seq![
            PodView::Int(self.id),
            PodView::Int(self.permissions),
            PodView::String(self.type_@),
            PodView::Int(self.version),
            dict_pod(self.props@),
        ]
    }

    /// Whether struct-pod fields begin with this message's shape.
    pub open spec fn field_shape(fs: Seq<PodView>) -> bool {
        &&& fs.len() >= 5
        &&& fs[0] is Int
        &&& fs[1] is Int
        &&& fs[2] is String
        &&& fs[3] is Int
        &&& is_dict(fs[4])
    }

    /// Whether `m` is exactly the message the leading fields carry.
    pub open spec fn parses(fs: Seq<PodView>, m: Global) -> bool {
        &&& fs.len() >= 5
        &&& fs[0] == PodView::Int(m.id)
        &&& fs[1] == PodView::Int(m.permissions)
        &&& fs[2] == PodView::String(m.type_@)
        &&& fs[3] == PodView::Int(m.version)
        &&& is_dict(fs[4]) && m.props@ == dict_of(fs[4])
    }

    /// Encodes the payload as a struct pod with the fields in order.
    pub fn to_value(&self) -> (r: Result<Value, PodError>)
        ensures
            match r {
                Ok(value) => value@ == PodView::Struct(self.spec_fields()),
                Err(_) => self.props@.len() > 0x7fff_ffff,
            },
    {
        let mut fields: Vec<Value> = Vec::new();
        fields.push(Value::Int(self.id));
        fields.push(Value::Int(self.permissions));
        fields.push(v_string(&self.type_));
        fields.push(Value::Int(self.version));
        fields.push(v_dict(&self.props)?);
        let r = Value::Struct(fields);
        proof {
            lemma_pod_views(fields@);
            assert forall|j: int|
                0 <= j < fields@.len() implies pod_views(fields@)[j] == self.spec_fields()[j] by {
                assert(pod_views(fields@)[j] == fields@[j]@);
            }
            assert(pod_views(fields@) =~= self.spec_fields());
        }
        Ok(r)
    }

    /// Decodes the payload from a struct pod, pulling fields in declared
    /// order; missing trailing fields fail, extra ones are tolerated.
    pub fn from_value(v: &Value) -> (r: Result<Global, PodError>)
        ensures
            match r {
                Ok(m) => v@ matches PodView::Struct(fs) && Global::parses(fs, m),
                Err(e) => !(v@ matches PodView::Struct(fs) && Global::field_shape(fs)) && (e
                    == PodError::InvalidType || e == PodError::PropertyMissing) && (e
                    == PodError::PropertyMissing ==> (v@ matches PodView::Struct(fs2)
                    && fs2.len() < 5)),
            },
    {
        match v {
            Value::Struct(fields) => {
                proof {
                    lemma_pod_views(fields@);
                }
                let pos: usize = 0;
                let (id, pos) = read_int(fields, pos)?;
                let (permissions, pos) = read_int(fields, pos)?;
                let (type_, pos) = read_string(fields, pos)?;
                let (version, pos) = read_int(fields, pos)?;
                let (props, pos) = read_dict(fields, pos)?;
                let m = Global { id, permissions, type_, version, props };
                proof {
                    assert(Global::parses(pod_views(fields@), m));
                }
                Ok(m)
            },
            _ => Err(PodError::InvalidType),
        }
    }
}

impl MessageOpCode for Global {
    open spec fn spec_op_code() -> u32 {
        0
    }

    fn op_code() -> (r: u32) {
        0
    }
}

/// Registry event: a global object went away.
#[derive(Debug, PartialEq)]
pub struct GlobalRemove {
    pub id: i32,
}

impl GlobalRemove {
    /// The payload's struct-pod fields, in declared order.
    pub open spec fn spec_fields(self) -> Seq<PodView> {
        seq![
            PodView::Int(self.id),
        ]
    }

    /// Whether struct-pod fields begin with this message's shape.
    pub open spec fn field_shape(fs: Seq<PodView>) -> bool {
        &&& fs.len() >= 1
        &&& fs[0] is Int
    }

    /// Whether `m` is exactly the message the leading fields carry.
    pub open spec fn parses(fs: Seq<PodView>, m: GlobalRemove) -> bool {
        &&& fs.len() >= 1
        &&& fs[0] == PodView::Int(m.id)
    }

    /// Encodes the payload as a struct pod with the fields in order.
    pub fn to_value(&self) -> (r: Value)
        ensures
            r@ == PodView::Struct(self.spec_fields()),
    {
        let mut fields: Vec<Value> = Vec::new();
        fields.push(Value::Int(self.id));
        let r = Value::Struct(fields);
        proof {
            lemma_pod_views(fields@);
            assert forall|j: int|
                0 <= j < fields@.len() implies pod_views(fields@)[j] == self.spec_fields()[j] by {
                assert(pod_views(fields@)[j] == fields@[j]@);
            }
            assert(pod_views(fields@) =~= self.spec_fields());
        }
        r
    }

    /// Decodes the payload from a struct pod, pulling fields in declared
    /// order; missing trailing fields fail, extra ones are tolerated.
    pub fn from_value(v: &Value) -> (r: Result<GlobalRemove, PodError>)
        ensures
            match r {
                Ok(m) => v@ matches PodView::Struct(fs) && GlobalRemove::parses(fs, m),
                Err(e) => !(v@ matches PodView::Struct(fs) && GlobalRemove::field_shape(fs)) && (e
                    == PodError::InvalidType || e == PodError::PropertyMissing) && (e
                    == PodError::PropertyMissing ==> (v@ matches PodView::Struct(fs2)
                    && fs2.len() < 1)),
            },
    {
        match v {
            Value::Struct(fields) => {
                proof {
                    lemma_pod_views(fields@);
                }
                let pos: usize = 0;
                let (id, pos) = read_int(fields, pos)?;
                let m = GlobalRemove { id };
                proof {
                    assert(GlobalRemove::parses(pod_views(fields@), m));
                }
                Ok(m)
            },
            _ => Err(PodError::InvalidType),
        }
    }
}

impl MessageOpCode for GlobalRemove {
    open spec fn spec_op_code() -> u32 {
        1
    }

    fn op_code() -> (r: u32) {
        1
    }
}

/// Events of the Registry interface.
#[derive(Debug, PartialEq)]
pub enum RegistryEvent {
    Global(Global),
    GlobalRemove(GlobalRemove),
    /// A sync barrier fanned out to this proxy (see the connection router).
    Done(crate::core_proxy::Done),
}

impl RegistryEvent {
    /// Whether an opcode is in this interface's event table and the body
    /// fields fit the event's shape.
    pub open spec fn event_shape(opcode: u32, fs: Seq<PodView>) -> bool {
        if opcode == 0 {
            Global::field_shape(fs)
        } else if opcode == 1 {
            GlobalRemove::field_shape(fs)
        } else {
            false
        }
    }

    /// Whether `e` is exactly the event this opcode and body carry.
    pub open spec fn event_parses(opcode: u32, fs: Seq<PodView>, e: RegistryEvent) -> bool {
        if opcode == 0 {
            e matches RegistryEvent::Global(m) && Global::parses(fs, m)
        } else if opcode == 1 {
            e matches RegistryEvent::GlobalRemove(m) && GlobalRemove::parses(fs, m)
        } else {
            false
        }
    }

    /// Decodes the event an opcode and a payload pod carry.
    pub fn from_body(opcode: u32, body: &Value) -> (r: Result<RegistryEvent, PodError>)
        ensures
            match r {
                Ok(e) => body@ matches PodView::Struct(fs) && RegistryEvent::event_parses(opcode, fs, e),
                Err(_) => !(body@ matches PodView::Struct(fs) && RegistryEvent::event_shape(
                    opcode,
                    fs,
                )),
            },
    {
        if opcode == 0 {
            match Global::from_value(body) {
                Ok(m) => Ok(RegistryEvent::Global(m)),
                Err(e) => Err(e),
            }
        } else if opcode == 1 {
            match GlobalRemove::from_value(body) {
                Ok(m) => Ok(RegistryEvent::GlobalRemove(m)),
                Err(e) => Err(e),
            }
        } else {
            Err(PodError::InvalidType)
        }
    }
}

impl DeserializeFromOpCode for RegistryEvent {
    open spec fn spec_event_shape(opcode: u32, fs: Seq<crate::value::PodView>) -> bool {
        RegistryEvent::event_shape(opcode, fs)
    }

    open spec fn spec_event_parses(opcode: u32, fs: Seq<crate::value::PodView>, e: RegistryEvent) -> bool {
        RegistryEvent::event_parses(opcode, fs, e)
    }
    /// Parses the buffer's leading pod and decodes it by opcode.
    fn deserialize_from_opcode(opcode: u32, buffer: &Vec<u8>) -> Result<(RegistryEvent, usize), PodError> {
        match crate::deserialize::deserialize_pod(buffer, 0) {
            Ok((v, np)) => match RegistryEvent::from_body(opcode, &v) {
                Ok(e) => Ok((e, np)),
                Err(e) => Err(e),
            },
            Err(e) => Err(e),
        }
    }
}

} // verus!
