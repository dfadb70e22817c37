//! The Core interface: methods and events of the server core (object id 0).

use vstd::prelude::*;

use crate::error::PodError;
use crate::message::{
    clone_value, dict_of, dict_pod, int_map_of, int_map_pod, is_dict, is_int_map, read_bool,
    read_dict, read_fd, read_id, read_id_array, read_int, read_int_map, read_long, read_string,
    read_value, v_dict, v_id_array, v_int_map, v_string, Dict, IntMap,
};
use crate::opcode::{DeserializeFromOpCode, MessageOpCode};
use crate::value::{
    fview_id, lemma_pod_views, pod_views, ArrayView, Fd, Id, PodView, Value,
};

verus! {

pub const CORE_ID: i32 = 0;

/// The protocol version sent in `Hello`.
pub const CORE_VERSION: i32 = 3;

/// Core method: the first message on every connection.
#[derive(Debug, PartialEq)]
pub struct Hello {
    pub version: i32,
}

impl Hello {
    /// The payload's struct-pod fields, in declared order.
    pub open spec fn spec_fields(self) -> Seq<PodView> {
        seq![
            PodView::Int(self.version),
        ]
    }

    /// Whether struct-pod fields begin with this message's shape.
    pub open spec fn field_shape(fs: Seq<PodView>) -> bool {
        &&& fs.len() >= 1
        &&& fs[0] is Int
    }

    /// Whether `m` is exactly the message the leading fields carry.
    pub open spec fn parses(fs: Seq<PodView>, m: Hello) -> bool {
        &&& fs.len() >= 1
        &&& fs[0] == PodView::Int(m.version)
    }

    /// Encodes the payload as a struct pod with the fields in order.
    pub fn to_value(&self) -> (r: Value)
        ensures
            r@ == PodView::Struct(self.spec_fields()),
    {
        let mut fields: Vec<Value> = Vec::new();
        fields.push(Value::Int(self.version));
        let r = Value::Struct(fields);
        proof {
            lemma_pod_views(fields@);
            assert forall|j: int|
                0 <= j < fields@.len() implies pod_views(fields@)[j] == self.spec_fields()[j] by {
                assert(pod_views(fields@)[j] == fields@[j]@);
            }
            assert(pod_views(fields@) =~= self.spec_fields());
        }
        r
    }

    /// Decodes the payload from a struct pod, pulling fields in declared
    /// order; missing trailing fields fail, extra ones are tolerated.
    pub fn from_value(v: &Value) -> (r: Result<Hello, PodError>)
        ensures
            match r {
                Ok(m) => v@ matches PodView::Struct(fs) && Hello::parses(fs, m),
                Err(e) => !(v@ matches PodView::Struct(fs) && Hello::field_shape(fs)) && (e
                    == PodError::InvalidType || e == PodError::PropertyMissing) && (e
                    == PodError::PropertyMissing ==> (v@ matches PodView::Struct(fs2)
                    && fs2.len() < 1)),
            },
    {
        match v {
            Value::Struct(fields) => {
                proof {
                    lemma_pod_views(fields@);
                }
                let pos: usize = 0;
                let (version, pos) = read_int(fields, pos)?;
                let m = Hello { version };
                proof {
                    assert(Hello::parses(pod_views(fields@), m));
                }
                Ok(m)
            },
            _ => Err(PodError::InvalidType),
        }
    }
}

impl MessageOpCode for Hello {
    open spec fn spec_op_code() -> u32 {
        1
    }

    fn op_code() -> (r: u32) {
        1
    }
}

/// Core method: ask the server to echo `Done { id, seq }` once all events in flight are delivered.
#[derive(Debug, PartialEq)]
pub struct Sync {
    pub id: i32,
    pub seq: i32,
}

impl Sync {
    /// The payload's struct-pod fields, in declared order.
    pub open spec fn spec_fields(self) -> Seq<PodView> {
        seq![
            PodView::Int(self.id),
            PodView::Int(self.seq),
        ]
    }

    /// Whether struct-pod fields begin with this message's shape.
    pub open spec fn field_shape(fs: Seq<PodView>) -> bool {
        &&& fs.len() >= 2
        &&& fs[0] is Int
        &&& fs[1] is Int
    }

    /// Whether `m` is exactly the message the leading fields carry.
    pub open spec fn parses(fs: Seq<PodView>, m: Sync) -> bool {
        &&& fs.len() >= 2
        &&& fs[0] == PodView::Int(m.id)
        &&& fs[1] == PodView::Int(m.seq)
    }

    /// Encodes the payload as a struct pod with the fields in order.
    pub fn to_value(&self) -> (r: Value)
        ensures
            r@ == PodView::Struct(self.spec_fields()),
    {
        let mut fields: Vec<Value> = Vec::new();
        fields.push(Value::Int(self.id));
        fields.push(Value::Int(self.seq));
        let r = Value::Struct(fields);
        proof {
            lemma_pod_views(fields@);
            assert forall|j: int|
                0 <= j < fields@.len() implies pod_views(fields@)[j] == self.spec_fields()[j] by {
                assert(pod_views(fields@)[j] == fields@[j]@);
            }
            assert(pod_views(fields@) =~= self.spec_fields());
        }
        r
    }

    /// Decodes the payload from a struct pod, pulling fields in declared
    /// order; missing trailing fields fail, extra ones are tolerated.
    pub fn from_value(v: &Value) -> (r: Result<Sync, PodError>)
        ensures
            match r {
                Ok(m) => v@ matches PodView::Struct(fs) && Sync::parses(fs, m),
                Err(e) => !(v@ matches PodView::Struct(fs) && Sync::field_shape(fs)) && (e
                    == PodError::InvalidType || e == PodError::PropertyMissing) && (e
                    == PodError::PropertyMissing ==> (v@ matches PodView::Struct(fs2)
                    && fs2.len() < 2)),
            },
    {
        match v {
            Value::Struct(fields) => {
                proof {
                    lemma_pod_views(fields@);
                }
                let pos: usize = 0;
                let (id, pos) = read_int(fields, pos)?;
                let (seq, pos) = read_int(fields, pos)?;
                let m = Sync { id, seq };
                proof {
                    assert(Sync::parses(pod_views(fields@), m));
                }
                Ok(m)
            },
            _ => Err(PodError::InvalidType),
        }
    }
}

impl MessageOpCode for Sync {
    open spec fn spec_op_code() -> u32 {
        2
    }

    fn op_code() -> (r: u32) {
        2
    }
}

/// Core method: answer to a `Ping` event.
#[derive(Debug, PartialEq)]
pub struct Pong {
    pub id: i32,
    pub seq: i32,
}

impl Pong {
    /// The payload's struct-pod fields, in declared order.
    pub open spec fn spec_fields(self) -> Seq<PodView> {
        seq![
            PodView::Int(self.id),
            PodView::Int(self.seq),
        ]
    }

    /// Whether struct-pod fields begin with this message's shape.
    pub open spec fn field_shape(fs: Seq<PodView>) -> bool {
        &&& fs.len() >= 2
        &&& fs[0] is Int
        &&& fs[1] is Int
    }

    /// Whether `m` is exactly the message the leading fields carry.
    pub open spec fn parses(fs: Seq<PodView>, m: Pong) -> bool {
        &&& fs.len() >= 2
        &&& fs[0] == PodView::Int(m.id)
        &&& fs[1] == PodView::Int(m.seq)
    }

    /// Encodes the payload as a struct pod with the fields in order.
    pub fn to_value(&self) -> (r: Value)
        ensures
            r@ == PodView::Struct(self.spec_fields()),
    {
        let mut fields: Vec<Value> = Vec::new();
        fields.push(Value::Int(self.id));
        fields.push(Value::Int(self.seq));
        let r = Value::Struct(fields);
        proof {
            lemma_pod_views(fields@);
            assert forall|j: int|
                0 <= j < fields@.len() implies pod_views(fields@)[j] == self.spec_fields()[j] by {
                assert(pod_views(fields@)[j] == fields@[j]@);
            }
            assert(pod_views(fields@) =~= self.spec_fields());
        }
        r
    }

    /// Decodes the payload from a struct pod, pulling fields in declared
    /// order; missing trailing fields fail, extra ones are tolerated.
    pub fn from_value(v: &Value) -> (r: Result<Pong, PodError>)
        ensures
            match r {
                Ok(m) => v@ matches PodView::Struct(fs) && Pong::parses(fs, m),
                Err(e) => !(v@ matches PodView::Struct(fs) && Pong::field_shape(fs)) && (e
                    == PodError::InvalidType || e == PodError::PropertyMissing) && (e
                    == PodError::PropertyMissing ==> (v@ matches PodView::Struct(fs2)
                    && fs2.len() < 2)),
            },
    {
        match v {
            Value::Struct(fields) => {
                proof {
                    lemma_pod_views(fields@);
                }
                let pos: usize = 0;
                let (id, pos) = read_int(fields, pos)?;
                let (seq, pos) = read_int(fields, pos)?;
                let m = Pong { id, seq };
                proof {
                    assert(Pong::parses(pod_views(fields@), m));
                }
                Ok(m)
            },
            _ => Err(PodError::InvalidType),
        }
    }
}

impl MessageOpCode for Pong {
    open spec fn spec_op_code() -> u32 {
        3
    }

    fn op_code() -> (r: u32) {
        3
    }
}

/// Core method: report an error on an object (same shape as the event, different opcode).
#[derive(Debug, PartialEq)]
pub struct ErrorMethod {
    pub id: i32,
    pub seq: i32,
    pub res: i32,
    pub message: Vec<u8>,
}

impl ErrorMethod {
    /// The payload's struct-pod fields, in declared order.
    pub open spec fn spec_fields(self) -> Seq<PodView> {
        seq![
            PodView::Int(self.id),
            PodView::Int(self.seq),
            PodView::Int(self.res),
            PodView::String(self.message@),
        ]
    }

    /// Whether struct-pod fields begin with this message's shape.
    pub open spec fn field_shape(fs: Seq<PodView>) -> bool {
        &&& fs.len() >= 4
        &&& fs[0] is Int
        &&& fs[1] is Int
        &&& fs[2] is Int
        &&& fs[3] is String
    }

    /// Whether `m` is exactly the message the leading fields carry.
    pub open spec fn parses(fs: Seq<PodView>, m: ErrorMethod) -> bool {
        &&& fs.len() >= 4
        &&& fs[0] == PodView::Int(m.id)
        &&& fs[1] == PodView::Int(m.seq)
        &&& fs[2] == PodView::Int(m.res)
        &&& fs[3] == PodView::String(m.message@)
    }

    /// Encodes the payload as a struct pod with the fields in order.
    pub fn to_value(&self) -> (r: Value)
        ensures
            r@ == PodView::Struct(self.spec_fields()),
    {
        let mut fields: Vec<Value> = Vec::new();
        fields.push(Value::Int(self.id));
        fields.push(Value::Int(self.seq));
        fields.push(Value::Int(self.res));
        fields.push(v_string(&self.message));
        let r = Value::Struct(fields);
        proof {
            lemma_pod_views(fields@);
            assert forall|j: int|
                0 <= j < fields@.len() implies pod_views(fields@)[j] == self.spec_fields()[j] by {
                assert(pod_views(fields@)[j] == fields@[j]@);
            }
            assert(pod_views(fields@) =~= self.spec_fields());
        }
        r
    }

    /// Decodes the payload from a struct pod, pulling fields in declared
    /// order; missing trailing fields fail, extra ones are tolerated.
    pub fn from_value(v: &Value) -> (r: Result<ErrorMethod, PodError>)
        ensures
            match r {
                Ok(m) => v@ matches PodView::Struct(fs) && ErrorMethod::parses(fs, m),
                Err(e) => !(v@ matches PodView::Struct(fs) && ErrorMethod::field_shape(fs)) && (e
                    == PodError::InvalidType || e == PodError::PropertyMissing) && (e
                    == PodError::PropertyMissing ==> (v@ matches PodView::Struct(fs2)
                    && fs2.len() < 4)),
            },
    {
        match v {
            Value::Struct(fields) => {
                proof {
                    lemma_pod_views(fields@);
                }
                let pos: usize = 0;
                let (id, pos) = read_int(fields, pos)?;
                let (seq, pos) = read_int(fields, pos)?;
                let (res, pos) = read_int(fields, pos)?;
                let (message, pos) = read_string(fields, pos)?;
                let m = ErrorMethod { id, seq, res, message };
                proof {
                    assert(ErrorMethod::parses(pod_views(fields@), m));
                }
                Ok(m)
            },
            _ => Err(PodError::InvalidType),
        }
    }
}

impl MessageOpCode for ErrorMethod {
    open spec fn spec_op_code() -> u32 {
        4
    }

    fn op_code() -> (r: u32) {
        4
    }
}

/// Core method: create a registry proxy under a caller-allocated id.
#[derive(Debug, PartialEq)]
pub struct GetRegistry {
    pub version: i32,
    pub new_id: i32,
}

impl GetRegistry {
    /// The payload's struct-pod fields, in declared order.
    pub open spec fn spec_fields(self) -> Seq<PodView> {
        seq![
            PodView::Int(self.version),
            PodView::Int(self.new_id),
        ]
    }

    /// Whether struct-pod fields begin with this message's shape.
    pub open spec fn field_shape(fs: Seq<PodView>) -> bool {
        &&& fs.len() >= 2
        &&& fs[0] is Int
        &&& fs[1] is Int
    }

    /// Whether `m` is exactly the message the leading fields carry.
    pub open spec fn parses(fs: Seq<PodView>, m: GetRegistry) -> bool {
        &&& fs.len() >= 2
        &&& fs[0] == PodView::Int(m.version)
        &&& fs[1] == PodView::Int(m.new_id)
    }

    /// Encodes the payload as a struct pod with the fields in order.
    pub fn to_value(&self) -> (r: Value)
        ensures
            r@ == PodView::Struct(self.spec_fields()),
    {
        let mut fields: Vec<Value> = Vec::new();
        fields.push(Value::Int(self.version));
        fields.push(Value::Int(self.new_id));
        let r = Value::Struct(fields);
        proof {
            lemma_pod_views(fields@);
            assert forall|j: int|
                0 <= j < fields@.len() implies pod_views(fields@)[j] == self.spec_fields()[j] by {
                assert(pod_views(fields@)[j] == fields@[j]@);
            }
            assert(pod_views(fields@) =~= self.spec_fields());
        }
        r
    }

    /// Decodes the payload from a struct pod, pulling fields in declared
    /// order; missing trailing fields fail, extra ones are tolerated.
    pub fn from_value(v: &Value) -> (r: Result<GetRegistry, PodError>)
        ensures
            match r {
                Ok(m) => v@ matches PodView::Struct(fs) && GetRegistry::parses(fs, m),
                Err(e) => !(v@ matches PodView::Struct(fs) && GetRegistry::field_shape(fs)) && (e
                    == PodError::InvalidType || e == PodError::PropertyMissing) && (e
                    == PodError::PropertyMissing ==> (v@ matches PodView::Struct(fs2)
                    && fs2.len() < 2)),
            },
    {
        match v {
            Value::Struct(fields) => {
                proof {
                    lemma_pod_views(fields@);
                }
                let pos: usize = 0;
                let (version, pos) = read_int(fields, pos)?;
                let (new_id, pos) = read_int(fields, pos)?;
                let m = GetRegistry { version, new_id };
                proof {
                    assert(GetRegistry::parses(pod_views(fields@), m));
                }
                Ok(m)
            },
            _ => Err(PodError::InvalidType),
        }
    }
}

impl MessageOpCode for GetRegistry {
    open spec fn spec_op_code() -> u32 {
        5
    }

    fn op_code() -> (r: u32) {
        5
    }
}

/// Core method: ask a factory to create an object bound to `new_id`.
#[derive(Debug, PartialEq)]
pub struct CreateObject {
    pub factory_name: Vec<u8>,
    pub type_: Vec<u8>,
    pub version: i32,
    pub props: Dict,
    pub new_id: i32,
}

impl CreateObject {
    /// The payload's struct-pod fields, in declared order.
    pub open spec fn spec_fields(self) -> Seq<PodView> {
        seq![
            PodView::String(self.factory_name@),
            PodView::String(self.type_@),
            PodView::Int(self.version),
            dict_pod(self.props@),
            PodView::Int(self.new_id),
        ]
    }

    /// Whether struct-pod fields begin with this message's shape.
    pub open spec fn field_shape(fs: Seq<PodView>) -> bool {
        &&& fs.len() >= 5
        &&& fs[0] is String
        &&& fs[1] is String
        &&& fs[2] is Int
        &&& is_dict(fs[3])
        &&& fs[4] is Int
    }

    /// Whether `m` is exactly the message the leading fields carry.
    pub open spec fn parses(fs: Seq<PodView>, m: CreateObject) -> bool {
        &&& fs.len() >= 5
        &&& fs[0] == PodView::String(m.factory_name@)
        &&& fs[1] == PodView::String(m.type_@)
        &&& fs[2] == PodView::Int(m.version)
        &&& is_dict(fs[3]) && m.props@ == dict_of(fs[3])
        &&& fs[4] == PodView::Int(m.new_id)
    }

    /// Encodes the payload as a struct pod with the fields in order.
    pub fn to_value(&self) -> (r: Result<Value, PodError>)
        ensures
            match r {
                Ok(value) => value@ == PodView::Struct(self.spec_fields()),
                Err(_) => self.props@.len() > 0x7fff_ffff,
            },
    {
        let mut fields: Vec<Value> = Vec::new();
        fields.push(v_string(&self.factory_name));
        fields.push(v_string(&self.type_));
        fields.push(Value::Int(self.version));
        fields.push(v_dict(&self.props)?);
        fields.push(Value::Int(self.new_id));
        let r = Value::Struct(fields);
        proof {
            lemma_pod_views(fields@);
            assert forall|j: int|
                0 <= j < fields@.len() implies pod_views(fields@)[j] == self.spec_fields()[j] by {
                assert(pod_views(fields@)[j] == fields@[j]@);
            }
            assert(pod_views(fields@) =~= self.spec_fields());
        }
        Ok(r)
    }

    /// Decodes the payload from a struct pod, pulling fields in declared
    /// order; missing trailing fields fail, extra ones are tolerated.
    pub fn from_value(v: &Value) -> (r: Result<CreateObject, PodError>)
        ensures
            match r {
                Ok(m) => v@ matches PodView::Struct(fs) && CreateObject::parses(fs, m),
                Err(e) => !(v@ matches PodView::Struct(fs) && CreateObject::field_shape(fs)) && (e
                    == PodError::InvalidType || e == PodError::PropertyMissing) && (e
                    == PodError::PropertyMissing ==> (v@ matches PodView::Struct(fs2)
                    && fs2.len() < 5)),
            },
    {
        match v {
            Value::Struct(fields) => {
                proof {
                    lemma_pod_views(fields@);
                }
                let pos: usize = 0;
                let (factory_name, pos) = read_string(fields, pos)?;
                let (type_, pos) = read_string(fields, pos)?;
                let (version, pos) = read_int(fields, pos)?;
                let (props, pos) = read_dict(fields, pos)?;
                let (new_id, pos) = read_int(fields, pos)?;
                let m = CreateObject { factory_name, type_, version, props, new_id };
                proof {
                    assert(CreateObject::parses(pod_views(fields@), m));
                }
                Ok(m)
            },
            _ => Err(PodError::InvalidType),
        }
    }
}

impl MessageOpCode for CreateObject {
    open spec fn spec_op_code() -> u32 {
        6
    }

    fn op_code() -> (r: u32) {
        6
    }
}

/// Core method: destroy a server-side object.
#[derive(Debug, PartialEq)]
pub struct Destroy {
    pub id: i32,
}

impl Destroy {
    /// The payload's struct-pod fields, in declared order.
    pub open spec fn spec_fields(self) -> Seq<PodView> {
        seq![
            PodView::Int(self.id),
        ]
    }

    /// Whether struct-pod fields begin with this message's shape.
    pub open spec fn field_shape(fs: Seq<PodView>) -> bool {
        &&& fs.len() >= 1
        &&& fs[0] is Int
    }

    /// Whether `m` is exactly the message the leading fields carry.
    pub open spec fn parses(fs: Seq<PodView>, m: Destroy) -> bool {
        &&& fs.len() >= 1
        &&& fs[0] == PodView::Int(m.id)
    }

    /// Encodes the payload as a struct pod with the fields in order.
    pub fn to_value(&self) -> (r: Value)
        ensures
            r@ == PodView::Struct(self.spec_fields()),
    {
        let mut fields: Vec<Value> = Vec::new();
        fields.push(Value::Int(self.id));
        let r = Value::Struct(fields);
        proof {
            lemma_pod_views(fields@);
            assert forall|j: int|
                0 <= j < fields@.len() implies pod_views(fields@)[j] == self.spec_fields()[j] by {
                assert(pod_views(fields@)[j] == fields@[j]@);
            }
            assert(pod_views(fields@) =~= self.spec_fields());
        }
        r
    }

    /// Decodes the payload from a struct pod, pulling fields in declared
    /// order; missing trailing fields fail, extra ones are tolerated.
    pub fn from_value(v: &Value) -> (r: Result<Destroy, PodError>)
        ensures
            match r {
                Ok(m) => v@ matches PodView::Struct(fs) && Destroy::parses(fs, m),
                Err(e) => !(v@ matches PodView::Struct(fs) && Destroy::field_shape(fs)) && (e
                    == PodError::InvalidType || e == PodError::PropertyMissing) && (e
                    == PodError::PropertyMissing ==> (v@ matches PodView::Struct(fs2)
                    && fs2.len() < 1)),
            },
    {
        match v {
            Value::Struct(fields) => {
                proof {
                    lemma_pod_views(fields@);
                }
                let pos: usize = 0;
                let (id, pos) = read_int(fields, pos)?;
                let m = Destroy { id };
                proof {
                    assert(Destroy::parses(pod_views(fields@), m));
                }
                Ok(m)
            },
            _ => Err(PodError::InvalidType),
        }
    }
}

impl MessageOpCode for Destroy {
    open spec fn spec_op_code() -> u32 {
        7
    }

    fn op_code() -> (r: u32) {
        7
    }
}

/// Core event: server information.
#[derive(Debug, PartialEq)]
pub struct Info {
    pub id: i32,
    pub cookie: i32,
    pub user_name: Vec<u8>,
    pub host_name: Vec<u8>,
    pub version: Vec<u8>,
    pub name: Vec<u8>,
    pub change_mask: i64,
    pub props: Dict,
}

impl Info {
    /// The payload's struct-pod fields, in declared order.
    pub open spec fn spec_fields(self) -> Seq<PodView> {
        seq![
            PodView::Int(self.id),
            PodView::Int(self.cookie),
            PodView::String(self.user_name@),
            PodView::String(self.host_name@),
            PodView::String(self.version@),
            PodView::String(self.name@),
            PodView::Long(self.change_mask),
            dict_pod(self.props@),
        ]
    }

    /// Whether struct-pod fields begin with this message's shape.
    pub open spec fn field_shape(fs: Seq<PodView>) -> bool {
        &&& fs.len() >= 8
        &&& fs[0] is Int
        &&& fs[1] is Int
        &&& fs[2] is String
        &&& fs[3] is String
        &&& fs[4] is String
        &&& fs[5] is String
        &&& fs[6] is Long
        &&& is_dict(fs[7])
    }

    /// Whether `m` is exactly the message the leading fields carry.
    pub open spec fn parses(fs: Seq<PodView>, m: Info) -> bool {
        &&& fs.len() >= 8
        &&& fs[0] == PodView::Int(m.id)
        &&& fs[1] == PodView::Int(m.cookie)
        &&& fs[2] == PodView::String(m.user_name@)
        &&& fs[3] == PodView::String(m.host_name@)
        &&& fs[4] == PodView::String(m.version@)
        &&& fs[5] == PodView::String(m.name@)
        &&& fs[6] == PodView::Long(m.change_mask)
        &&& is_dict(fs[7]) && m.props@ == dict_of(fs[7])
    }

    /// Encodes the payload as a struct pod with the fields in order.
    pub fn to_value(&self) -> (r: Result<Value, PodError>)
        ensures
            match r {
                Ok(value) => value@ == PodView::Struct(self.spec_fields()),
                Err(_) => self.props@.len() > 0x7fff_ffff,
            },
    {
        let mut fields: Vec<Value> = Vec::new();
        fields.push(Value::Int(self.id));
        fields.push(Value::Int(self.cookie));
        fields.push(v_string(&self.user_name));
        fields.push(v_string(&self.host_name));
        fields.push(v_string(&self.version));
        fields.push(v_string(&self.name));
        fields.push(Value::Long(self.change_mask));
        fields.push(v_dict(&self.props)?);
        let r = Value::Struct(fields);
        proof {
            lemma_pod_views(fields@);
            assert forall|j: int|
                0 <= j < fields@.len() implies pod_views(fields@)[j] == self.spec_fields()[j] by {
                assert(pod_views(fields@)[j] == fields@[j]@);
            }
            assert(pod_views(fields@) =~= self.spec_fields());
        }
        Ok(r)
    }

    /// Decodes the payload from a struct pod, pulling fields in declared
    /// order; missing trailing fields fail, extra ones are tolerated.
    pub fn from_value(v: &Value) -> (r: Result<Info, PodError>)
        ensures
            match r {
                Ok(m) => v@ matches PodView::Struct(fs) && Info::parses(fs, m),
                Err(e) => !(v@ matches PodView::Struct(fs) && Info::field_shape(fs)) && (e
                    == PodError::InvalidType || e == PodError::PropertyMissing) && (e
                    == PodError::PropertyMissing ==> (v@ matches PodView::Struct(fs2)
                    && fs2.len() < 8)),
            },
    {
        match v {
            Value::Struct(fields) => {
                proof {
                    lemma_pod_views(fields@);
                }
                let pos: usize = 0;
                let (id, pos) = read_int(fields, pos)?;
                let (cookie, pos) = read_int(fields, pos)?;
                let (user_name, pos) = read_string(fields, pos)?;
                let (host_name, pos) = read_string(fields, pos)?;
                let (version, pos) = read_string(fields, pos)?;
                let (name, pos) = read_string(fields, pos)?;
                let (change_mask, pos) = read_long(fields, pos)?;
                let (props, pos) = read_dict(fields, pos)?;
                let m = Info { id, cookie, user_name, host_name, version, name, change_mask, props };
                proof {
                    assert(Info::parses(pod_views(fields@), m));
                }
                Ok(m)
            },
            _ => Err(PodError::InvalidType),
        }
    }
}

impl MessageOpCode for Info {
    open spec fn spec_op_code() -> u32 {
        0
    }

    fn op_code() -> (r: u32) {
        0
    }
}

/// Core event: the barrier answering a `Sync`.
#[derive(Debug, PartialEq)]
pub struct Done {
    pub id: i32,
    pub seq: i32,
}

impl Done {
    /// The payload's struct-pod fields, in declared order.
    pub open spec fn spec_fields(self) -> Seq<PodView> {
        seq![
            PodView::Int(self.id),
            PodView::Int(self.seq),
        ]
    }

    /// Whether struct-pod fields begin with this message's shape.
    pub open spec fn field_shape(fs: Seq<PodView>) -> bool {
        &&& fs.len() >= 2
        &&& fs[0] is Int
        &&& fs[1] is Int
    }

    /// Whether `m` is exactly the message the leading fields carry.
    pub open spec fn parses(fs: Seq<PodView>, m: Done) -> bool {
        &&& fs.len() >= 2
        &&& fs[0] == PodView::Int(m.id)
        &&& fs[1] == PodView::Int(m.seq)
    }

    /// Encodes the payload as a struct pod with the fields in order.
    pub fn to_value(&self) -> (r: Value)
        ensures
            r@ == PodView::Struct(self.spec_fields()),
    {
        let mut fields: Vec<Value> = Vec::new();
        fields.push(Value::Int(self.id));
        fields.push(Value::Int(self.seq));
        let r = Value::Struct(fields);
        proof {
            lemma_pod_views(fields@);
            assert forall|j: int|
                0 <= j < fields@.len() implies pod_views(fields@)[j] == self.spec_fields()[j] by {
                assert(pod_views(fields@)[j] == fields@[j]@);
            }
            assert(pod_views(fields@) =~= self.spec_fields());
        }
        r
    }

    /// Decodes the payload from a struct pod, pulling fields in declared
    /// order; missing trailing fields fail, extra ones are tolerated.
    pub fn from_value(v: &Value) -> (r: Result<Done, PodError>)
        ensures
            match r {
                Ok(m) => v@ matches PodView::Struct(fs) && Done::parses(fs, m),
                Err(e) => !(v@ matches PodView::Struct(fs) && Done::field_shape(fs)) && (e
                    == PodError::InvalidType || e == PodError::PropertyMissing) && (e
                    == PodError::PropertyMissing ==> (v@ matches PodView::Struct(fs2)
                    && fs2.len() < 2)),
            },
    {
        match v {
            Value::Struct(fields) => {
                proof {
                    lemma_pod_views(fields@);
                }
                let pos: usize = 0;
                let (id, pos) = read_int(fields, pos)?;
                let (seq, pos) = read_int(fields, pos)?;
                let m = Done { id, seq };
                proof {
                    assert(Done::parses(pod_views(fields@), m));
                }
                Ok(m)
            },
            _ => Err(PodError::InvalidType),
        }
    }
}

impl MessageOpCode for Done {
    open spec fn spec_op_code() -> u32 {
        1
    }

    fn op_code() -> (r: u32) {
        1
    }
}

/// Core event: the server asks for a `Pong`.
#[derive(Debug, PartialEq)]
pub struct Ping {
    pub id: i32,
    pub seq: i32,
}

impl Ping {
    /// The payload's struct-pod fields, in declared order.
    pub open spec fn spec_fields(self) -> Seq<PodView> {
        seq![
            PodView::Int(self.id),
            PodView::Int(self.seq),
        ]
    }

    /// Whether struct-pod fields begin with this message's shape.
    pub open spec fn field_shape(fs: Seq<PodView>) -> bool {
        &&& fs.len() >= 2
        &&& fs[0] is Int
        &&& fs[1] is Int
    }

    /// Whether `m` is exactly the message the leading fields carry.
    pub open spec fn parses(fs: Seq<PodView>, m: Ping) -> bool {
        &&& fs.len() >= 2
        &&& fs[0] == PodView::Int(m.id)
        &&& fs[1] == PodView::Int(m.seq)
    }

    /// Encodes the payload as a struct pod with the fields in order.
    pub fn to_value(&self) -> (r: Value)
        ensures
            r@ == PodView::Struct(self.spec_fields()),
    {
        let mut fields: Vec<Value> = Vec::new();
        fields.push(Value::Int(self.id));
        fields.push(Value::Int(self.seq));
        let r = Value::Struct(fields);
        proof {
            lemma_pod_views(fields@);
            assert forall|j: int|
                0 <= j < fields@.len() implies pod_views(fields@)[j] == self.spec_fields()[j] by {
                assert(pod_views(fields@)[j] == fields@[j]@);
            }
            assert(pod_views(fields@) =~= self.spec_fields());
        }
        r
    }

    /// Decodes the payload from a struct pod, pulling fields in declared
    /// order; missing trailing fields fail, extra ones are tolerated.
    pub fn from_value(v: &Value) -> (r: Result<Ping, PodError>)
        ensures
            match r {
                Ok(m) => v@ matches PodView::Struct(fs) && Ping::parses(fs, m),
                Err(e) => !(v@ matches PodView::Struct(fs) && Ping::field_shape(fs)) && (e
                    == PodError::InvalidType || e == PodError::PropertyMissing) && (e
                    == PodError::PropertyMissing ==> (v@ matches PodView::Struct(fs2)
                    && fs2.len() < 2)),
            },
    {
        match v {
            Value::Struct(fields) => {
                proof {
                    lemma_pod_views(fields@);
                }
                let pos: usize = 0;
                let (id, pos) = read_int(fields, pos)?;
                let (seq, pos) = read_int(fields, pos)?;
                let m = Ping { id, seq };
                proof {
                    assert(Ping::parses(pod_views(fields@), m));
                }
                Ok(m)
            },
            _ => Err(PodError::InvalidType),
        }
    }
}

impl MessageOpCode for Ping {
    open spec fn spec_op_code() -> u32 {
        2
    }

    fn op_code() -> (r: u32) {
        2
    }
}

/// Core event: a server-reported error, carried as data to the caller.
#[derive(Debug, PartialEq)]
pub struct ErrorEvent {
    pub id: i32,
    pub seq: i32,
    pub res: i32,
    pub message: Vec<u8>,
}

impl ErrorEvent {
    /// The payload's struct-pod fields, in declared order.
    pub open spec fn spec_fields(self) -> Seq<PodView> {
        seq![
            PodView::Int(self.id),
            PodView::Int(self.seq),
            PodView::Int(self.res),
            PodView::String(self.message@),
        ]
    }

    /// Whether struct-pod fields begin with this message's shape.
    pub open spec fn field_shape(fs: Seq<PodView>) -> bool {
        &&& fs.len() >= 4
        &&& fs[0] is Int
        &&& fs[1] is Int
        &&& fs[2] is Int
        &&& fs[3] is String
    }

    /// Whether `m` is exactly the message the leading fields carry.
    pub open spec fn parses(fs: Seq<PodView>, m: ErrorEvent) -> bool {
        &&& fs.len() >= 4
        &&& fs[0] == PodView::Int(m.id)
        &&& fs[1] == PodView::Int(m.seq)
        &&& fs[2] == PodView::Int(m.res)
        &&& fs[3] == PodView::String(m.message@)
    }

    /// Encodes the payload as a struct pod with the fields in order.
    pub fn to_value(&self) -> (r: Value)
        ensures
            r@ == PodView::Struct(self.spec_fields()),
    {
        let mut fields: Vec<Value> = Vec::new();
        fields.push(Value::Int(self.id));
        fields.push(Value::Int(self.seq));
        fields.push(Value::Int(self.res));
        fields.push(v_string(&self.message));
        let r = Value::Struct(fields);
        proof {
            lemma_pod_views(fields@);
            assert forall|j: int|
                0 <= j < fields@.len() implies pod_views(fields@)[j] == self.spec_fields()[j] by {
                assert(pod_views(fields@)[j] == fields@[j]@);
            }
            assert(pod_views(fields@) =~= self.spec_fields());
        }
        r
    }

    /// Decodes the payload from a struct pod, pulling fields in declared
    /// order; missing trailing fields fail, extra ones are tolerated.
    pub fn from_value(v: &Value) -> (r: Result<ErrorEvent, PodError>)
        ensures
            match r {
                Ok(m) => v@ matches PodView::Struct(fs) && ErrorEvent::parses(fs, m),
                Err(e) => !(v@ matches PodView::Struct(fs) && ErrorEvent::field_shape(fs)) && (e
                    == PodError::InvalidType || e == PodError::PropertyMissing) && (e
                    == PodError::PropertyMissing ==> (v@ matches PodView::Struct(fs2)
                    && fs2.len() < 4)),
            },
    {
        match v {
            Value::Struct(fields) => {
                proof {
                    lemma_pod_views(fields@);
                }
                let pos: usize = 0;
                let (id, pos) = read_int(fields, pos)?;
                let (seq, pos) = read_int(fields, pos)?;
                let (res, pos) = read_int(fields, pos)?;
                let (message, pos) = read_string(fields, pos)?;
                let m = ErrorEvent { id, seq, res, message };
                proof {
                    assert(ErrorEvent::parses(pod_views(fields@), m));
                }
                Ok(m)
            },
            _ => Err(PodError::InvalidType),
        }
    }
}

impl MessageOpCode for ErrorEvent {
    open spec fn spec_op_code() -> u32 {
        3
    }

    fn op_code() -> (r: u32) {
        3
    }
}

/// Core event: an object id was retired by the server.
#[derive(Debug, PartialEq)]
pub struct RemoveId {
    pub id: i32,
}

impl RemoveId {
    /// The payload's struct-pod fields, in declared order.
    pub open spec fn spec_fields(self) -> Seq<PodView> {
        seq![
            PodView::Int(self.id),
        ]
    }

    /// Whether struct-pod fields begin with this message's shape.
    pub open spec fn field_shape(fs: Seq<PodView>) -> bool {
        &&& fs.len() >= 1
        &&& fs[0] is Int
    }

    /// Whether `m` is exactly the message the leading fields carry.
    pub open spec fn parses(fs: Seq<PodView>, m: RemoveId) -> bool {
        &&& fs.len() >= 1
        &&& fs[0] == PodView::Int(m.id)
    }

    /// Encodes the payload as a struct pod with the fields in order.
    pub fn to_value(&self) -> (r: Value)
        ensures
            r@ == PodView::Struct(self.spec_fields()),
    {
        let mut fields: Vec<Value> = Vec::new();
        fields.push(Value::Int(self.id));
        let r = Value::Struct(fields);
        proof {
            lemma_pod_views(fields@);
            assert forall|j: int|
                0 <= j < fields@.len() implies pod_views(fields@)[j] == self.spec_fields()[j] by {
                assert(pod_views(fields@)[j] == fields@[j]@);
            }
            assert(pod_views(fields@) =~= self.spec_fields());
        }
        r
    }

    /// Decodes the payload from a struct pod, pulling fields in declared
    /// order; missing trailing fields fail, extra ones are tolerated.
    pub fn from_value(v: &Value) -> (r: Result<RemoveId, PodError>)
        ensures
            match r {
                Ok(m) => v@ matches PodView::Struct(fs) && RemoveId::parses(fs, m),
                Err(e) => !(v@ matches PodView::Struct(fs) && RemoveId::field_shape(fs)) && (e
                    == PodError::InvalidType || e == PodError::PropertyMissing) && (e
                    == PodError::PropertyMissing ==> (v@ matches PodView::Struct(fs2)
                    && fs2.len() < 1)),
            },
    {
        match v {
            Value::Struct(fields) => {
                proof {
                    lemma_pod_views(fields@);
                }
                let pos: usize = 0;
                let (id, pos) = read_int(fields, pos)?;
                let m = RemoveId { id };
                proof {
                    assert(RemoveId::parses(pod_views(fields@), m));
                }
                Ok(m)
            },
            _ => Err(PodError::InvalidType),
        }
    }
}

impl MessageOpCode for RemoveId {
    open spec fn spec_op_code() -> u32 {
        4
    }

    fn op_code() -> (r: u32) {
        4
    }
}

/// Core event: a client id was bound to a global.
#[derive(Debug, PartialEq)]
pub struct BoundId {
    pub id: i32,
    pub global_id: i32,
}

impl BoundId {
    /// The payload's struct-pod fields, in declared order.
    pub open spec fn spec_fields(self) -> Seq<PodView> {
        seq![
            PodView::Int(self.id),
            PodView::Int(self.global_id),
        ]
    }

    /// Whether struct-pod fields begin with this message's shape.
    pub open spec fn field_shape(fs: Seq<PodView>) -> bool {
        &&& fs.len() >= 2
        &&& fs[0] is Int
        &&& fs[1] is Int
    }

    /// Whether `m` is exactly the message the leading fields carry.
    pub open spec fn parses(fs: Seq<PodView>, m: BoundId) -> bool {
        &&& fs.len() >= 2
        &&& fs[0] == PodView::Int(m.id)
        &&& fs[1] == PodView::Int(m.global_id)
    }

    /// Encodes the payload as a struct pod with the fields in order.
    pub fn to_value(&self) -> (r: Value)
        ensures
            r@ == PodView::Struct(self.spec_fields()),
    {
        let mut fields: Vec<Value> = Vec::new();
        fields.push(Value::Int(self.id));
        fields.push(Value::Int(self.global_id));
        let r = Value::Struct(fields);
        proof {
            lemma_pod_views(fields@);
            assert forall|j: int|
                0 <= j < fields@.len() implies pod_views(fields@)[j] == self.spec_fields()[j] by {
                assert(pod_views(fields@)[j] == fields@[j]@);
            }
            assert(pod_views(fields@) =~= self.spec_fields());
        }
        r
    }

    /// Decodes the payload from a struct pod, pulling fields in declared
    /// order; missing trailing fields fail, extra ones are tolerated.
    pub fn from_value(v: &Value) -> (r: Result<BoundId, PodError>)
        ensures
            match r {
                Ok(m) => v@ matches PodView::Struct(fs) && BoundId::parses(fs, m),
                Err(e) => !(v@ matches PodView::Struct(fs) && BoundId::field_shape(fs)) && (e
                    == PodError::InvalidType || e == PodError::PropertyMissing) && (e
                    == PodError::PropertyMissing ==> (v@ matches PodView::Struct(fs2)
                    && fs2.len() < 2)),
            },
    {
        match v {
            Value::Struct(fields) => {
                proof {
                    lemma_pod_views(fields@);
                }
                let pos: usize = 0;
                let (id, pos) = read_int(fields, pos)?;
                let (global_id, pos) = read_int(fields, pos)?;
                let m = BoundId { id, global_id };
                proof {
                    assert(BoundId::parses(pod_views(fields@), m));
                }
                Ok(m)
            },
            _ => Err(PodError::InvalidType),
        }
    }
}

impl MessageOpCode for BoundId {
    open spec fn spec_op_code() -> u32 {
        5
    }

    fn op_code() -> (r: u32) {
        5
    }
}

/// Core event: a shared-memory block was attached; the fd is an index into the ancillary fd array.
#[derive(Debug, PartialEq)]
pub struct AddMem {
    pub id: i32,
    pub type_: Id,
    pub fd: Fd,
    pub flags: i32,
}

impl AddMem {
    /// The payload's struct-pod fields, in declared order.
    pub open spec fn spec_fields(self) -> Seq<PodView> {
        seq![
            PodView::Int(self.id),
            PodView::Id(self.type_.0),
            PodView::Fd(self.fd.0),
            PodView::Int(self.flags),
        ]
    }

    /// Whether struct-pod fields begin with this message's shape.
    pub open spec fn field_shape(fs: Seq<PodView>) -> bool {
        &&& fs.len() >= 4
        &&& fs[0] is Int
        &&& fs[1] is Id
        &&& fs[2] is Fd
        &&& fs[3] is Int
    }

    /// Whether `m` is exactly the message the leading fields carry.
    pub open spec fn parses(fs: Seq<PodView>, m: AddMem) -> bool {
        &&& fs.len() >= 4
        &&& fs[0] == PodView::Int(m.id)
        &&& fs[1] == PodView::Id(m.type_.0)
        &&& fs[2] == PodView::Fd(m.fd.0)
        &&& fs[3] == PodView::Int(m.flags)
    }

    /// Encodes the payload as a struct pod with the fields in order.
    pub fn to_value(&self) -> (r: Value)
        ensures
            r@ == PodView::Struct(self.spec_fields()),
    {
        let mut fields: Vec<Value> = Vec::new();
        fields.push(Value::Int(self.id));
        fields.push(Value::Id(self.type_));
        fields.push(Value::Fd(self.fd));
        fields.push(Value::Int(self.flags));
        let r = Value::Struct(fields);
        proof {
            lemma_pod_views(fields@);
            assert forall|j: int|
                0 <= j < fields@.len() implies pod_views(fields@)[j] == self.spec_fields()[j] by {
                assert(pod_views(fields@)[j] == fields@[j]@);
            }
            assert(pod_views(fields@) =~= self.spec_fields());
        }
        r
    }

    /// Decodes the payload from a struct pod, pulling fields in declared
    /// order; missing trailing fields fail, extra ones are tolerated.
    pub fn from_value(v: &Value) -> (r: Result<AddMem, PodError>)
        ensures
            match r {
                Ok(m) => v@ matches PodView::Struct(fs) && AddMem::parses(fs, m),
                Err(e) => !(v@ matches PodView::Struct(fs) && AddMem::field_shape(fs)) && (e
                    == PodError::InvalidType || e == PodError::PropertyMissing) && (e
                    == PodError::PropertyMissing ==> (v@ matches PodView::Struct(fs2)
                    && fs2.len() < 4)),
            },
    {
        match v {
            Value::Struct(fields) => {
                proof {
                    lemma_pod_views(fields@);
                }
                let pos: usize = 0;
                let (id, pos) = read_int(fields, pos)?;
                let (type_, pos) = read_id(fields, pos)?;
                let (fd, pos) = read_fd(fields, pos)?;
                let (flags, pos) = read_int(fields, pos)?;
                let m = AddMem { id, type_, fd, flags };
                proof {
                    assert(AddMem::parses(pod_views(fields@), m));
                }
                Ok(m)
            },
            _ => Err(PodError::InvalidType),
        }
    }
}

impl MessageOpCode for AddMem {
    open spec fn spec_op_code() -> u32 {
        6
    }

    fn op_code() -> (r: u32) {
        6
    }
}

/// Core event: a shared-memory block was removed.
#[derive(Debug, PartialEq)]
pub struct RemoveMem {
    pub id: i32,
}

impl RemoveMem {
    /// The payload's struct-pod fields, in declared order.
    pub open spec fn spec_fields(self) -> Seq<PodView> {
        seq![
            PodView::Int(self.id),
        ]
    }

    /// Whether struct-pod fields begin with this message's shape.
    pub open spec fn field_shape(fs: Seq<PodView>) -> bool {
        &&& fs.len() >= 1
        &&& fs[0] is Int
    }

    /// Whether `m` is exactly the message the leading fields carry.
    pub open spec fn parses(fs: Seq<PodView>, m: RemoveMem) -> bool {
        &&& fs.len() >= 1
        &&& fs[0] == PodView::Int(m.id)
    }

    /// Encodes the payload as a struct pod with the fields in order.
    pub fn to_value(&self) -> (r: Value)
        ensures
            r@ == PodView::Struct(self.spec_fields()),
    {
        let mut fields: Vec<Value> = Vec::new();
        fields.push(Value::Int(self.id));
        let r = Value::Struct(fields);
        proof {
            lemma_pod_views(fields@);
            assert forall|j: int|
                0 <= j < fields@.len() implies pod_views(fields@)[j] == self.spec_fields()[j] by {
                assert(pod_views(fields@)[j] == fields@[j]@);
            }
            assert(pod_views(fields@) =~= self.spec_fields());
        }
        r
    }

    /// Decodes the payload from a struct pod, pulling fields in declared
    /// order; missing trailing fields fail, extra ones are tolerated.
    pub fn from_value(v: &Value) -> (r: Result<RemoveMem, PodError>)
        ensures
            match r {
                Ok(m) => v@ matches PodView::Struct(fs) && RemoveMem::parses(fs, m),
                Err(e) => !(v@ matches PodView::Struct(fs) && RemoveMem::field_shape(fs)) && (e
                    == PodError::InvalidType || e == PodError::PropertyMissing) && (e
                    == PodError::PropertyMissing ==> (v@ matches PodView::Struct(fs2)
                    && fs2.len() < 1)),
            },
    {
        match v {
            Value::Struct(fields) => {
                proof {
                    lemma_pod_views(fields@);
                }
                let pos: usize = 0;
                let (id, pos) = read_int(fields, pos)?;
                let m = RemoveMem { id };
                proof {
                    assert(RemoveMem::parses(pod_views(fields@), m));
                }
                Ok(m)
            },
            _ => Err(PodError::InvalidType),
        }
    }
}

impl MessageOpCode for RemoveMem {
    open spec fn spec_op_code() -> u32 {
        7
    }

    fn op_code() -> (r: u32) {
        7
    }
}

/// Core event: a client id was bound to a global, with its properties.
#[derive(Debug, PartialEq)]
pub struct BoundProps {
    pub id: i32,
    pub global_id: i32,
    pub props: Dict,
}

impl BoundProps {
    /// The payload's struct-pod fields, in declared order.
    pub open spec fn spec_fields(self) -> Seq<PodView> {
        seq![
            PodView::Int(self.id),
            PodView::Int(self.global_id),
            dict_pod(self.props@),
        ]
    }

    /// Whether struct-pod fields begin with this message's shape.
    pub open spec fn field_shape(fs: Seq<PodView>) -> bool {
        &&& fs.len() >= 3
        &&& fs[0] is Int
        &&& fs[1] is Int
        &&& is_dict(fs[2])
    }

    /// Whether `m` is exactly the message the leading fields carry.
    pub open spec fn parses(fs: Seq<PodView>, m: BoundProps) -> bool {
        &&& fs.len() >= 3
        &&& fs[0] == PodView::Int(m.id)
        &&& fs[1] == PodView::Int(m.global_id)
        &&& is_dict(fs[2]) && m.props@ == dict_of(fs[2])
    }

    /// Encodes the payload as a struct pod with the fields in order.
    pub fn to_value(&self) -> (r: Result<Value, PodError>)
        ensures
            match r {
                Ok(value) => value@ == PodView::Struct(self.spec_fields()),
                Err(_) => self.props@.len() > 0x7fff_ffff,
            },
    {
        let mut fields: Vec<Value> = Vec::new();
        fields.push(Value::Int(self.id));
        fields.push(Value::Int(self.global_id));
        fields.push(v_dict(&self.props)?);
        let r = Value::Struct(fields);
        proof {
            lemma_pod_views(fields@);
            assert forall|j: int|
                0 <= j < fields@.len() implies pod_views(fields@)[j] == self.spec_fields()[j] by {
                assert(pod_views(fields@)[j] == fields@[j]@);
            }
            assert(pod_views(fields@) =~= self.spec_fields());
        }
        Ok(r)
    }

    /// Decodes the payload from a struct pod, pulling fields in declared
    /// order; missing trailing fields fail, extra ones are tolerated.
    pub fn from_value(v: &Value) -> (r: Result<BoundProps, PodError>)
        ensures
            match r {
                Ok(m) => v@ matches PodView::Struct(fs) && BoundProps::parses(fs, m),
                Err(e) => !(v@ matches PodView::Struct(fs) && BoundProps::field_shape(fs)) && (e
                    == PodError::InvalidType || e == PodError::PropertyMissing) && (e
                    == PodError::PropertyMissing ==> (v@ matches PodView::Struct(fs2)
                    && fs2.len() < 3)),
            },
    {
        match v {
            Value::Struct(fields) => {
                proof {
                    lemma_pod_views(fields@);
                }
                let pos: usize = 0;
                let (id, pos) = read_int(fields, pos)?;
                let (global_id, pos) = read_int(fields, pos)?;
                let (props, pos) = read_dict(fields, pos)?;
                let m = BoundProps { id, global_id, props };
                proof {
                    assert(BoundProps::parses(pod_views(fields@), m));
                }
                Ok(m)
            },
            _ => Err(PodError::InvalidType),
        }
    }
}

impl MessageOpCode for BoundProps {
    open spec fn spec_op_code() -> u32 {
        8
    }

    fn op_code() -> (r: u32) {
        8
    }
}

/// Events of the Core interface (object id 0).
#[derive(Debug, PartialEq)]
pub enum CoreEvent {
    Info(Info),
    Done(Done),
    Ping(Ping),
    Error(ErrorEvent),
    RemoveId(RemoveId),
    BoundId(BoundId),
    AddMem(AddMem),
    RemoveMem(RemoveMem),
    BoundProps(BoundProps),
}

impl CoreEvent {
    /// Whether an opcode is in this interface's event table and the body
    /// fields fit the event's shape.
    pub open spec fn event_shape(opcode: u32, fs: Seq<PodView>) -> bool {
        if opcode == 0 {
            Info::field_shape(fs)
        } else if opcode == 1 {
            Done::field_shape(fs)
        } else if opcode == 2 {
            Ping::field_shape(fs)
        } else if opcode == 3 {
            ErrorEvent::field_shape(fs)
        } else if opcode == 4 {
            RemoveId::field_shape(fs)
        } else if opcode == 5 {
            BoundId::field_shape(fs)
        } else if opcode == 6 {
            AddMem::field_shape(fs)
        } else if opcode == 7 {
            RemoveMem::field_shape(fs)
        } else if opcode == 8 {
            BoundProps::field_shape(fs)
        } else {
            false
        }
    }

    /// Whether `e` is exactly the event this opcode and body carry.
    pub open spec fn event_parses(opcode: u32, fs: Seq<PodView>, e: CoreEvent) -> bool {
        if opcode == 0 {
            e matches CoreEvent::Info(m) && Info::parses(fs, m)
        } else if opcode == 1 {
            e matches CoreEvent::Done(m) && Done::parses(fs, m)
        } else if opcode == 2 {
            e matches CoreEvent::Ping(m) && Ping::parses(fs, m)
        } else if opcode == 3 {
            e matches CoreEvent::Error(m) && ErrorEvent::parses(fs, m)
        } else if opcode == 4 {
            e matches CoreEvent::RemoveId(m) && RemoveId::parses(fs, m)
        } else if opcode == 5 {
            e matches CoreEvent::BoundId(m) && BoundId::parses(fs, m)
        } else if opcode == 6 {
            e matches CoreEvent::AddMem(m) && AddMem::parses(fs, m)
        } else if opcode == 7 {
            e matches CoreEvent::RemoveMem(m) && RemoveMem::parses(fs, m)
        } else if opcode == 8 {
            e matches CoreEvent::BoundProps(m) && BoundProps::parses(fs, m)
        } else {
            false
        }
    }

    /// Decodes the event an opcode and a payload pod carry.
    pub fn from_body(opcode: u32, body: &Value) -> (r: Result<CoreEvent, PodError>)
        ensures
            match r {
                Ok(e) => body@ matches PodView::Struct(fs) && CoreEvent::event_parses(opcode, fs, e),
                Err(_) => !(body@ matches PodView::Struct(fs) && CoreEvent::event_shape(
                    opcode,
                    fs,
                )),
            },
    {
        if opcode == 0 {
            match Info::from_value(body) {
                Ok(m) => Ok(CoreEvent::Info(m)),
                Err(e) => Err(e),
            }
        } else if opcode == 1 {
            match Done::from_value(body) {
                Ok(m) => Ok(CoreEvent::Done(m)),
                Err(e) => Err(e),
            }
        } else if opcode == 2 {
            match Ping::from_value(body) {
                Ok(m) => Ok(CoreEvent::Ping(m)),
                Err(e) => Err(e),
            }
        } else if opcode == 3 {
            match ErrorEvent::from_value(body) {
                Ok(m) => Ok(CoreEvent::Error(m)),
                Err(e) => Err(e),
            }
        } else if opcode == 4 {
            match RemoveId::from_value(body) {
                Ok(m) => Ok(CoreEvent::RemoveId(m)),
                Err(e) => Err(e),
            }
        } else if opcode == 5 {
            match BoundId::from_value(body) {
                Ok(m) => Ok(CoreEvent::BoundId(m)),
                Err(e) => Err(e),
            }
        } else if opcode == 6 {
            match AddMem::from_value(body) {
                Ok(m) => Ok(CoreEvent::AddMem(m)),
                Err(e) => Err(e),
            }
        } else if opcode == 7 {
            match RemoveMem::from_value(body) {
                Ok(m) => Ok(CoreEvent::RemoveMem(m)),
                Err(e) => Err(e),
            }
        } else if opcode == 8 {
            match BoundProps::from_value(body) {
                Ok(m) => Ok(CoreEvent::BoundProps(m)),
                Err(e) => Err(e),
            }
        } else {
            Err(PodError::InvalidType)
        }
    }
}

impl DeserializeFromOpCode for CoreEvent {
    open spec fn spec_event_shape(opcode: u32, fs: Seq<crate::value::PodView>) -> bool {
        CoreEvent::event_shape(opcode, fs)
    }

    open spec fn spec_event_parses(opcode: u32, fs: Seq<crate::value::PodView>, e: CoreEvent) -> bool {
        CoreEvent::event_parses(opcode, fs, e)
    }
    /// Parses the buffer's leading pod and decodes it by opcode.
    fn deserialize_from_opcode(opcode: u32, buffer: &Vec<u8>) -> Result<(CoreEvent, usize), PodError> {
        match crate::deserialize::deserialize_pod(buffer, 0) {
            Ok((v, np)) => match CoreEvent::from_body(opcode, &v) {
                Ok(e) => Ok((e, np)),
                Err(e) => Err(e),
            },
            Err(e) => Err(e),
        }
    }
}

/// The first method on every connection: `Hello { version: 3 }`, framed.
/// The payload is fixed and well-formed, so framing always succeeds.
pub fn hello_frame(w: &mut crate::PipewireWriter) -> (r: Result<Vec<u8>, PodError>)
    requires
        old(w).seq < 0xffff_ffff,
    ensures
        r is Ok,
        r matches Ok(frame) ==> frame@ == crate::method_frame(
            CORE_ID,
            1,
            old(w).seq,
            PodView::Struct((Hello { version: CORE_VERSION }).spec_fields()),
        ) && final(w).seq == old(w).seq + 1,
{
    let payload = (Hello { version: CORE_VERSION }).to_value();
    proof {
        crate::codec::lemma_int_struct_small((Hello { version: CORE_VERSION }).spec_fields());
        assert(crate::frameable(payload@));
    }
    let r = w.call_method(CORE_ID, 1, &payload);
    r
}

/// A proxy's sync barrier: `Core.Sync { id = <proxy id> }`, framed. The
/// payload is fixed and well-formed, so framing always succeeds. The
/// server answers with `Core.Done { id, seq }`, which the router fans
/// out to the proxy's own mailbox.
pub fn sync_frame(w: &mut crate::PipewireWriter, proxy_id: i32, seq: i32) -> (r: Result<
    Vec<u8>,
    PodError,
>)
    requires
        old(w).seq < 0xffff_ffff,
    ensures
        r is Ok,
        r matches Ok(frame) ==> frame@ == crate::method_frame(
            CORE_ID,
            2,
            old(w).seq,
            PodView::Struct((Sync { id: proxy_id, seq }).spec_fields()),
        ) && final(w).seq == old(w).seq + 1,
{
    let payload = (Sync { id: proxy_id, seq }).to_value();
    proof {
        crate::codec::lemma_int_struct_small((Sync { id: proxy_id, seq }).spec_fields());
        assert(crate::frameable(payload@));
    }
    let r = w.call_method(CORE_ID, 2, &payload);
    r
}

/// The compute part of `Core.get_registry`: registers the next proxy id
/// under the Registry kind, advances the id counter, and frames
/// `GetRegistry { version, new_id }`. The payload is fixed and
/// well-formed, so the call fails only when the fresh id is somehow
/// already taken — and then nothing has changed.
pub fn get_registry_frame(p: &mut crate::Proxies, w: &mut crate::PipewireWriter) -> (r: Result<
    (i32, Vec<u8>),
    PodError,
>)
    requires
        old(p).wf(),
        1 <= old(p).id_counter < 0x7fff_ffff,
        old(w).seq < 0xffff_ffff,
    ensures
        final(p).wf(),
        r matches Ok((id, frame)) ==> {
            &&& id == old(p).id_counter + 1
            &&& final(p).id_counter == id
            &&& final(p).in_sub(crate::ProxyKind::Registry, id)
            &&& forall|kb: crate::ProxyKind, id2: i32|
                final(p).in_sub(kb, id2) == (old(p).in_sub(kb, id2) || (kb
                    == crate::ProxyKind::Registry && id2 == id))
            &&& final(p).core_present == old(p).core_present
            &&& final(p).client_present == old(p).client_present
            &&& frame@ == crate::method_frame(
                CORE_ID,
                5,
                old(w).seq,
                PodView::Struct(
                    (GetRegistry {
                        version: crate::registry::REGISTRY_VERSION,
                        new_id: id,
                    }).spec_fields(),
                ),
            )
            &&& final(w).seq == old(w).seq + 1
        },
        r is Err ==> *final(p) == *old(p) && *final(w) == *old(w) && (exists|kb: crate::ProxyKind|
            #[trigger] old(p).in_sub(kb, (old(p).id_counter + 1) as i32)),
        (forall|kb: crate::ProxyKind|
            !(#[trigger] old(p).in_sub(kb, (old(p).id_counter + 1) as i32))) ==> r is Ok,
{
    let id = p.id_counter + 1;
    if !p.register(crate::ProxyKind::Registry, id) {
        return Err(PodError::ParseError);
    }
    let ghost preg = *p;
    let counter = p.alloc_id();
    assert(counter == id);
    proof {
        assert forall|k2: crate::ProxyKind| p.sub_ids(k2) == preg.sub_ids(k2) by {}
        assert forall|k2: crate::ProxyKind, id2: i32|
            p.in_sub(k2, id2) == preg.in_sub(k2, id2) by {
            assert(p.sub_ids(k2) == preg.sub_ids(k2));
        }
        assert forall|k2: crate::ProxyKind, id2: i32|
            p.in_sub(k2, id2) == (old(p).in_sub(k2, id2) || (k2 == crate::ProxyKind::Registry
                && id2 == id)) by {
            assert(p.in_sub(k2, id2) == preg.in_sub(k2, id2));
        }
        assert(p.wf()) by {
            assert forall|kb: crate::ProxyKind, id2: i32| #[trigger]
                p.in_sub(kb, id2) implies id2 >= 2 by {
                assert(preg.in_sub(kb, id2));
            }
            assert forall|ka: crate::ProxyKind, kb: crate::ProxyKind, id2: i32|
                #[trigger] p.in_sub(ka, id2) && #[trigger] p.in_sub(kb, id2) implies ka == kb by {
                assert(preg.in_sub(ka, id2) && preg.in_sub(kb, id2));
            }
            assert forall|kb: crate::ProxyKind, i: int, j: int|
                0 <= i < p.sub_ids(kb).len() && 0 <= j < p.sub_ids(kb).len() && #[trigger] p
                    .sub_ids(kb)[i] == #[trigger] p.sub_ids(kb)[j] implies i == j by {
                assert(p.sub_ids(kb) == preg.sub_ids(kb));
                assert(preg.sub_ids(kb)[i] == preg.sub_ids(kb)[j]);
            }
        }
    }
    let msg = GetRegistry { version: crate::registry::REGISTRY_VERSION, new_id: id };
    let payload = msg.to_value();
    proof {
        crate::codec::lemma_int_struct_small(msg.spec_fields());
        assert(crate::frameable(payload@));
    }
    let frame = match w.call_method(CORE_ID, 5, &payload) {
        Ok(f) => f,
        Err(e) => {
            proof {
                assert(false);
            }
            return Err(e);
        },
    };
    Ok((id, frame))
}

} // verus!
