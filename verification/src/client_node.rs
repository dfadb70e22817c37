//! The ClientNode interface: the client-side node driven by the server.
//! Its `Update`, `PortUpdate`, `PortBuffers` and `UseBuffers` payloads
//! encode variable-length lists as an `Int` count followed by that many
//! adjacent struct fields (not as array pods), so their codecs are written
//! by hand below.

use vstd::prelude::*;

use crate::error::PodError;
use crate::message::{
    clone_value, dict_of, dict_pod, is_dict, read_dict, read_fd, read_id, read_int, read_value,
    read_bool, v_dict, Dict,
};
use crate::opcode::{DeserializeFromOpCode, MessageOpCode};
use crate::message::sp_int;
use crate::value::{
    lemma_pod_views, pod_views, Fd, Id, PodView, Value,
};

verus! {


/// ClientNode factory method: create the client node under a caller-allocated id.
#[derive(Debug, PartialEq)]
pub struct GetNode {
    pub version: i32,
    pub new_id: i32,
}

impl GetNode {
    /// The payload's struct-pod fields, in declared order.
    pub open spec fn spec_fields(self) -> Seq<PodView> {
        seq![
            PodView::Int(self.version),
            PodView::Int(self.new_id),
        ]
    }

    /// Whether struct-pod fields begin with this message's shape.
    pub open spec fn field_shape(fs: Seq<PodView>) -> bool {
        &&& fs.len() >= 2
        &&& fs[0] is Int
        &&& fs[1] is Int
    }

    /// Whether `m` is exactly the message the leading fields carry.
    pub open spec fn parses(fs: Seq<PodView>, m: GetNode) -> bool {
        &&& fs.len() >= 2
        &&& fs[0] == PodView::Int(m.version)
        &&& fs[1] == PodView::Int(m.new_id)
    }

    /// Encodes the payload as a struct pod with the fields in order.
    pub fn to_value(&self) -> (r: Value)
        ensures
            r@ == PodView::Struct(self.spec_fields()),
    {
        let mut fields: Vec<Value> = Vec::new();
        fields.push(Value::Int(self.version));
        fields.push(Value::Int(self.new_id));
        let r = Value::Struct(fields);
        proof {
            lemma_pod_views(fields@);
            assert forall|j: int|
                0 <= j < fields@.len() implies pod_views(fields@)[j] == self.spec_fields()[j] by {
                assert(pod_views(fields@)[j] == fields@[j]@);
            }
            assert(pod_views(fields@) =~= self.spec_fields());
        }
        r
    }

    /// Decodes the payload from a struct pod, pulling fields in declared
    /// order; missing trailing fields fail, extra ones are tolerated.
    pub fn from_value(v: &Value) -> (r: Result<GetNode, PodError>)
        ensures
            match r {
                Ok(m) => v@ matches PodView::Struct(fs) && GetNode::parses(fs, m),
                Err(e) => !(v@ matches PodView::Struct(fs) && GetNode::field_shape(fs)) && (e
                    == PodError::InvalidType || e == PodError::PropertyMissing) && (e
                    == PodError::PropertyMissing ==> (v@ matches PodView::Struct(fs2)
                    && fs2.len() < 2)),
            },
    {
        match v {
            Value::Struct(fields) => {
                proof {
                    lemma_pod_views(fields@);
                }
                let pos: usize = 0;
                let (version, pos) = read_int(fields, pos)?;
                let (new_id, pos) = read_int(fields, pos)?;
                let m = GetNode { version, new_id };
                proof {
                    assert(GetNode::parses(pod_views(fields@), m));
                }
                Ok(m)
            },
            _ => Err(PodError::InvalidType),
        }
    }
}

/// ClientNode method: activate or deactivate the node.
#[derive(Debug, PartialEq)]
pub struct SetActive {
    pub active: bool,
}

impl SetActive {
    /// The payload's struct-pod fields, in declared order.
    pub open spec fn spec_fields(self) -> Seq<PodView> {
        seq![
            PodView::Bool(self.active),
        ]
    }

    /// Whether struct-pod fields begin with this message's shape.
    pub open spec fn field_shape(fs: Seq<PodView>) -> bool {
        &&& fs.len() >= 1
        &&& fs[0] is Bool
    }

    /// Whether `m` is exactly the message the leading fields carry.
    pub open spec fn parses(fs: Seq<PodView>, m: SetActive) -> bool {
        &&& fs.len() >= 1
        &&& fs[0] == PodView::Bool(m.active)
    }

    /// Encodes the payload as a struct pod with the fields in order.
    pub fn to_value(&self) -> (r: Value)
        ensures
            r@ == PodView::Struct(self.spec_fields()),
    {
        let mut fields: Vec<Value> = Vec::new();
        fields.push(Value::Bool(self.active));
        let r = Value::Struct(fields);
        proof {
            lemma_pod_views(fields@);
            assert forall|j: int|
                0 <= j < fields@.len() implies pod_views(fields@)[j] == self.spec_fields()[j] by {
                assert(pod_views(fields@)[j] == fields@[j]@);
            }
            assert(pod_views(fields@) =~= self.spec_fields());
        }
        r
    }

    /// Decodes the payload from a struct pod, pulling fields in declared
    /// order; missing trailing fields fail, extra ones are tolerated.
    pub fn from_value(v: &Value) -> (r: Result<SetActive, PodError>)
        ensures
            match r {
                Ok(m) => v@ matches PodView::Struct(fs) && SetActive::parses(fs, m),
                Err(e) => !(v@ matches PodView::Struct(fs) && SetActive::field_shape(fs)) && (e
                    == PodError::InvalidType || e == PodError::PropertyMissing) && (e
                    == PodError::PropertyMissing ==> (v@ matches PodView::Struct(fs2)
                    && fs2.len() < 1)),
            },
    {
        match v {
            Value::Struct(fields) => {
                proof {
                    lemma_pod_views(fields@);
                }
                let pos: usize = 0;
                let (active, pos) = read_bool(fields, pos)?;
                let m = SetActive { active };
                proof {
                    assert(SetActive::parses(pod_views(fields@), m));
                }
                Ok(m)
            },
            _ => Err(PodError::InvalidType),
        }
    }
}

/// ClientNode method and event: an opaque event pod.
#[derive(Debug, PartialEq)]
pub struct Event {
    pub event: Value,
}

impl Event {
    /// The payload's struct-pod fields, in declared order.
    pub open spec fn spec_fields(self) -> Seq<PodView> {
        seq![
            self.event@,
        ]
    }

    /// Whether struct-pod fields begin with this message's shape.
    pub open spec fn field_shape(fs: Seq<PodView>) -> bool {
        &&& fs.len() >= 1
        &&& true
    }

    /// Whether `m` is exactly the message the leading fields carry.
    pub open spec fn parses(fs: Seq<PodView>, m: Event) -> bool {
        &&& fs.len() >= 1
        &&& fs[0] == m.event@
    }

    /// Encodes the payload as a struct pod with the fields in order.
    pub fn to_value(&self) -> (r: Value)
        ensures
            r@ == PodView::Struct(self.spec_fields()),
    {
        let mut fields: Vec<Value> = Vec::new();
        fields.push(clone_value(&self.event));
        let r = Value::Struct(fields);
        proof {
            lemma_pod_views(fields@);
            assert forall|j: int|
                0 <= j < fields@.len() implies pod_views(fields@)[j] == self.spec_fields()[j] by {
                assert(pod_views(fields@)[j] == fields@[j]@);
            }
            assert(pod_views(fields@) =~= self.spec_fields());
        }
        r
    }

    /// Decodes the payload from a struct pod, pulling fields in declared
    /// order; missing trailing fields fail, extra ones are tolerated.
    pub fn from_value(v: &Value) -> (r: Result<Event, PodError>)
        ensures
            match r {
                Ok(m) => v@ matches PodView::Struct(fs) && Event::parses(fs, m),
                Err(e) => !(v@ matches PodView::Struct(fs) && Event::field_shape(fs)) && (e
                    == PodError::InvalidType || e == PodError::PropertyMissing) && (e
                    == PodError::PropertyMissing ==> (v@ matches PodView::Struct(fs2)
                    && fs2.len() < 1)),
            },
    {
        match v {
            Value::Struct(fields) => {
                proof {
                    lemma_pod_views(fields@);
                }
                let pos: usize = 0;
                let (event, pos) = read_value(fields, pos)?;
                let m = Event { event };
                proof {
                    assert(Event::parses(pod_views(fields@), m));
                }
                Ok(m)
            },
            _ => Err(PodError::InvalidType),
        }
    }
}

/// ClientNode event: the transport area for the data plane, as opaque references.
#[derive(Debug, PartialEq)]
pub struct Transport {
    pub readfd: Fd,
    pub write: Fd,
    pub memfd: i32,
    pub offset: i32,
    pub size: i32,
}

impl Transport {
    /// The payload's struct-pod fields, in declared order.
    pub open spec fn spec_fields(self) -> Seq<PodView> {
        seq![
            PodView::Fd(self.readfd.0),
            PodView::Fd(self.write.0),
            PodView::Int(self.memfd),
            PodView::Int(self.offset),
            PodView::Int(self.size),
        ]
    }

    /// Whether struct-pod fields begin with this message's shape.
    pub open spec fn field_shape(fs: Seq<PodView>) -> bool {
        &&& fs.len() >= 5
        &&& fs[0] is Fd
        &&& fs[1] is Fd
        &&& fs[2] is Int
        &&& fs[3] is Int
        &&& fs[4] is Int
    }

    /// Whether `m` is exactly the message the leading fields carry.
    pub open spec fn parses(fs: Seq<PodView>, m: Transport) -> bool {
        &&& fs.len() >= 5
        &&& fs[0] == PodView::Fd(m.readfd.0)
        &&& fs[1] == PodView::Fd(m.write.0)
        &&& fs[2] == PodView::Int(m.memfd)
        &&& fs[3] == PodView::Int(m.offset)
        &&& fs[4] == PodView::Int(m.size)
    }

    /// Encodes the payload as a struct pod with the fields in order.
    pub fn to_value(&self) -> (r: Value)
        ensures
            r@ == PodView::Struct(self.spec_fields()),
    {
        let mut fields: Vec<Value> = Vec::new();
        fields.push(Value::Fd(self.readfd));
        fields.push(Value::Fd(self.write));
        fields.push(Value::Int(self.memfd));
        fields.push(Value::Int(self.offset));
        fields.push(Value::Int(self.size));
        let r = Value::Struct(fields);
        proof {
            lemma_pod_views(fields@);
            assert forall|j: int|
                0 <= j < fields@.len() implies pod_views(fields@)[j] == self.spec_fields()[j] by {
                assert(pod_views(fields@)[j] == fields@[j]@);
            }
            assert(pod_views(fields@) =~= self.spec_fields());
        }
        r
    }

    /// Decodes the payload from a struct pod, pulling fields in declared
    /// order; missing trailing fields fail, extra ones are tolerated.
    pub fn from_value(v: &Value) -> (r: Result<Transport, PodError>)
        ensures
            match r {
                Ok(m) => v@ matches PodView::Struct(fs) && Transport::parses(fs, m),
                Err(e) => !(v@ matches PodView::Struct(fs) && Transport::field_shape(fs)) && (e
                    == PodError::InvalidType || e == PodError::PropertyMissing) && (e
                    == PodError::PropertyMissing ==> (v@ matches PodView::Struct(fs2)
                    && fs2.len() < 5)),
            },
    {
        match v {
            Value::Struct(fields) => {
                proof {
                    lemma_pod_views(fields@);
                }
                let pos: usize = 0;
                let (readfd, pos) = read_fd(fields, pos)?;
                let (write, pos) = read_fd(fields, pos)?;
                let (memfd, pos) = read_int(fields, pos)?;
                let (offset, pos) = read_int(fields, pos)?;
                let (size, pos) = read_int(fields, pos)?;
                let m = Transport { readfd, write, memfd, offset, size };
                proof {
                    assert(Transport::parses(pod_views(fields@), m));
                }
                Ok(m)
            },
            _ => Err(PodError::InvalidType),
        }
    }
}

impl MessageOpCode for Transport {
    open spec fn spec_op_code() -> u32 {
        0
    }

    fn op_code() -> (r: u32) {
        0
    }
}

/// ClientNode event: set a parameter.
#[derive(Debug, PartialEq)]
pub struct SetParam {
    pub id: i32,
    pub flags: i32,
    pub param: Value,
}

impl SetParam {
    /// The payload's struct-pod fields, in declared order.
    pub open spec fn spec_fields(self) -> Seq<PodView> {
        seq![
            PodView::Int(self.id),
            PodView::Int(self.flags),
            self.param@,
        ]
    }

    /// Whether struct-pod fields begin with this message's shape.
    pub open spec fn field_shape(fs: Seq<PodView>) -> bool {
        &&& fs.len() >= 3
        &&& fs[0] is Int
        &&& fs[1] is Int
        &&& true
    }

    /// Whether `m` is exactly the message the leading fields carry.
    pub open spec fn parses(fs: Seq<PodView>, m: SetParam) -> bool {
        &&& fs.len() >= 3
        &&& fs[0] == PodView::Int(m.id)
        &&& fs[1] == PodView::Int(m.flags)
        &&& fs[2] == m.param@
    }

    /// Encodes the payload as a struct pod with the fields in order.
    pub fn to_value(&self) -> (r: Value)
        ensures
            r@ == PodView::Struct(self.spec_fields()),
    {
        let mut fields: Vec<Value> = Vec::new();
        fields.push(Value::Int(self.id));
        fields.push(Value::Int(self.flags));
        fields.push(clone_value(&self.param));
        let r = Value::Struct(fields);
        proof {
            lemma_pod_views(fields@);
            assert forall|j: int|
                0 <= j < fields@.len() implies pod_views(fields@)[j] == self.spec_fields()[j] by {
                assert(pod_views(fields@)[j] == fields@[j]@);
            }
            assert(pod_views(fields@) =~= self.spec_fields());
        }
        r
    }

    /// Decodes the payload from a struct pod, pulling fields in declared
    /// order; missing trailing fields fail, extra ones are tolerated.
    pub fn from_value(v: &Value) -> (r: Result<SetParam, PodError>)
        ensures
            match r {
                Ok(m) => v@ matches PodView::Struct(fs) && SetParam::parses(fs, m),
                Err(e) => !(v@ matches PodView::Struct(fs) && SetParam::field_shape(fs)) && (e
                    == PodError::InvalidType || e == PodError::PropertyMissing) && (e
                    == PodError::PropertyMissing ==> (v@ matches PodView::Struct(fs2)
                    && fs2.len() < 3)),
            },
    {
        match v {
            Value::Struct(fields) => {
                proof {
                    lemma_pod_views(fields@);
                }
                let pos: usize = 0;
                let (id, pos) = read_int(fields, pos)?;
                let (flags, pos) = read_int(fields, pos)?;
                let (param, pos) = read_value(fields, pos)?;
                let m = SetParam { id, flags, param };
                proof {
                    assert(SetParam::parses(pod_views(fields@), m));
                }
                Ok(m)
            },
            _ => Err(PodError::InvalidType),
        }
    }
}

impl MessageOpCode for SetParam {
    open spec fn spec_op_code() -> u32 {
        1
    }

    fn op_code() -> (r: u32) {
        1
    }
}

/// ClientNode event: attach an io area, as opaque references.
#[derive(Debug, PartialEq)]
pub struct SetIO {
    pub id: Id,
    pub memid: i32,
    pub offset: i32,
    pub size: i32,
}

impl SetIO {
    /// The payload's struct-pod fields, in declared order.
    pub open spec fn spec_fields(self) -> Seq<PodView> {
        seq![
            PodView::Id(self.id.0),
            PodView::Int(self.memid),
            PodView::Int(self.offset),
            PodView::Int(self.size),
        ]
    }

    /// Whether struct-pod fields begin with this message's shape.
    pub open spec fn field_shape(fs: Seq<PodView>) -> bool {
        &&& fs.len() >= 4
        &&& fs[0] is Id
        &&& fs[1] is Int
        &&& fs[2] is Int
        &&& fs[3] is Int
    }

    /// Whether `m` is exactly the message the leading fields carry.
    pub open spec fn parses(fs: Seq<PodView>, m: SetIO) -> bool {
        &&& fs.len() >= 4
        &&& fs[0] == PodView::Id(m.id.0)
        &&& fs[1] == PodView::Int(m.memid)
        &&& fs[2] == PodView::Int(m.offset)
        &&& fs[3] == PodView::Int(m.size)
    }

    /// Encodes the payload as a struct pod with the fields in order.
    pub fn to_value(&self) -> (r: Value)
        ensures
            r@ == PodView::Struct(self.spec_fields()),
    {
        let mut fields: Vec<Value> = Vec::new();
        fields.push(Value::Id(self.id));
        fields.push(Value::Int(self.memid));
        fields.push(Value::Int(self.offset));
        fields.push(Value::Int(self.size));
        let r = Value::Struct(fields);
        proof {
            lemma_pod_views(fields@);
            assert forall|j: int|
                0 <= j < fields@.len() implies pod_views(fields@)[j] == self.spec_fields()[j] by {
                assert(pod_views(fields@)[j] == fields@[j]@);
            }
            assert(pod_views(fields@) =~= self.spec_fields());
        }
        r
    }

    /// Decodes the payload from a struct pod, pulling fields in declared
    /// order; missing trailing fields fail, extra ones are tolerated.
    pub fn from_value(v: &Value) -> (r: Result<SetIO, PodError>)
        ensures
            match r {
                Ok(m) => v@ matches PodView::Struct(fs) && SetIO::parses(fs, m),
                Err(e) => !(v@ matches PodView::Struct(fs) && SetIO::field_shape(fs)) && (e
                    == PodError::InvalidType || e == PodError::PropertyMissing) && (e
                    == PodError::PropertyMissing ==> (v@ matches PodView::Struct(fs2)
                    && fs2.len() < 4)),
            },
    {
        match v {
            Value::Struct(fields) => {
                proof {
                    lemma_pod_views(fields@);
                }
                let pos: usize = 0;
                let (id, pos) = read_id(fields, pos)?;
                let (memid, pos) = read_int(fields, pos)?;
                let (offset, pos) = read_int(fields, pos)?;
                let (size, pos) = read_int(fields, pos)?;
                let m = SetIO { id, memid, offset, size };
                proof {
                    assert(SetIO::parses(pod_views(fields@), m));
                }
                Ok(m)
            },
            _ => Err(PodError::InvalidType),
        }
    }
}

impl MessageOpCode for SetIO {
    open spec fn spec_op_code() -> u32 {
        2
    }

    fn op_code() -> (r: u32) {
        2
    }
}

/// ClientNode event: a command pod.
#[derive(Debug, PartialEq)]
pub struct Command {
    pub command: Value,
}

impl Command {
    /// The payload's struct-pod fields, in declared order.
    pub open spec fn spec_fields(self) -> Seq<PodView> {
        seq![
            self.command@,
        ]
    }

    /// Whether struct-pod fields begin with this message's shape.
    pub open spec fn field_shape(fs: Seq<PodView>) -> bool {
        &&& fs.len() >= 1
        &&& true
    }

    /// Whether `m` is exactly the message the leading fields carry.
    pub open spec fn parses(fs: Seq<PodView>, m: Command) -> bool {
        &&& fs.len() >= 1
        &&& fs[0] == m.command@
    }

    /// Encodes the payload as a struct pod with the fields in order.
    pub fn to_value(&self) -> (r: Value)
        ensures
            r@ == PodView::Struct(self.spec_fields()),
    {
        let mut fields: Vec<Value> = Vec::new();
        fields.push(clone_value(&self.command));
        let r = Value::Struct(fields);
        proof {
            lemma_pod_views(fields@);
            assert forall|j: int|
                0 <= j < fields@.len() implies pod_views(fields@)[j] == self.spec_fields()[j] by {
                assert(pod_views(fields@)[j] == fields@[j]@);
            }
            assert(pod_views(fields@) =~= self.spec_fields());
        }
        r
    }

    /// Decodes the payload from a struct pod, pulling fields in declared
    /// order; missing trailing fields fail, extra ones are tolerated.
    pub fn from_value(v: &Value) -> (r: Result<Command, PodError>)
        ensures
            match r {
                Ok(m) => v@ matches PodView::Struct(fs) && Command::parses(fs, m),
                Err(e) => !(v@ matches PodView::Struct(fs) && Command::field_shape(fs)) && (e
                    == PodError::InvalidType || e == PodError::PropertyMissing) && (e
                    == PodError::PropertyMissing ==> (v@ matches PodView::Struct(fs2)
                    && fs2.len() < 1)),
            },
    {
        match v {
            Value::Struct(fields) => {
                proof {
                    lemma_pod_views(fields@);
                }
                let pos: usize = 0;
                let (command, pos) = read_value(fields, pos)?;
                let m = Command { command };
                proof {
                    assert(Command::parses(pod_views(fields@), m));
                }
                Ok(m)
            },
            _ => Err(PodError::InvalidType),
        }
    }
}

impl MessageOpCode for Command {
    open spec fn spec_op_code() -> u32 {
        4
    }

    fn op_code() -> (r: u32) {
        4
    }
}

/// ClientNode event: add a port.
#[derive(Debug, PartialEq)]
pub struct AddPort {
    pub direction: i32,
    pub port_id: i32,
    pub props: Dict,
}

impl AddPort {
    /// The payload's struct-pod fields, in declared order.
    pub open spec fn spec_fields(self) -> Seq<PodView> {
        seq![
            PodView::Int(self.direction),
            PodView::Int(self.port_id),
            dict_pod(self.props@),
        ]
    }

    /// Whether struct-pod fields begin with this message's shape.
    pub open spec fn field_shape(fs: Seq<PodView>) -> bool {
        &&& fs.len() >= 3
        &&& fs[0] is Int
        &&& fs[1] is Int
        &&& is_dict(fs[2])
    }

    /// Whether `m` is exactly the message the leading fields carry.
    pub open spec fn parses(fs: Seq<PodView>, m: AddPort) -> bool {
        &&& fs.len() >= 3
        &&& fs[0] == PodView::Int(m.direction)
        &&& fs[1] == PodView::Int(m.port_id)
        &&& is_dict(fs[2]) && m.props@ == dict_of(fs[2])
    }

    /// Encodes the payload as a struct pod with the fields in order.
    pub fn to_value(&self) -> (r: Result<Value, PodError>)
        ensures
            match r {
                Ok(value) => value@ == PodView::Struct(self.spec_fields()),
                Err(_) => self.props@.len() > 0x7fff_ffff,
            },
    {
        let mut fields: Vec<Value> = Vec::new();
        fields.push(Value::Int(self.direction));
        fields.push(Value::Int(self.port_id));
        fields.push(v_dict(&self.props)?);
        let r = Value::Struct(fields);
        proof {
            lemma_pod_views(fields@);
            assert forall|j: int|
                0 <= j < fields@.len() implies pod_views(fields@)[j] == self.spec_fields()[j] by {
                assert(pod_views(fields@)[j] == fields@[j]@);
            }
            assert(pod_views(fields@) =~= self.spec_fields());
        }
        Ok(r)
    }

    /// Decodes the payload from a struct pod, pulling fields in declared
    /// order; missing trailing fields fail, extra ones are tolerated.
    pub fn from_value(v: &Value) -> (r: Result<AddPort, PodError>)
        ensures
            match r {
                Ok(m) => v@ matches PodView::Struct(fs) && AddPort::parses(fs, m),
                Err(e) => !(v@ matches PodView::Struct(fs) && AddPort::field_shape(fs)) && (e
                    == PodError::InvalidType || e == PodError::PropertyMissing) && (e
                    == PodError::PropertyMissing ==> (v@ matches PodView::Struct(fs2)
                    && fs2.len() < 3)),
            },
    {
        match v {
            Value::Struct(fields) => {
                proof {
                    lemma_pod_views(fields@);
                }
                let pos: usize = 0;
                let (direction, pos) = read_int(fields, pos)?;
                let (port_id, pos) = read_int(fields, pos)?;
                let (props, pos) = read_dict(fields, pos)?;
                let m = AddPort { direction, port_id, props };
                proof {
                    assert(AddPort::parses(pod_views(fields@), m));
                }
                Ok(m)
            },
            _ => Err(PodError::InvalidType),
        }
    }
}

impl MessageOpCode for AddPort {
    open spec fn spec_op_code() -> u32 {
        5
    }

    fn op_code() -> (r: u32) {
        5
    }
}

/// ClientNode event: remove a port.
#[derive(Debug, PartialEq)]
pub struct RemovePort {
    pub direction: i32,
    pub port_id: i32,
}

impl RemovePort {
    /// The payload's struct-pod fields, in declared order.
    pub open spec fn spec_fields(self) -> Seq<PodView> {
        seq![
            PodView::Int(self.direction),
            PodView::Int(self.port_id),
        ]
    }

    /// Whether struct-pod fields begin with this message's shape.
    pub open spec fn field_shape(fs: Seq<PodView>) -> bool {
        &&& fs.len() >= 2
        &&& fs[0] is Int
        &&& fs[1] is Int
    }

    /// Whether `m` is exactly the message the leading fields carry.
    pub open spec fn parses(fs: Seq<PodView>, m: RemovePort) -> bool {
        &&& fs.len() >= 2
        &&& fs[0] == PodView::Int(m.direction)
        &&& fs[1] == PodView::Int(m.port_id)
    }

    /// Encodes the payload as a struct pod with the fields in order.
    pub fn to_value(&self) -> (r: Value)
        ensures
            r@ == PodView::Struct(self.spec_fields()),
    {
        let mut fields: Vec<Value> = Vec::new();
        fields.push(Value::Int(self.direction));
        fields.push(Value::Int(self.port_id));
        let r = Value::Struct(fields);
        proof {
            lemma_pod_views(fields@);
            assert forall|j: int|
                0 <= j < fields@.len() implies pod_views(fields@)[j] == self.spec_fields()[j] by {
                assert(pod_views(fields@)[j] == fields@[j]@);
            }
            assert(pod_views(fields@) =~= self.spec_fields());
        }
        r
    }

    /// Decodes the payload from a struct pod, pulling fields in declared
    /// order; missing trailing fields fail, extra ones are tolerated.
    pub fn from_value(v: &Value) -> (r: Result<RemovePort, PodError>)
        ensures
            match r {
                Ok(m) => v@ matches PodView::Struct(fs) && RemovePort::parses(fs, m),
                Err(e) => !(v@ matches PodView::Struct(fs) && RemovePort::field_shape(fs)) && (e
                    == PodError::InvalidType || e == PodError::PropertyMissing) && (e
                    == PodError::PropertyMissing ==> (v@ matches PodView::Struct(fs2)
                    && fs2.len() < 2)),
            },
    {
        match v {
            Value::Struct(fields) => {
                proof {
                    lemma_pod_views(fields@);
                }
                let pos: usize = 0;
                let (direction, pos) = read_int(fields, pos)?;
                let (port_id, pos) = read_int(fields, pos)?;
                let m = RemovePort { direction, port_id };
                proof {
                    assert(RemovePort::parses(pod_views(fields@), m));
                }
                Ok(m)
            },
            _ => Err(PodError::InvalidType),
        }
    }
}

impl MessageOpCode for RemovePort {
    open spec fn spec_op_code() -> u32 {
        6
    }

    fn op_code() -> (r: u32) {
        6
    }
}

/// ClientNode event: set a port parameter.
#[derive(Debug, PartialEq)]
pub struct PortSetParam {
    pub direction: i32,
    pub port_id: i32,
    pub id: Id,
    pub flags: i32,
    pub param: Value,
}

impl PortSetParam {
    /// The payload's struct-pod fields, in declared order.
    pub open spec fn spec_fields(self) -> Seq<PodView> {
        seq![
            PodView::Int(self.direction),
            PodView::Int(self.port_id),
            PodView::Id(self.id.0),
            PodView::Int(self.flags),
            self.param@,
        ]
    }

    /// Whether struct-pod fields begin with this message's shape.
    pub open spec fn field_shape(fs: Seq<PodView>) -> bool {
        &&& fs.len() >= 5
        &&& fs[0] is Int
        &&& fs[1] is Int
        &&& fs[2] is Id
        &&& fs[3] is Int
        &&& true
    }

    /// Whether `m` is exactly the message the leading fields carry.
    pub open spec fn parses(fs: Seq<PodView>, m: PortSetParam) -> bool {
        &&& fs.len() >= 5
        &&& fs[0] == PodView::Int(m.direction)
        &&& fs[1] == PodView::Int(m.port_id)
        &&& fs[2] == PodView::Id(m.id.0)
        &&& fs[3] == PodView::Int(m.flags)
        &&& fs[4] == m.param@
    }

    /// Encodes the payload as a struct pod with the fields in order.
    pub fn to_value(&self) -> (r: Value)
        ensures
            r@ == PodView::Struct(self.spec_fields()),
    {
        let mut fields: Vec<Value> = Vec::new();
        fields.push(Value::Int(self.direction));
        fields.push(Value::Int(self.port_id));
        fields.push(Value::Id(self.id));
        fields.push(Value::Int(self.flags));
        fields.push(clone_value(&self.param));
        let r = Value::Struct(fields);
        proof {
            lemma_pod_views(fields@);
            assert forall|j: int|
                0 <= j < fields@.len() implies pod_views(fields@)[j] == self.spec_fields()[j] by {
                assert(pod_views(fields@)[j] == fields@[j]@);
            }
            assert(pod_views(fields@) =~= self.spec_fields());
        }
        r
    }

    /// Decodes the payload from a struct pod, pulling fields in declared
    /// order; missing trailing fields fail, extra ones are tolerated.
    pub fn from_value(v: &Value) -> (r: Result<PortSetParam, PodError>)
        ensures
            match r {
                Ok(m) => v@ matches PodView::Struct(fs) && PortSetParam::parses(fs, m),
                Err(e) => !(v@ matches PodView::Struct(fs) && PortSetParam::field_shape(fs)) && (e
                    == PodError::InvalidType || e == PodError::PropertyMissing) && (e
                    == PodError::PropertyMissing ==> (v@ matches PodView::Struct(fs2)
                    && fs2.len() < 5)),
            },
    {
        match v {
            Value::Struct(fields) => {
                proof {
                    lemma_pod_views(fields@);
                }
                let pos: usize = 0;
                let (direction, pos) = read_int(fields, pos)?;
                let (port_id, pos) = read_int(fields, pos)?;
                let (id, pos) = read_id(fields, pos)?;
                let (flags, pos) = read_int(fields, pos)?;
                let (param, pos) = read_value(fields, pos)?;
                let m = PortSetParam { direction, port_id, id, flags, param };
                proof {
                    assert(PortSetParam::parses(pod_views(fields@), m));
                }
                Ok(m)
            },
            _ => Err(PodError::InvalidType),
        }
    }
}

impl MessageOpCode for PortSetParam {
    open spec fn spec_op_code() -> u32 {
        7
    }

    fn op_code() -> (r: u32) {
        7
    }
}

/// ClientNode event: attach a port io area, as opaque references.
#[derive(Debug, PartialEq)]
pub struct PortIO {
    pub direction: i32,
    pub port_id: i32,
    pub mix_id: i32,
    pub id: Id,
    pub memid: i32,
    pub offset: i32,
    pub size: i32,
}

impl PortIO {
    /// The payload's struct-pod fields, in declared order.
    pub open spec fn spec_fields(self) -> Seq<PodView> {
        seq![
            PodView::Int(self.direction),
            PodView::Int(self.port_id),
            PodView::Int(self.mix_id),
            PodView::Id(self.id.0),
            PodView::Int(self.memid),
            PodView::Int(self.offset),
            PodView::Int(self.size),
        ]
    }

    /// Whether struct-pod fields begin with this message's shape.
    pub open spec fn field_shape(fs: Seq<PodView>) -> bool {
        &&& fs.len() >= 7
        &&& fs[0] is Int
        &&& fs[1] is Int
        &&& fs[2] is Int
        &&& fs[3] is Id
        &&& fs[4] is Int
        &&& fs[5] is Int
        &&& fs[6] is Int
    }

    /// Whether `m` is exactly the message the leading fields carry.
    pub open spec fn parses(fs: Seq<PodView>, m: PortIO) -> bool {
        &&& fs.len() >= 7
        &&& fs[0] == PodView::Int(m.direction)
        &&& fs[1] == PodView::Int(m.port_id)
        &&& fs[2] == PodView::Int(m.mix_id)
        &&& fs[3] == PodView::Id(m.id.0)
        &&& fs[4] == PodView::Int(m.memid)
        &&& fs[5] == PodView::Int(m.offset)
        &&& fs[6] == PodView::Int(m.size)
    }

    /// Encodes the payload as a struct pod with the fields in order.
    pub fn to_value(&self) -> (r: Value)
        ensures
            r@ == PodView::Struct(self.spec_fields()),
    {
        let mut fields: Vec<Value> = Vec::new();
        fields.push(Value::Int(self.direction));
        fields.push(Value::Int(self.port_id));
        fields.push(Value::Int(self.mix_id));
        fields.push(Value::Id(self.id));
        fields.push(Value::Int(self.memid));
        fields.push(Value::Int(self.offset));
        fields.push(Value::Int(self.size));
        let r = Value::Struct(fields);
        proof {
            lemma_pod_views(fields@);
            assert forall|j: int|
                0 <= j < fields@.len() implies pod_views(fields@)[j] == self.spec_fields()[j] by {
                assert(pod_views(fields@)[j] == fields@[j]@);
            }
            assert(pod_views(fields@) =~= self.spec_fields());
        }
        r
    }

    /// Decodes the payload from a struct pod, pulling fields in declared
    /// order; missing trailing fields fail, extra ones are tolerated.
    pub fn from_value(v: &Value) -> (r: Result<PortIO, PodError>)
        ensures
            match r {
                Ok(m) => v@ matches PodView::Struct(fs) && PortIO::parses(fs, m),
                Err(e) => !(v@ matches PodView::Struct(fs) && PortIO::field_shape(fs)) && (e
                    == PodError::InvalidType || e == PodError::PropertyMissing) && (e
                    == PodError::PropertyMissing ==> (v@ matches PodView::Struct(fs2)
                    && fs2.len() < 7)),
            },
    {
        match v {
            Value::Struct(fields) => {
                proof {
                    lemma_pod_views(fields@);
                }
                let pos: usize = 0;
                let (direction, pos) = read_int(fields, pos)?;
                let (port_id, pos) = read_int(fields, pos)?;
                let (mix_id, pos) = read_int(fields, pos)?;
                let (id, pos) = read_id(fields, pos)?;
                let (memid, pos) = read_int(fields, pos)?;
                let (offset, pos) = read_int(fields, pos)?;
                let (size, pos) = read_int(fields, pos)?;
                let m = PortIO { direction, port_id, mix_id, id, memid, offset, size };
                proof {
                    assert(PortIO::parses(pod_views(fields@), m));
                }
                Ok(m)
            },
            _ => Err(PodError::InvalidType),
        }
    }
}

impl MessageOpCode for PortIO {
    open spec fn spec_op_code() -> u32 {
        9
    }

    fn op_code() -> (r: u32) {
        9
    }
}

/// ClientNode event: attach an activation area, as opaque references.
#[derive(Debug, PartialEq)]
pub struct SetActivation {
    pub nodeid: i32,
    pub signalfd: Fd,
    pub memid: i32,
    pub offset: i32,
    pub size: i32,
}

impl SetActivation {
    /// The payload's struct-pod fields, in declared order.
    pub open spec fn spec_fields(self) -> Seq<PodView> {
        seq![
            PodView::Int(self.nodeid),
            PodView::Fd(self.signalfd.0),
            PodView::Int(self.memid),
            PodView::Int(self.offset),
            PodView::Int(self.size),
        ]
    }

    /// Whether struct-pod fields begin with this message's shape.
    pub open spec fn field_shape(fs: Seq<PodView>) -> bool {
        &&& fs.len() >= 5
        &&& fs[0] is Int
        &&& fs[1] is Fd
        &&& fs[2] is Int
        &&& fs[3] is Int
        &&& fs[4] is Int
    }

    /// Whether `m` is exactly the message the leading fields carry.
    pub open spec fn parses(fs: Seq<PodView>, m: SetActivation) -> bool {
        &&& fs.len() >= 5
        &&& fs[0] == PodView::Int(m.nodeid)
        &&& fs[1] == PodView::Fd(m.signalfd.0)
        &&& fs[2] == PodView::Int(m.memid)
        &&& fs[3] == PodView::Int(m.offset)
        &&& fs[4] == PodView::Int(m.size)
    }

    /// Encodes the payload as a struct pod with the fields in order.
    pub fn to_value(&self) -> (r: Value)
        ensures
            r@ == PodView::Struct(self.spec_fields()),
    {
        let mut fields: Vec<Value> = Vec::new();
        fields.push(Value::Int(self.nodeid));
        fields.push(Value::Fd(self.signalfd));
        fields.push(Value::Int(self.memid));
        fields.push(Value::Int(self.offset));
        fields.push(Value::Int(self.size));
        let r = Value::Struct(fields);
        proof {
            lemma_pod_views(fields@);
            assert forall|j: int|
                0 <= j < fields@.len() implies pod_views(fields@)[j] == self.spec_fields()[j] by {
                assert(pod_views(fields@)[j] == fields@[j]@);
            }
            assert(pod_views(fields@) =~= self.spec_fields());
        }
        r
    }

    /// Decodes the payload from a struct pod, pulling fields in declared
    /// order; missing trailing fields fail, extra ones are tolerated.
    pub fn from_value(v: &Value) -> (r: Result<SetActivation, PodError>)
        ensures
            match r {
                Ok(m) => v@ matches PodView::Struct(fs) && SetActivation::parses(fs, m),
                Err(e) => !(v@ matches PodView::Struct(fs) && SetActivation::field_shape(fs)) && (e
                    == PodError::InvalidType || e == PodError::PropertyMissing) && (e
                    == PodError::PropertyMissing ==> (v@ matches PodView::Struct(fs2)
                    && fs2.len() < 5)),
            },
    {
        match v {
            Value::Struct(fields) => {
                proof {
                    lemma_pod_views(fields@);
                }
                let pos: usize = 0;
                let (nodeid, pos) = read_int(fields, pos)?;
                let (signalfd, pos) = read_fd(fields, pos)?;
                let (memid, pos) = read_int(fields, pos)?;
                let (offset, pos) = read_int(fields, pos)?;
                let (size, pos) = read_int(fields, pos)?;
                let m = SetActivation { nodeid, signalfd, memid, offset, size };
                proof {
                    assert(SetActivation::parses(pod_views(fields@), m));
                }
                Ok(m)
            },
            _ => Err(PodError::InvalidType),
        }
    }
}

impl MessageOpCode for SetActivation {
    open spec fn spec_op_code() -> u32 {
        10
    }

    fn op_code() -> (r: u32) {
        10
    }
}

/// ClientNode event: set mixer information on a port.
#[derive(Debug, PartialEq)]
pub struct PortSetMixInfo {
    pub direction: i32,
    pub port_id: i32,
    pub mix_id: i32,
    pub peer_id: i32,
    pub probs: Dict,
}

impl PortSetMixInfo {
    /// The payload's struct-pod fields, in declared order.
    pub open spec fn spec_fields(self) -> Seq<PodView> {
        seq![
            PodView::Int(self.direction),
            PodView::Int(self.port_id),
            PodView::Int(self.mix_id),
            PodView::Int(self.peer_id),
            dict_pod(self.probs@),
        ]
    }

    /// Whether struct-pod fields begin with this message's shape.
    pub open spec fn field_shape(fs: Seq<PodView>) -> bool {
        &&& fs.len() >= 5
        &&& fs[0] is Int
        &&& fs[1] is Int
        &&& fs[2] is Int
        &&& fs[3] is Int
        &&& is_dict(fs[4])
    }

    /// Whether `m` is exactly the message the leading fields carry.
    pub open spec fn parses(fs: Seq<PodView>, m: PortSetMixInfo) -> bool {
        &&& fs.len() >= 5
        &&& fs[0] == PodView::Int(m.direction)
        &&& fs[1] == PodView::Int(m.port_id)
        &&& fs[2] == PodView::Int(m.mix_id)
        &&& fs[3] == PodView::Int(m.peer_id)
        &&& is_dict(fs[4]) && m.probs@ == dict_of(fs[4])
    }

    /// Encodes the payload as a struct pod with the fields in order.
    pub fn to_value(&self) -> (r: Result<Value, PodError>)
        ensures
            match r {
                Ok(value) => value@ == PodView::Struct(self.spec_fields()),
                Err(_) => self.probs@.len() > 0x7fff_ffff,
            },
    {
        let mut fields: Vec<Value> = Vec::new();
        fields.push(Value::Int(self.direction));
        fields.push(Value::Int(self.port_id));
        fields.push(Value::Int(self.mix_id));
        fields.push(Value::Int(self.peer_id));
        fields.push(v_dict(&self.probs)?);
        let r = Value::Struct(fields);
        proof {
            lemma_pod_views(fields@);
            assert forall|j: int|
                0 <= j < fields@.len() implies pod_views(fields@)[j] == self.spec_fields()[j] by {
                assert(pod_views(fields@)[j] == fields@[j]@);
            }
            assert(pod_views(fields@) =~= self.spec_fields());
        }
        Ok(r)
    }

    /// Decodes the payload from a struct pod, pulling fields in declared
    /// order; missing trailing fields fail, extra ones are tolerated.
    pub fn from_value(v: &Value) -> (r: Result<PortSetMixInfo, PodError>)
        ensures
            match r {
                Ok(m) => v@ matches PodView::Struct(fs) && PortSetMixInfo::parses(fs, m),
                Err(e) => !(v@ matches PodView::Struct(fs) && PortSetMixInfo::field_shape(fs)) && (e
                    == PodError::InvalidType || e == PodError::PropertyMissing) && (e
                    == PodError::PropertyMissing ==> (v@ matches PodView::Struct(fs2)
                    && fs2.len() < 5)),
            },
    {
        match v {
            Value::Struct(fields) => {
                proof {
                    lemma_pod_views(fields@);
                }
                let pos: usize = 0;
                let (direction, pos) = read_int(fields, pos)?;
                let (port_id, pos) = read_int(fields, pos)?;
                let (mix_id, pos) = read_int(fields, pos)?;
                let (peer_id, pos) = read_int(fields, pos)?;
                let (probs, pos) = read_dict(fields, pos)?;
                let m = PortSetMixInfo { direction, port_id, mix_id, peer_id, probs };
                proof {
                    assert(PortSetMixInfo::parses(pod_views(fields@), m));
                }
                Ok(m)
            },
            _ => Err(PodError::InvalidType),
        }
    }
}

impl MessageOpCode for PortSetMixInfo {
    open spec fn spec_op_code() -> u32 {
        11
    }

    fn op_code() -> (r: u32) {
        11
    }
}

// ---------------------------------------------------------------------------
// Manual codecs: count-prefixed lists as adjacent struct fields
// ---------------------------------------------------------------------------

/// The id pod's payload (zero for any other pod).
pub open spec fn sp_id_of(p: PodView) -> Id {
    match p {
        PodView::Id(x) => Id(x),
        _ => Id(0),
    }
}

/// The fd pod's payload (zero for any other pod).
pub open spec fn sp_fd_of(p: PodView) -> Fd {
    match p {
        PodView::Fd(x) => Fd(x),
        _ => Fd(0),
    }
}

/// Reads `n` adjacent pod fields starting at `pos`.
fn read_values(fields: &Vec<Value>, pos: usize, n: usize) -> (r: Result<
    (Vec<Value>, usize),
    PodError,
>)
    ensures
        match r {
            Ok((vs, np)) => np == pos + n && np <= fields@.len() && vs@.len() == n && forall|j: int|
                0 <= j < n ==> (#[trigger] vs@[j])@ == fields@[pos + j]@,
            Err(e) => pos + n > fields@.len() && e == PodError::PropertyMissing,
        },
    decreases n,
{
    if n == 0 {
        if pos > fields.len() {
            return Err(PodError::PropertyMissing);
        }
        let vs: Vec<Value> = Vec::new();
        Ok((vs, pos))
    } else {
        let (v, pos2) = crate::message::read_value(fields, pos)?;
        let (mut rest, np) = read_values(fields, pos2, n - 1)?;
        rest.insert(0, v);
        proof {
            assert(rest@[0] == v);
            assert forall|j: int| 0 <= j < n implies (#[trigger] rest@[j])@ == fields@[pos + j]@ by {
                if j > 0 {
                }
            }
        }
        Ok((rest, np))
    }
}

/// ClientNode method: update the node's parameters and info. The wire
/// shape is `change_mask`, an `Int` count, that many adjacent parameter
/// pods, then the node info struct.
#[derive(Debug, PartialEq)]
pub struct Update {
    pub change_mask: i32,
    pub params: Vec<Value>,
    pub info: crate::node::Info,
}

impl Update {
    /// The payload's struct-pod fields, in declared order.
    pub open spec fn spec_fields(self) -> Seq<PodView> {
        seq![PodView::Int(self.change_mask), PodView::Int(self.params@.len() as i32)] + pod_views(
            self.params@,
        ) + seq![PodView::Struct(self.info.spec_fields())]
    }

    /// Whether struct-pod fields begin with this message's shape.
    pub open spec fn field_shape(fs: Seq<PodView>) -> bool {
        &&& fs.len() >= 2
        &&& fs[0] is Int
        &&& fs[1] matches PodView::Int(n)
        &&& n >= 0
        &&& fs.len() >= 3 + n as int
        &&& fs[2 + n as int] matches PodView::Struct(gs)
        &&& crate::node::Info::field_shape(gs)
    }

    /// Whether `m` is exactly the message the leading fields carry.
    pub open spec fn parses(fs: Seq<PodView>, m: Update) -> bool {
        &&& fs.len() >= 2
        &&& fs[0] == PodView::Int(m.change_mask)
        &&& m.params@.len() <= 0x7fff_ffff
        &&& fs[1] == PodView::Int(m.params@.len() as i32)
        &&& fs.len() >= 3 + m.params@.len()
        &&& pod_views(m.params@) == fs.subrange(2, 2 + m.params@.len() as int)
        &&& fs[2 + m.params@.len() as int] matches PodView::Struct(gs)
        &&& crate::node::Info::parses(gs, m.info)
    }

    /// Encodes the payload: the count is written before the parameters.
    pub fn to_value(&self) -> (r: Result<Value, PodError>)
        ensures
            match r {
                Ok(value) => value@ == PodView::Struct(self.spec_fields()),
                Err(_) => self.params@.len() > 0x7fff_ffff || self.info.props@.len() > 0x7fff_ffff
                    || self.info.param_info@.len() > 0x7fff_ffff,
            },
    {
        if self.params.len() as u64 > 0x7fff_ffffu64 {
            return Err(PodError::ParseError);
        }
        let mut fields: Vec<Value> = Vec::new();
        fields.push(Value::Int(self.change_mask));
        fields.push(Value::Int(self.params.len() as i32));
        let mut i: usize = 0;
        while i < self.params.len()
            invariant
                i <= self.params@.len(),
                fields@.len() == 2 + i,
                fields@[0]@ == PodView::Int(self.change_mask),
                fields@[1]@ == PodView::Int(self.params@.len() as i32),
                forall|j: int| 0 <= j < i ==> (#[trigger] fields@[2 + j])@ == self.params@[j]@,
            decreases self.params@.len() - i,
        {
            fields.push(clone_value(&self.params[i]));
            i = i + 1;
        }
        fields.push(self.info.to_value()?);
        let r = Value::Struct(fields);
        proof {
            lemma_pod_views(fields@);
            lemma_pod_views(self.params@);
            assert forall|j: int|
                0 <= j < fields@.len() implies pod_views(fields@)[j] == self.spec_fields()[j] by {
                assert(pod_views(fields@)[j] == fields@[j]@);
                if 2 <= j < 2 + self.params@.len() {
                    assert(fields@[2 + (j - 2)]@ == self.params@[j - 2]@);
                }
            }
            assert(pod_views(fields@) =~= self.spec_fields());
        }
        Ok(r)
    }

    /// Decodes the payload: reads the count, loops for exactly that many
    /// parameters, then the info struct.
    pub fn from_value(v: &Value) -> (r: Result<Update, PodError>)
        ensures
            match r {
                Ok(m) => v@ matches PodView::Struct(fs) && Update::parses(fs, m),
                Err(e) => !(v@ matches PodView::Struct(fs) && Update::field_shape(fs)) && (e
                    == PodError::InvalidType || e == PodError::PropertyMissing),
            },
    {
        match v {
            Value::Struct(fields) => {
                proof {
                    lemma_pod_views(fields@);
                }
                let pos: usize = 0;
                let (change_mask, pos) = read_int(fields, pos)?;
                let (n, pos) = read_int(fields, pos)?;
                if n < 0 {
                    return Err(PodError::InvalidType);
                }
                let (params, pos) = read_values(fields, pos, n as usize)?;
                if pos >= fields.len() {
                    return Err(PodError::PropertyMissing);
                }
                let info = match crate::node::Info::from_value(&fields[pos]) {
                    Ok(info) => info,
                    Err(e) => {
                        return Err(e);
                    },
                };
                let m = Update { change_mask, params, info };
                proof {
                    lemma_pod_views(m.params@);
                    assert forall|j: int|
                        0 <= j < n as int implies pod_views(m.params@)[j] == pod_views(
                        fields@,
                    ).subrange(2, 2 + n as int)[j] by {
                        assert(m.params@[j]@ == fields@[2 + j]@);
                        assert(pod_views(fields@)[2 + j] == fields@[2 + j]@);
                    }
                    assert(pod_views(m.params@) =~= pod_views(fields@).subrange(2, 2 + n as int));
                    assert(Update::parses(pod_views(fields@), m));
                }
                Ok(m)
            },
            _ => Err(PodError::InvalidType),
        }
    }
}

/// ClientNode method: update one port's parameters and info; the same
/// count-prefixed shape as `Update`, scoped by direction and port.
#[derive(Debug, PartialEq)]
pub struct PortUpdate {
    pub direction: i32,
    pub port_id: i32,
    pub change_mask: i32,
    pub params: Vec<Value>,
    pub info: crate::port::Info,
}

impl PortUpdate {
    /// The payload's struct-pod fields, in declared order.
    pub open spec fn spec_fields(self) -> Seq<PodView> {
        seq![
            PodView::Int(self.direction),
            PodView::Int(self.port_id),
            PodView::Int(self.change_mask),
            PodView::Int(self.params@.len() as i32),
        ] + pod_views(self.params@) + seq![PodView::Struct(self.info.spec_fields())]
    }

    /// Whether struct-pod fields begin with this message's shape.
    pub open spec fn field_shape(fs: Seq<PodView>) -> bool {
        &&& fs.len() >= 4
        &&& fs[0] is Int
        &&& fs[1] is Int
        &&& fs[2] is Int
        &&& fs[3] matches PodView::Int(n)
        &&& n >= 0
        &&& fs.len() >= 5 + n as int
        &&& fs[4 + n as int] matches PodView::Struct(gs)
        &&& crate::port::Info::field_shape(gs)
    }

    /// Whether `m` is exactly the message the leading fields carry.
    pub open spec fn parses(fs: Seq<PodView>, m: PortUpdate) -> bool {
        &&& fs.len() >= 4
        &&& fs[0] == PodView::Int(m.direction)
        &&& fs[1] == PodView::Int(m.port_id)
        &&& fs[2] == PodView::Int(m.change_mask)
        &&& m.params@.len() <= 0x7fff_ffff
        &&& fs[3] == PodView::Int(m.params@.len() as i32)
        &&& fs.len() >= 5 + m.params@.len()
        &&& pod_views(m.params@) == fs.subrange(4, 4 + m.params@.len() as int)
        &&& fs[4 + m.params@.len() as int] matches PodView::Struct(gs)
        &&& crate::port::Info::parses(gs, m.info)
    }

    /// Encodes the payload: the count is written before the parameters.
    pub fn to_value(&self) -> (r: Result<Value, PodError>)
        ensures
            match r {
                Ok(value) => value@ == PodView::Struct(self.spec_fields()),
                Err(_) => self.params@.len() > 0x7fff_ffff || self.info.props@.len() > 0x7fff_ffff
                    || self.info.param_info@.len() > 0x7fff_ffff,
            },
    {
        if self.params.len() as u64 > 0x7fff_ffffu64 {
            return Err(PodError::ParseError);
        }
        let mut fields: Vec<Value> = Vec::new();
        fields.push(Value::Int(self.direction));
        fields.push(Value::Int(self.port_id));
        fields.push(Value::Int(self.change_mask));
        fields.push(Value::Int(self.params.len() as i32));
        let mut i: usize = 0;
        while i < self.params.len()
            invariant
                i <= self.params@.len(),
                fields@.len() == 4 + i,
                fields@[0]@ == PodView::Int(self.direction),
                fields@[1]@ == PodView::Int(self.port_id),
                fields@[2]@ == PodView::Int(self.change_mask),
                fields@[3]@ == PodView::Int(self.params@.len() as i32),
                forall|j: int| 0 <= j < i ==> (#[trigger] fields@[4 + j])@ == self.params@[j]@,
            decreases self.params@.len() - i,
        {
            fields.push(clone_value(&self.params[i]));
            i = i + 1;
        }
        fields.push(self.info.to_value()?);
        let r = Value::Struct(fields);
        proof {
            lemma_pod_views(fields@);
            lemma_pod_views(self.params@);
            assert forall|j: int|
                0 <= j < fields@.len() implies pod_views(fields@)[j] == self.spec_fields()[j] by {
                assert(pod_views(fields@)[j] == fields@[j]@);
                if 4 <= j < 4 + self.params@.len() {
                    assert(fields@[4 + (j - 4)]@ == self.params@[j - 4]@);
                }
            }
            assert(pod_views(fields@) =~= self.spec_fields());
        }
        Ok(r)
    }

    /// Decodes the payload: reads the count, loops for exactly that many
    /// parameters, then the info struct.
    pub fn from_value(v: &Value) -> (r: Result<PortUpdate, PodError>)
        ensures
            match r {
                Ok(m) => v@ matches PodView::Struct(fs) && PortUpdate::parses(fs, m),
                Err(e) => !(v@ matches PodView::Struct(fs) && PortUpdate::field_shape(fs)) && (e
                    == PodError::InvalidType || e == PodError::PropertyMissing),
            },
    {
        match v {
            Value::Struct(fields) => {
                proof {
                    lemma_pod_views(fields@);
                }
                let pos: usize = 0;
                let (direction, pos) = read_int(fields, pos)?;
                let (port_id, pos) = read_int(fields, pos)?;
                let (change_mask, pos) = read_int(fields, pos)?;
                let (n, pos) = read_int(fields, pos)?;
                if n < 0 {
                    return Err(PodError::InvalidType);
                }
                let (params, pos) = read_values(fields, pos, n as usize)?;
                if pos >= fields.len() {
                    return Err(PodError::PropertyMissing);
                }
                let info = match crate::port::Info::from_value(&fields[pos]) {
                    Ok(info) => info,
                    Err(e) => {
                        return Err(e);
                    },
                };
                let m = PortUpdate { direction, port_id, change_mask, params, info };
                proof {
                    lemma_pod_views(m.params@);
                    assert forall|j: int|
                        0 <= j < n as int implies pod_views(m.params@)[j] == pod_views(
                        fields@,
                    ).subrange(4, 4 + n as int)[j] by {
                        assert(m.params@[j]@ == fields@[4 + j]@);
                        assert(pod_views(fields@)[4 + j] == fields@[4 + j]@);
                    }
                    assert(pod_views(m.params@) =~= pod_views(fields@).subrange(4, 4 + n as int));
                    assert(PortUpdate::parses(pod_views(fields@), m));
                }
                Ok(m)
            },
            _ => Err(PodError::InvalidType),
        }
    }
}

// ---------------------------------------------------------------------------
// Buffers: nested count-prefixed lists
// ---------------------------------------------------------------------------

/// One data plane of a buffer, as opaque references.
#[derive(Debug, Copy, Clone, PartialEq, Eq, Structural)]
pub struct DataPlane {
    pub type_: Id,
    pub memfd: Fd,
    pub flags: i32,
    pub mapoffset: i32,
    pub maxsize: i32,
}

/// One buffer: a count-prefixed list of data planes.
#[derive(Debug, PartialEq)]
pub struct Buffer {
    pub data_planes: Vec<DataPlane>,
}

/// The view of a buffer: its data planes.
pub open spec fn fview_buffer() -> spec_fn(Buffer) -> Seq<DataPlane> {
    |b: Buffer| b.data_planes@
}

/// The five adjacent fields of one data plane.
pub open spec fn plane_fields(p: DataPlane) -> Seq<PodView> {
    seq![
        PodView::Id(p.type_.0),
        PodView::Fd(p.memfd.0),
        PodView::Int(p.flags),
        PodView::Int(p.mapoffset),
        PodView::Int(p.maxsize),
    ]
}

/// The flattened fields of a run of data planes.
pub open spec fn planes_fields(l: Seq<DataPlane>) -> Seq<PodView>
    decreases l.len(),
{
    if l.len() <= 0 {
        Seq::empty()
    } else {
        plane_fields(l[0]) + planes_fields(l.drop_first())
    }
}

/// The flattened fields of a run of buffers, each count-prefixed.
pub open spec fn buffers_fields(l: Seq<Seq<DataPlane>>) -> Seq<PodView>
    decreases l.len(),
{
    if l.len() <= 0 {
        Seq::empty()
    } else {
        seq![PodView::Int(l[0].len() as i32)] + planes_fields(l[0]) + buffers_fields(
            l.drop_first(),
        )
    }
}

/// Whether `n` data planes stand at `pos`.
pub open spec fn planes_shape(fs: Seq<PodView>, pos: int, n: int) -> bool
    decreases n,
{
    n <= 0 || {
        &&& pos + 5 <= fs.len()
        &&& fs[pos] is Id
        &&& fs[pos + 1] is Fd
        &&& fs[pos + 2] is Int
        &&& fs[pos + 3] is Int
        &&& fs[pos + 4] is Int
        &&& planes_shape(fs, pos + 5, n - 1)
    }
}

/// The `n` data planes standing at `pos`.
pub open spec fn planes_of(fs: Seq<PodView>, pos: int, n: int) -> Seq<DataPlane>
    decreases n,
{
    if n <= 0 {
        Seq::empty()
    } else {
        seq![
            DataPlane {
                type_: sp_id_of(fs[pos]),
                memfd: sp_fd_of(fs[pos + 1]),
                flags: sp_int(fs[pos + 2]),
                mapoffset: sp_int(fs[pos + 3]),
                maxsize: sp_int(fs[pos + 4]),
            },
        ] + planes_of(fs, pos + 5, n - 1)
    }
}

/// Whether `n` count-prefixed buffers stand at `pos`.
pub open spec fn buffers_shape(fs: Seq<PodView>, pos: int, n: int) -> bool
    decreases n,
{
    n <= 0 || {
        &&& 0 <= pos < fs.len()
        &&& fs[pos] matches PodView::Int(k)
        &&& k >= 0
        &&& planes_shape(fs, pos + 1, k as int)
        &&& buffers_shape(fs, pos + 1 + 5 * (k as int), n - 1)
    }
}

/// The `n` buffers standing at `pos`.
pub open spec fn buffers_of(fs: Seq<PodView>, pos: int, n: int) -> Seq<Seq<DataPlane>>
    decreases n,
{
    if n <= 0 {
        Seq::empty()
    } else {
        let k = sp_int(fs[pos]) as int;
        seq![planes_of(fs, pos + 1, k)] + buffers_of(fs, pos + 1 + 5 * k, n - 1)
    }
}

/// The position just past `n` buffers standing at `pos`.
pub open spec fn buffers_end(fs: Seq<PodView>, pos: int, n: int) -> int
    decreases n,
{
    if n <= 0 {
        pos
    } else {
        buffers_end(fs, pos + 1 + 5 * (sp_int(fs[pos]) as int), n - 1)
    }
}

/// `buffers_of` yields one buffer per count.
pub proof fn lemma_buffers_of_len(fs: Seq<PodView>, pos: int, n: int)
    requires
        n >= 0,
    ensures
        buffers_of(fs, pos, n).len() == n,
    decreases n,
{
    if n > 0 {
        lemma_buffers_of_len(fs, pos + 1 + 5 * (sp_int(fs[pos]) as int), n - 1);
    }
}

/// Reads `n` data planes at `pos`.
fn read_planes(fields: &Vec<Value>, pos: usize, n: usize) -> (r: Result<
    (Vec<DataPlane>, usize),
    PodError,
>)
    requires
        pos <= fields@.len(),
    ensures
        match r {
            Ok((ps, np)) => planes_shape(pod_views(fields@), pos as int, n as int) && ps@
                == planes_of(pod_views(fields@), pos as int, n as int) && np == pos + 5 * n && np
                <= fields@.len(),
            Err(e) => !planes_shape(pod_views(fields@), pos as int, n as int) && (e
                == PodError::InvalidType || e == PodError::PropertyMissing),
        },
    decreases n,
{
    proof {
        lemma_pod_views(fields@);
    }
    if n == 0 {
        let ps: Vec<DataPlane> = Vec::new();
        assert(ps@ =~= planes_of(pod_views(fields@), pos as int, 0));
        Ok((ps, pos))
    } else {
        let (type_, pos2) = read_id(fields, pos)?;
        let (memfd, pos2) = read_fd(fields, pos2)?;
        let (flags, pos2) = read_int(fields, pos2)?;
        let (mapoffset, pos2) = read_int(fields, pos2)?;
        let (maxsize, pos2) = read_int(fields, pos2)?;
        let (mut rest, np) = read_planes(fields, pos2, n - 1)?;
        let p = DataPlane { type_, memfd, flags, mapoffset, maxsize };
        rest.insert(0, p);
        proof {
            assert(rest@ =~= seq![p] + planes_of(pod_views(fields@), pos + 5, n - 1));
        }
        Ok((rest, np))
    }
}

/// Writes `n` data planes, five adjacent fields each, from index `i` on.
fn write_planes(fields: &mut Vec<Value>, l: &Vec<DataPlane>, i: usize)
    requires
        i <= l@.len(),
    ensures
        final(fields)@.len() == old(fields)@.len() + 5 * (l@.len() - i),
        pod_views(final(fields)@) =~= pod_views(old(fields)@) + planes_fields(l@.skip(i as int)),
    decreases l@.len() - i,
{
    proof {
        lemma_pod_views(fields@);
    }
    if i < l.len() {
        let p = l[i];
        fields.push(Value::Id(p.type_));
        fields.push(Value::Fd(p.memfd));
        fields.push(Value::Int(p.flags));
        fields.push(Value::Int(p.mapoffset));
        fields.push(Value::Int(p.maxsize));
        let ghost mid = fields@;
        write_planes(fields, l, i + 1);
        proof {
            lemma_pod_views(mid);
            lemma_pod_views(fields@);
            lemma_pod_views(old(fields)@);
            assert(l@.skip(i as int).drop_first() =~= l@.skip(i + 1));
            assert(l@.skip(i as int)[0] == l@[i as int]);
            assert(mid =~= old(fields)@ + seq![
                Value::Id(p.type_),
                Value::Fd(p.memfd),
                Value::Int(p.flags),
                Value::Int(p.mapoffset),
                Value::Int(p.maxsize),
            ]);
            assert forall|j: int|
                0 <= j < mid.len() implies pod_views(mid)[j] == (pod_views(old(fields)@)
                + plane_fields(l@[i as int]))[j] by {
                assert(pod_views(mid)[j] == mid[j]@);
                if j < old(fields)@.len() {
                    assert(mid[j] == old(fields)@[j]);
                }
            }
            assert(pod_views(mid) =~= pod_views(old(fields)@) + plane_fields(l@[i as int]));
            assert(pod_views(fields@) =~= pod_views(old(fields)@) + planes_fields(
                l@.skip(i as int),
            ));
        }
    } else {
        proof {
            assert(l@.skip(i as int) =~= Seq::<DataPlane>::empty());
            assert(pod_views(fields@) =~= pod_views(old(fields)@) + planes_fields(
                l@.skip(i as int),
            ));
        }
    }
}

/// Reads `n` count-prefixed buffers at `pos`.
fn read_buffers(fields: &Vec<Value>, pos: usize, n: usize) -> (r: Result<
    (Vec<Buffer>, usize),
    PodError,
>)
    requires
        pos <= fields@.len(),
    ensures
        match r {
            Ok((bs, np)) => buffers_shape(pod_views(fields@), pos as int, n as int) && bs@
                .map_values(fview_buffer()) == buffers_of(pod_views(fields@), pos as int, n as int)
                && np == buffers_end(pod_views(fields@), pos as int, n as int) && np
                <= fields@.len(),
            Err(e) => !buffers_shape(pod_views(fields@), pos as int, n as int) && (e
                == PodError::InvalidType || e == PodError::PropertyMissing),
        },
    decreases n,
{
    proof {
        lemma_pod_views(fields@);
    }
    if n == 0 {
        let bs: Vec<Buffer> = Vec::new();
        assert(bs@.map_values(fview_buffer()) =~= buffers_of(pod_views(fields@), pos as int, 0));
        Ok((bs, pos))
    } else {
        let (k, pos2) = read_int(fields, pos)?;
        if k < 0 {
            return Err(PodError::InvalidType);
        }
        let (planes, pos3) = read_planes(fields, pos2, k as usize)?;
        let (mut rest, np) = read_buffers(fields, pos3, n - 1)?;
        let ghost tail = rest@;
        let b = Buffer { data_planes: planes };
        rest.insert(0, b);
        proof {
            assert(rest@.drop_first() =~= tail);
            assert(rest@.map_values(fview_buffer()) =~= seq![planes@] + tail.map_values(
                fview_buffer(),
            ));
        }
        Ok((rest, np))
    }
}

/// Writes `n` count-prefixed buffers from index `i` on.
fn write_buffers(fields: &mut Vec<Value>, l: &Vec<Buffer>, i: usize) -> (r: Result<(), PodError>)
    requires
        i <= l@.len(),
    ensures
        match r {
            Ok(()) => pod_views(final(fields)@) =~= pod_views(old(fields)@) + buffers_fields(
                l@.map_values(fview_buffer()).skip(i as int),
            ),
            Err(_) => exists|j: int|
                i <= j < l@.len() && (#[trigger] l@[j]).data_planes@.len() > 0x7fff_ffff,
        },
        (forall|j: int|
            i <= j < l@.len() ==> (#[trigger] l@[j]).data_planes@.len() <= 0x7fff_ffff) ==> r
            is Ok,
    decreases l@.len() - i,
{
    proof {
        lemma_pod_views(fields@);
    }
    if i < l.len() {
        if l[i].data_planes.len() as u64 > 0x7fff_ffffu64 {
            assert(l@[i as int].data_planes@.len() > 0x7fff_ffff);
            return Err(PodError::ParseError);
        }
        fields.push(Value::Int(l[i].data_planes.len() as i32));
        let ghost mid0 = fields@;
        proof {
            lemma_pod_views(mid0);
            assert(mid0 =~= old(fields)@ + seq![
                Value::Int(l@[i as int].data_planes@.len() as i32),
            ]);
            assert forall|j: int|
                0 <= j < mid0.len() implies pod_views(mid0)[j] == (pod_views(old(fields)@) + seq![
                PodView::Int(l@[i as int].data_planes@.len() as i32),
            ])[j] by {
                assert(pod_views(mid0)[j] == mid0[j]@);
                if j < old(fields)@.len() {
                    assert(mid0[j] == old(fields)@[j]);
                }
            }
            assert(pod_views(mid0) =~= pod_views(old(fields)@) + seq![
                PodView::Int(l@[i as int].data_planes@.len() as i32),
            ]);
        }
        write_planes(fields, &l[i].data_planes, 0);
        let ghost mid = fields@;
        let res = write_buffers(fields, l, i + 1);
        if res.is_err() {
            return Err(PodError::ParseError);
        }
        proof {
            lemma_pod_views(mid);
            lemma_pod_views(old(fields)@);
            let m = l@.map_values(fview_buffer());
            assert(m.skip(i as int).drop_first() =~= m.skip(i + 1));
            assert(m.skip(i as int)[0] == l@[i as int].data_planes@);
            assert(l@[i as int].data_planes@.skip(0) =~= l@[i as int].data_planes@);
            assert(pod_views(mid) =~= pod_views(old(fields)@) + (seq![
                PodView::Int(l@[i as int].data_planes@.len() as i32),
            ] + planes_fields(l@[i as int].data_planes@)));
            assert(pod_views(fields@) =~= pod_views(old(fields)@) + buffers_fields(
                m.skip(i as int),
            ));
        }
        Ok(())
    } else {
        proof {
            let m = l@.map_values(fview_buffer());
            assert(m.skip(i as int) =~= Seq::<Seq<DataPlane>>::empty());
            assert(pod_views(fields@) =~= pod_views(old(fields)@) + buffers_fields(
                m.skip(i as int),
            ));
        }
        Ok(())
    }
}

/// ClientNode event: the buffers attached to one port mix, as nested
/// count-prefixed lists of opaque references.
#[derive(Debug, PartialEq)]
pub struct PortBuffers {
    pub direction: i32,
    pub port_id: i32,
    pub mix_id: i32,
    pub buffers: Vec<Buffer>,
}

impl PortBuffers {
    /// The payload's struct-pod fields, in declared order.
    pub open spec fn spec_fields(self) -> Seq<PodView> {
        seq![
            PodView::Int(self.direction),
            PodView::Int(self.port_id),
            PodView::Int(self.mix_id),
            PodView::Int(self.buffers@.len() as i32),
        ] + buffers_fields(self.buffers@.map_values(fview_buffer()))
    }

    /// Whether struct-pod fields begin with this message's shape.
    pub open spec fn field_shape(fs: Seq<PodView>) -> bool {
        &&& fs.len() >= 4
        &&& fs[0] is Int
        &&& fs[1] is Int
        &&& fs[2] is Int
        &&& fs[3] matches PodView::Int(n)
        &&& n >= 0
        &&& buffers_shape(fs, 4, n as int)
    }

    /// Whether `m` is exactly the message the leading fields carry.
    pub open spec fn parses(fs: Seq<PodView>, m: PortBuffers) -> bool {
        &&& fs.len() >= 4
        &&& fs[0] == PodView::Int(m.direction)
        &&& fs[1] == PodView::Int(m.port_id)
        &&& fs[2] == PodView::Int(m.mix_id)
        &&& m.buffers@.len() <= 0x7fff_ffff
        &&& fs[3] == PodView::Int(m.buffers@.len() as i32)
        &&& buffers_shape(fs, 4, m.buffers@.len() as int)
        &&& m.buffers@.map_values(fview_buffer()) == buffers_of(fs, 4, m.buffers@.len() as int)
    }

    /// Encodes the payload: each list is written as its count followed by
    /// that many adjacent fields.
    pub fn to_value(&self) -> (r: Result<Value, PodError>)
        ensures
            r matches Ok(value) ==> value@ == PodView::Struct(self.spec_fields()),
            r is Err ==> self.buffers@.len() > 0x7fff_ffff || exists|j: int|
                0 <= j < self.buffers@.len() && (#[trigger] self.buffers@[j]).data_planes@.len() > 0x7fff_ffff,
            (self.buffers@.len() <= 0x7fff_ffff && forall|j: int|
                0 <= j < self.buffers@.len() ==> (#[trigger] self.buffers@[j]).data_planes@.len() <= 0x7fff_ffff) ==> r is Ok,
    {
        if self.buffers.len() as u64 > 0x7fff_ffffu64 {
            return Err(PodError::ParseError);
        }
        let mut fields: Vec<Value> = Vec::new();
        fields.push(Value::Int(self.direction));
        fields.push(Value::Int(self.port_id));
        fields.push(Value::Int(self.mix_id));
        fields.push(Value::Int(self.buffers.len() as i32));
        let ghost head = fields@;
        match write_buffers(&mut fields, &self.buffers, 0) {
            Ok(()) => {},
            Err(e) => {
                return Err(e);
            },
        }
        let r = Value::Struct(fields);
        proof {
            lemma_pod_views(head);
            let hd = seq![
                PodView::Int(self.direction),
                PodView::Int(self.port_id),
                PodView::Int(self.mix_id),
                PodView::Int(self.buffers@.len() as i32),
            ];
            assert forall|j: int| 0 <= j < head.len() implies pod_views(head)[j] == hd[j] by {
                assert(pod_views(head)[j] == head[j]@);
            }
            assert(pod_views(head) =~= hd);
            let m = self.buffers@.map_values(fview_buffer());
            assert(m.skip(0) =~= m);
            assert(pod_views(fields@) =~= self.spec_fields());
        }
        Ok(r)
    }

    /// Decodes the payload: reads the buffer count and loops, reading each
    /// buffer's plane count and planes.
    pub fn from_value(v: &Value) -> (r: Result<PortBuffers, PodError>)
        ensures
            match r {
                Ok(m) => v@ matches PodView::Struct(fs) && PortBuffers::parses(fs, m),
                Err(e) => !(v@ matches PodView::Struct(fs) && PortBuffers::field_shape(fs)) && (e
                    == PodError::InvalidType || e == PodError::PropertyMissing),
            },
    {
        match v {
            Value::Struct(fields) => {
                proof {
                    lemma_pod_views(fields@);
                }
                let pos: usize = 0;
                let (direction, pos) = read_int(fields, pos)?;
                let (port_id, pos) = read_int(fields, pos)?;
                let (mix_id, pos) = read_int(fields, pos)?;
                let (n, pos) = read_int(fields, pos)?;
                if n < 0 {
                    return Err(PodError::InvalidType);
                }
                let (buffers, _pos) = read_buffers(fields, pos, n as usize)?;
                let m = PortBuffers { direction, port_id, mix_id, buffers };
                proof {
                    lemma_buffers_of_len(pod_views(fields@), 4, n as int);
                    assert(m.buffers@.map_values(fview_buffer()).len() == n as int);
                    assert(PortBuffers::parses(pod_views(fields@), m));
                }
                Ok(m)
            },
            _ => Err(PodError::InvalidType),
        }
    }
}

// ---------------------------------------------------------------------------
// UseBuffers: mixer buffers with nested meta and data-block lists
// ---------------------------------------------------------------------------

/// One buffer meta area.
#[derive(Debug, Copy, Clone, PartialEq, Eq, Structural)]
pub struct Meta {
    pub type_: Id,
    pub size: i32,
}

/// One data block of a mixer buffer, as opaque references.
#[derive(Debug, Copy, Clone, PartialEq, Eq, Structural)]
pub struct DataBlock {
    pub type_: Id,
    pub data: i32,
    pub flags: i32,
    pub mapoffset: i32,
    pub maxsize: i32,
}

/// One mixer buffer: its memory window plus count-prefixed meta and
/// data-block lists. The `flags` field is not written on the wire; the
/// decoder fills it from the enclosing message's `flags`.
#[derive(Debug, PartialEq)]
pub struct MixerBuffer {
    pub memid: i32,
    pub offset: i32,
    pub size: i32,
    pub flags: i32,
    pub metas: Vec<Meta>,
    pub data_blocks: Vec<DataBlock>,
}

/// The on-wire view of a mixer buffer (without `flags`).
pub open spec fn fview_mixer() -> spec_fn(MixerBuffer) -> (i32, i32, i32, Seq<Meta>, Seq<
    DataBlock,
>) {
    |b: MixerBuffer| (b.memid, b.offset, b.size, b.metas@, b.data_blocks@)
}

pub open spec fn meta_fields(m: Meta) -> Seq<PodView> {
    seq![PodView::Id(m.type_.0), PodView::Int(m.size)]
}

pub open spec fn metas_fields(l: Seq<Meta>) -> Seq<PodView>
    decreases l.len(),
{
    if l.len() <= 0 {
        Seq::empty()
    } else {
        meta_fields(l[0]) + metas_fields(l.drop_first())
    }
}

pub open spec fn block_fields(b: DataBlock) -> Seq<PodView> {
    seq![
        PodView::Id(b.type_.0),
        PodView::Int(b.data),
        PodView::Int(b.flags),
        PodView::Int(b.mapoffset),
        PodView::Int(b.maxsize),
    ]
}

pub open spec fn blocks_fields(l: Seq<DataBlock>) -> Seq<PodView>
    decreases l.len(),
{
    if l.len() <= 0 {
        Seq::empty()
    } else {
        block_fields(l[0]) + blocks_fields(l.drop_first())
    }
}

/// The flattened fields of one mixer buffer.
pub open spec fn mixer_fields(b: (i32, i32, i32, Seq<Meta>, Seq<DataBlock>)) -> Seq<PodView> {
    seq![
        PodView::Int(b.0),
        PodView::Int(b.1),
        PodView::Int(b.2),
        PodView::Int(b.3.len() as i32),
    ] + metas_fields(b.3) + seq![PodView::Int(b.4.len() as i32)] + blocks_fields(b.4)
}

/// The flattened fields of a run of mixer buffers.
pub open spec fn mixers_fields(l: Seq<(i32, i32, i32, Seq<Meta>, Seq<DataBlock>)>) -> Seq<PodView>
    decreases l.len(),
{
    if l.len() <= 0 {
        Seq::empty()
    } else {
        mixer_fields(l[0]) + mixers_fields(l.drop_first())
    }
}

/// Whether `n` metas stand at `pos`.
pub open spec fn metas_shape(fs: Seq<PodView>, pos: int, n: int) -> bool
    decreases n,
{
    n <= 0 || {
        &&& pos + 2 <= fs.len()
        &&& fs[pos] is Id
        &&& fs[pos + 1] is Int
        &&& metas_shape(fs, pos + 2, n - 1)
    }
}

/// The `n` metas standing at `pos`.
pub open spec fn metas_of(fs: Seq<PodView>, pos: int, n: int) -> Seq<Meta>
    decreases n,
{
    if n <= 0 {
        Seq::empty()
    } else {
        seq![Meta { type_: sp_id_of(fs[pos]), size: sp_int(fs[pos + 1]) }] + metas_of(
            fs,
            pos + 2,
            n - 1,
        )
    }
}

/// Whether `n` data blocks stand at `pos`.
pub open spec fn blocks_shape(fs: Seq<PodView>, pos: int, n: int) -> bool
    decreases n,
{
    n <= 0 || {
        &&& pos + 5 <= fs.len()
        &&& fs[pos] is Id
        &&& fs[pos + 1] is Int
        &&& fs[pos + 2] is Int
        &&& fs[pos + 3] is Int
        &&& fs[pos + 4] is Int
        &&& blocks_shape(fs, pos + 5, n - 1)
    }
}

/// The `n` data blocks standing at `pos`.
pub open spec fn blocks_of(fs: Seq<PodView>, pos: int, n: int) -> Seq<DataBlock>
    decreases n,
{
    if n <= 0 {
        Seq::empty()
    } else {
        seq![
            DataBlock {
                type_: sp_id_of(fs[pos]),
                data: sp_int(fs[pos + 1]),
                flags: sp_int(fs[pos + 2]),
                mapoffset: sp_int(fs[pos + 3]),
                maxsize: sp_int(fs[pos + 4]),
            },
        ] + blocks_of(fs, pos + 5, n - 1)
    }
}

/// The position just past one mixer buffer standing at `pos`, assuming
/// its shape holds.
pub open spec fn mixer_end(fs: Seq<PodView>, pos: int) -> int {
    let nm = sp_int(fs[pos + 3]) as int;
    let bpos = pos + 4 + 2 * nm;
    bpos + 1 + 5 * (sp_int(fs[bpos]) as int)
}

/// Whether `n` mixer buffers stand at `pos`.
pub open spec fn mixers_shape(fs: Seq<PodView>, pos: int, n: int) -> bool
    decreases n,
{
    n <= 0 || {
        &&& pos + 4 <= fs.len()
        &&& fs[pos] is Int
        &&& fs[pos + 1] is Int
        &&& fs[pos + 2] is Int
        &&& fs[pos + 3] matches PodView::Int(nm)
        &&& nm >= 0
        &&& metas_shape(fs, pos + 4, nm as int)
        &&& {
            let bpos = pos + 4 + 2 * (nm as int);
            &&& bpos < fs.len()
            &&& fs[bpos] matches PodView::Int(nb)
            &&& nb >= 0
            &&& blocks_shape(fs, bpos + 1, nb as int)
            &&& mixers_shape(fs, bpos + 1 + 5 * (nb as int), n - 1)
        }
    }
}

/// The `n` mixer buffers standing at `pos`, on their wire view.
pub open spec fn mixers_of(fs: Seq<PodView>, pos: int, n: int) -> Seq<
    (i32, i32, i32, Seq<Meta>, Seq<DataBlock>),
>
    decreases n,
{
    if n <= 0 {
        Seq::empty()
    } else {
        let nm = sp_int(fs[pos + 3]) as int;
        let bpos = pos + 4 + 2 * nm;
        let nb = sp_int(fs[bpos]) as int;
        seq![
            (
                sp_int(fs[pos]),
                sp_int(fs[pos + 1]),
                sp_int(fs[pos + 2]),
                metas_of(fs, pos + 4, nm),
                blocks_of(fs, bpos + 1, nb),
            ),
        ] + mixers_of(fs, bpos + 1 + 5 * nb, n - 1)
    }
}

/// The position just past `n` mixer buffers standing at `pos`.
pub open spec fn mixers_end(fs: Seq<PodView>, pos: int, n: int) -> int
    decreases n,
{
    if n <= 0 {
        pos
    } else {
        mixers_end(fs, mixer_end(fs, pos), n - 1)
    }
}

/// `mixers_of` yields one buffer per count.
pub proof fn lemma_mixers_of_len(fs: Seq<PodView>, pos: int, n: int)
    requires
        n >= 0,
    ensures
        mixers_of(fs, pos, n).len() == n,
    decreases n,
{
    if n > 0 {
        let nm = sp_int(fs[pos + 3]) as int;
        let bpos = pos + 4 + 2 * nm;
        let nb = sp_int(fs[bpos]) as int;
        lemma_mixers_of_len(fs, bpos + 1 + 5 * nb, n - 1);
    }
}

/// Reads `n` metas at `pos`.
fn read_metas(fields: &Vec<Value>, pos: usize, n: usize) -> (r: Result<
    (Vec<Meta>, usize),
    PodError,
>)
    requires
        pos <= fields@.len(),
    ensures
        match r {
            Ok((ms, np)) => metas_shape(pod_views(fields@), pos as int, n as int) && ms@
                == metas_of(pod_views(fields@), pos as int, n as int) && np == pos + 2 * n && np
                <= fields@.len(),
            Err(e) => !metas_shape(pod_views(fields@), pos as int, n as int) && (e
                == PodError::InvalidType || e == PodError::PropertyMissing),
        },
    decreases n,
{
    proof {
        lemma_pod_views(fields@);
    }
    if n == 0 {
        let ms: Vec<Meta> = Vec::new();
        assert(ms@ =~= metas_of(pod_views(fields@), pos as int, 0));
        Ok((ms, pos))
    } else {
        let (type_, pos2) = read_id(fields, pos)?;
        let (size, pos2) = read_int(fields, pos2)?;
        let (mut rest, np) = read_metas(fields, pos2, n - 1)?;
        let m = Meta { type_, size };
        rest.insert(0, m);
        proof {
            assert(rest@ =~= seq![m] + metas_of(pod_views(fields@), pos + 2, n - 1));
        }
        Ok((rest, np))
    }
}

/// Reads `n` data blocks at `pos`.
fn read_blocks(fields: &Vec<Value>, pos: usize, n: usize) -> (r: Result<
    (Vec<DataBlock>, usize),
    PodError,
>)
    requires
        pos <= fields@.len(),
    ensures
        match r {
            Ok((bs, np)) => blocks_shape(pod_views(fields@), pos as int, n as int) && bs@
                == blocks_of(pod_views(fields@), pos as int, n as int) && np == pos + 5 * n && np
                <= fields@.len(),
            Err(e) => !blocks_shape(pod_views(fields@), pos as int, n as int) && (e
                == PodError::InvalidType || e == PodError::PropertyMissing),
        },
    decreases n,
{
    proof {
        lemma_pod_views(fields@);
    }
    if n == 0 {
        let bs: Vec<DataBlock> = Vec::new();
        assert(bs@ =~= blocks_of(pod_views(fields@), pos as int, 0));
        Ok((bs, pos))
    } else {
        let (type_, pos2) = read_id(fields, pos)?;
        let (data, pos2) = read_int(fields, pos2)?;
        let (flags, pos2) = read_int(fields, pos2)?;
        let (mapoffset, pos2) = read_int(fields, pos2)?;
        let (maxsize, pos2) = read_int(fields, pos2)?;
        let (mut rest, np) = read_blocks(fields, pos2, n - 1)?;
        let b = DataBlock { type_, data, flags, mapoffset, maxsize };
        rest.insert(0, b);
        proof {
            assert(rest@ =~= seq![b] + blocks_of(pod_views(fields@), pos + 5, n - 1));
        }
        Ok((rest, np))
    }
}

/// Reads `n` mixer buffers at `pos`, stamping each with `flags` (which is
/// not carried on the wire).
fn read_mixers(fields: &Vec<Value>, pos: usize, n: usize, flags: i32) -> (r: Result<
    (Vec<MixerBuffer>, usize),
    PodError,
>)
    requires
        pos <= fields@.len(),
    ensures
        match r {
            Ok((bs, np)) => mixers_shape(pod_views(fields@), pos as int, n as int) && bs@
                .map_values(fview_mixer()) == mixers_of(pod_views(fields@), pos as int, n as int)
                && np == mixers_end(pod_views(fields@), pos as int, n as int) && np
                <= fields@.len() && forall|j: int|
                0 <= j < bs@.len() ==> (#[trigger] bs@[j]).flags == flags,
            Err(e) => !mixers_shape(pod_views(fields@), pos as int, n as int) && (e
                == PodError::InvalidType || e == PodError::PropertyMissing),
        },
    decreases n,
{
    proof {
        lemma_pod_views(fields@);
    }
    if n == 0 {
        let bs: Vec<MixerBuffer> = Vec::new();
        assert(bs@.map_values(fview_mixer()) =~= mixers_of(pod_views(fields@), pos as int, 0));
        Ok((bs, pos))
    } else {
        let (memid, pos2) = read_int(fields, pos)?;
        let (offset, pos2) = read_int(fields, pos2)?;
        let (size, pos2) = read_int(fields, pos2)?;
        let (nm, pos2) = read_int(fields, pos2)?;
        if nm < 0 {
            return Err(PodError::InvalidType);
        }
        let (metas, pos3) = read_metas(fields, pos2, nm as usize)?;
        let (nb, pos4) = read_int(fields, pos3)?;
        if nb < 0 {
            return Err(PodError::InvalidType);
        }
        let (data_blocks, pos5) = read_blocks(fields, pos4, nb as usize)?;
        let (mut rest, np) = read_mixers(fields, pos5, n - 1, flags)?;
        let ghost tail = rest@;
        let b = MixerBuffer { memid, offset, size, flags, metas, data_blocks };
        rest.insert(0, b);
        proof {
            assert(rest@.drop_first() =~= tail);
            assert(rest@.map_values(fview_mixer()) =~= seq![
                (memid, offset, size, b.metas@, b.data_blocks@),
            ] + tail.map_values(fview_mixer()));
        }
        Ok((rest, np))
    }
}

/// Writes `n` metas, two adjacent fields each, from index `i` on.
fn write_metas(fields: &mut Vec<Value>, l: &Vec<Meta>, i: usize)
    requires
        i <= l@.len(),
    ensures
        pod_views(final(fields)@) =~= pod_views(old(fields)@) + metas_fields(l@.skip(i as int)),
    decreases l@.len() - i,
{
    proof {
        lemma_pod_views(fields@);
    }
    if i < l.len() {
        let m = l[i];
        fields.push(Value::Id(m.type_));
        fields.push(Value::Int(m.size));
        let ghost mid = fields@;
        write_metas(fields, l, i + 1);
        proof {
            lemma_pod_views(mid);
            lemma_pod_views(fields@);
            lemma_pod_views(old(fields)@);
            assert(l@.skip(i as int).drop_first() =~= l@.skip(i + 1));
            assert(l@.skip(i as int)[0] == l@[i as int]);
            assert(mid =~= old(fields)@ + seq![Value::Id(m.type_), Value::Int(m.size)]);
            assert forall|j: int|
                0 <= j < mid.len() implies pod_views(mid)[j] == (pod_views(old(fields)@)
                + meta_fields(l@[i as int]))[j] by {
                assert(pod_views(mid)[j] == mid[j]@);
                if j < old(fields)@.len() {
                    assert(mid[j] == old(fields)@[j]);
                }
            }
            assert(pod_views(mid) =~= pod_views(old(fields)@) + meta_fields(l@[i as int]));
            assert(pod_views(fields@) =~= pod_views(old(fields)@) + metas_fields(
                l@.skip(i as int),
            ));
        }
    } else {
        proof {
            assert(l@.skip(i as int) =~= Seq::<Meta>::empty());
            assert(pod_views(fields@) =~= pod_views(old(fields)@) + metas_fields(
                l@.skip(i as int),
            ));
        }
    }
}

/// Writes `n` data blocks, five adjacent fields each, from index `i` on.
fn write_blocks(fields: &mut Vec<Value>, l: &Vec<DataBlock>, i: usize)
    requires
        i <= l@.len(),
    ensures
        pod_views(final(fields)@) =~= pod_views(old(fields)@) + blocks_fields(l@.skip(i as int)),
    decreases l@.len() - i,
{
    proof {
        lemma_pod_views(fields@);
    }
    if i < l.len() {
        let b = l[i];
        fields.push(Value::Id(b.type_));
        fields.push(Value::Int(b.data));
        fields.push(Value::Int(b.flags));
        fields.push(Value::Int(b.mapoffset));
        fields.push(Value::Int(b.maxsize));
        let ghost mid = fields@;
        write_blocks(fields, l, i + 1);
        proof {
            lemma_pod_views(mid);
            lemma_pod_views(fields@);
            lemma_pod_views(old(fields)@);
            assert(l@.skip(i as int).drop_first() =~= l@.skip(i + 1));
            assert(l@.skip(i as int)[0] == l@[i as int]);
            assert(mid =~= old(fields)@ + seq![
                Value::Id(b.type_),
                Value::Int(b.data),
                Value::Int(b.flags),
                Value::Int(b.mapoffset),
                Value::Int(b.maxsize),
            ]);
            assert forall|j: int|
                0 <= j < mid.len() implies pod_views(mid)[j] == (pod_views(old(fields)@)
                + block_fields(l@[i as int]))[j] by {
                assert(pod_views(mid)[j] == mid[j]@);
                if j < old(fields)@.len() {
                    assert(mid[j] == old(fields)@[j]);
                }
            }
            assert(pod_views(mid) =~= pod_views(old(fields)@) + block_fields(l@[i as int]));
            assert(pod_views(fields@) =~= pod_views(old(fields)@) + blocks_fields(
                l@.skip(i as int),
            ));
        }
    } else {
        proof {
            assert(l@.skip(i as int) =~= Seq::<DataBlock>::empty());
            assert(pod_views(fields@) =~= pod_views(old(fields)@) + blocks_fields(
                l@.skip(i as int),
            ));
        }
    }
}

/// Writes `n` mixer buffers from index `i` on. A buffer's `flags` is not
/// written.
fn write_mixers(fields: &mut Vec<Value>, l: &Vec<MixerBuffer>, i: usize) -> (r: Result<
    (),
    PodError,
>)
    requires
        i <= l@.len(),
    ensures
        r is Ok ==> pod_views(final(fields)@) =~= pod_views(old(fields)@) + mixers_fields(
            l@.map_values(fview_mixer()).skip(i as int),
        ),
        r is Err ==> exists|j: int|
            i <= j < l@.len() && ((#[trigger] l@[j]).metas@.len() > 0x7fff_ffff || l@[j].data_blocks@.len() > 0x7fff_ffff),
        (forall|j: int|
            i <= j < l@.len() ==> (#[trigger] l@[j]).metas@.len() <= 0x7fff_ffff && l@[j].data_blocks@.len() <= 0x7fff_ffff) ==> r is Ok,
    decreases l@.len() - i,
{
    proof {
        lemma_pod_views(fields@);
    }
    if i < l.len() {
        if l[i].metas.len() as u64 > 0x7fff_ffffu64 {
            return Err(PodError::ParseError);
        }
        if l[i].data_blocks.len() as u64 > 0x7fff_ffffu64 {
            return Err(PodError::ParseError);
        }
        fields.push(Value::Int(l[i].memid));
        fields.push(Value::Int(l[i].offset));
        fields.push(Value::Int(l[i].size));
        fields.push(Value::Int(l[i].metas.len() as i32));
        let ghost mid0 = fields@;
        proof {
            lemma_pod_views(mid0);
            assert(mid0 =~= old(fields)@ + seq![
                Value::Int(l@[i as int].memid),
                Value::Int(l@[i as int].offset),
                Value::Int(l@[i as int].size),
                Value::Int(l@[i as int].metas@.len() as i32),
            ]);
            assert forall|j: int|
                0 <= j < mid0.len() implies pod_views(mid0)[j] == (pod_views(old(fields)@) + seq![
                PodView::Int(l@[i as int].memid),
                PodView::Int(l@[i as int].offset),
                PodView::Int(l@[i as int].size),
                PodView::Int(l@[i as int].metas@.len() as i32),
            ])[j] by {
                assert(pod_views(mid0)[j] == mid0[j]@);
                if j < old(fields)@.len() {
                    assert(mid0[j] == old(fields)@[j]);
                }
            }
            assert(pod_views(mid0) =~= pod_views(old(fields)@) + seq![
                PodView::Int(l@[i as int].memid),
                PodView::Int(l@[i as int].offset),
                PodView::Int(l@[i as int].size),
                PodView::Int(l@[i as int].metas@.len() as i32),
            ]);
        }
        write_metas(fields, &l[i].metas, 0);
        let ghost mid1 = fields@;
        fields.push(Value::Int(l[i].data_blocks.len() as i32));
        let ghost mid2 = fields@;
        proof {
            lemma_pod_views(mid1);
            lemma_pod_views(mid2);
            assert(mid2 =~= mid1 + seq![Value::Int(l@[i as int].data_blocks@.len() as i32)]);
            assert forall|j: int|
                0 <= j < mid2.len() implies pod_views(mid2)[j] == (pod_views(mid1) + seq![
                PodView::Int(l@[i as int].data_blocks@.len() as i32),
            ])[j] by {
                assert(pod_views(mid2)[j] == mid2[j]@);
                if j < mid1.len() {
                    assert(mid2[j] == mid1[j]);
                }
            }
            assert(pod_views(mid2) =~= pod_views(mid1) + seq![
                PodView::Int(l@[i as int].data_blocks@.len() as i32),
            ]);
        }
        write_blocks(fields, &l[i].data_blocks, 0);
        let ghost mid3 = fields@;
        let res = write_mixers(fields, l, i + 1);
        if res.is_err() {
            return Err(PodError::ParseError);
        }
        proof {
            lemma_pod_views(mid3);
            lemma_pod_views(old(fields)@);
            let m = l@.map_values(fview_mixer());
            assert(m.skip(i as int).drop_first() =~= m.skip(i + 1));
            assert(m.skip(i as int)[0] == (
                l@[i as int].memid,
                l@[i as int].offset,
                l@[i as int].size,
                l@[i as int].metas@,
                l@[i as int].data_blocks@,
            ));
            assert(l@[i as int].metas@.skip(0) =~= l@[i as int].metas@);
            assert(l@[i as int].data_blocks@.skip(0) =~= l@[i as int].data_blocks@);
            assert(pod_views(mid3) =~= pod_views(old(fields)@) + mixer_fields(m.skip(i as int)[0]));
            assert(pod_views(fields@) =~= pod_views(old(fields)@) + mixers_fields(
                m.skip(i as int),
            ));
        }
        Ok(())
    } else {
        proof {
            let m = l@.map_values(fview_mixer());
            assert(m.skip(i as int) =~= Seq::<(i32, i32, i32, Seq<Meta>, Seq<DataBlock>)>::empty());
            assert(pod_views(fields@) =~= pod_views(old(fields)@) + mixers_fields(
                m.skip(i as int),
            ));
        }
        Ok(())
    }
}

/// ClientNode event: take the given buffers into use on a port mix. The
/// buffers travel as nested count-prefixed lists; each buffer's `flags`
/// is not written and decodes as the message's `flags`.
#[derive(Debug, PartialEq)]
pub struct UseBuffers {
    pub direction: i32,
    pub port_id: i32,
    pub mix_id: i32,
    pub flags: i32,
    pub buffers: Vec<MixerBuffer>,
}

impl UseBuffers {
    /// The payload's struct-pod fields, in declared order.
    pub open spec fn spec_fields(self) -> Seq<PodView> {
        seq![
            PodView::Int(self.direction),
            PodView::Int(self.port_id),
            PodView::Int(self.mix_id),
            PodView::Int(self.flags),
            PodView::Int(self.buffers@.len() as i32),
        ] + mixers_fields(self.buffers@.map_values(fview_mixer()))
    }

    /// Whether struct-pod fields begin with this message's shape.
    pub open spec fn field_shape(fs: Seq<PodView>) -> bool {
        &&& fs.len() >= 5
        &&& fs[0] is Int
        &&& fs[1] is Int
        &&& fs[2] is Int
        &&& fs[3] is Int
        &&& fs[4] matches PodView::Int(n)
        &&& n >= 0
        &&& mixers_shape(fs, 5, n as int)
    }

    /// Whether `m` is exactly the message the leading fields carry.
    pub open spec fn parses(fs: Seq<PodView>, m: UseBuffers) -> bool {
        &&& fs.len() >= 5
        &&& fs[0] == PodView::Int(m.direction)
        &&& fs[1] == PodView::Int(m.port_id)
        &&& fs[2] == PodView::Int(m.mix_id)
        &&& fs[3] == PodView::Int(m.flags)
        &&& m.buffers@.len() <= 0x7fff_ffff
        &&& fs[4] == PodView::Int(m.buffers@.len() as i32)
        &&& mixers_shape(fs, 5, m.buffers@.len() as int)
        &&& m.buffers@.map_values(fview_mixer()) == mixers_of(fs, 5, m.buffers@.len() as int)
        &&& forall|j: int| 0 <= j < m.buffers@.len() ==> (#[trigger] m.buffers@[j]).flags == m.flags
    }

    /// Encodes the payload: each nested list is written as its count
    /// followed by that many adjacent fields.
    pub fn to_value(&self) -> (r: Result<Value, PodError>)
        ensures
            r matches Ok(value) ==> value@ == PodView::Struct(self.spec_fields()),
            r is Err ==> self.buffers@.len() > 0x7fff_ffff || exists|j: int|
                0 <= j < self.buffers@.len() && ((#[trigger] self.buffers@[j]).metas@.len()
                    > 0x7fff_ffff || self.buffers@[j].data_blocks@.len() > 0x7fff_ffff),
            (self.buffers@.len() <= 0x7fff_ffff && forall|j: int|
                0 <= j < self.buffers@.len() ==> (#[trigger] self.buffers@[j]).metas@.len()
                    <= 0x7fff_ffff && self.buffers@[j].data_blocks@.len() <= 0x7fff_ffff) ==> r
                is Ok,
    {
        if self.buffers.len() as u64 > 0x7fff_ffffu64 {
            return Err(PodError::ParseError);
        }
        let mut fields: Vec<Value> = Vec::new();
        fields.push(Value::Int(self.direction));
        fields.push(Value::Int(self.port_id));
        fields.push(Value::Int(self.mix_id));
        fields.push(Value::Int(self.flags));
        fields.push(Value::Int(self.buffers.len() as i32));
        let ghost head = fields@;
        match write_mixers(&mut fields, &self.buffers, 0) {
            Ok(()) => {},
            Err(e) => {
                return Err(e);
            },
        }
        let r = Value::Struct(fields);
        proof {
            lemma_pod_views(head);
            let hd = seq![
                PodView::Int(self.direction),
                PodView::Int(self.port_id),
                PodView::Int(self.mix_id),
                PodView::Int(self.flags),
                PodView::Int(self.buffers@.len() as i32),
            ];
            assert forall|j: int| 0 <= j < head.len() implies pod_views(head)[j] == hd[j] by {
                assert(pod_views(head)[j] == head[j]@);
            }
            assert(pod_views(head) =~= hd);
            let m = self.buffers@.map_values(fview_mixer());
            assert(m.skip(0) =~= m);
            assert(pod_views(fields@) =~= self.spec_fields());
        }
        Ok(r)
    }

    /// Decodes the payload: reads the buffer count and loops; each
    /// buffer's `flags` is taken from the message's `flags`.
    pub fn from_value(v: &Value) -> (r: Result<UseBuffers, PodError>)
        ensures
            match r {
                Ok(m) => v@ matches PodView::Struct(fs) && UseBuffers::parses(fs, m),
                Err(e) => !(v@ matches PodView::Struct(fs) && UseBuffers::field_shape(fs)) && (e
                    == PodError::InvalidType || e == PodError::PropertyMissing),
            },
    {
        match v {
            Value::Struct(fields) => {
                proof {
                    lemma_pod_views(fields@);
                }
                let pos: usize = 0;
                let (direction, pos) = read_int(fields, pos)?;
                let (port_id, pos) = read_int(fields, pos)?;
                let (mix_id, pos) = read_int(fields, pos)?;
                let (flags, pos) = read_int(fields, pos)?;
                let (n, pos) = read_int(fields, pos)?;
                if n < 0 {
                    return Err(PodError::InvalidType);
                }
                let (buffers, _pos) = read_mixers(fields, pos, n as usize, flags)?;
                let m = UseBuffers { direction, port_id, mix_id, flags, buffers };
                proof {
                    lemma_mixers_of_len(pod_views(fields@), 5, n as int);
                    assert(m.buffers@.map_values(fview_mixer()).len() == n as int);
                    assert(UseBuffers::parses(pod_views(fields@), m));
                }
                Ok(m)
            },
            _ => Err(PodError::InvalidType),
        }
    }
}

/// Events of the ClientNode interface, keyed by its event opcode table.
#[derive(Debug, PartialEq)]
pub enum ClientNodeEvent {
    Transport(Transport),
    SetParam(SetParam),
    SetIO(SetIO),
    Event(Event),
    Command(Command),
    AddPort(AddPort),
    RemovePort(RemovePort),
    PortSetParam(PortSetParam),
    UseBuffers(UseBuffers),
    PortIO(PortIO),
    SetActivation(SetActivation),
    PortSetMixInfo(PortSetMixInfo),
    /// A sync barrier fanned out to this proxy (see the connection router).
    Done(crate::core_proxy::Done),
}

impl ClientNodeEvent {
    /// Whether an opcode is in this interface's event table and the body
    /// fields fit the event's shape.
    pub open spec fn event_shape(opcode: u32, fs: Seq<PodView>) -> bool {
        if opcode == 0 {
            Transport::field_shape(fs)
        } else if opcode == 1 {
            SetParam::field_shape(fs)
        } else if opcode == 2 {
            SetIO::field_shape(fs)
        } else if opcode == 3 {
            Event::field_shape(fs)
        } else if opcode == 4 {
            Command::field_shape(fs)
        } else if opcode == 5 {
            AddPort::field_shape(fs)
        } else if opcode == 6 {
            RemovePort::field_shape(fs)
        } else if opcode == 7 {
            PortSetParam::field_shape(fs)
        } else if opcode == 8 {
            UseBuffers::field_shape(fs)
        } else if opcode == 9 {
            PortIO::field_shape(fs)
        } else if opcode == 10 {
            SetActivation::field_shape(fs)
        } else if opcode == 11 {
            PortSetMixInfo::field_shape(fs)
        } else {
            false
        }
    }

    /// Whether `e` is exactly the event this opcode and body carry.
    pub open spec fn event_parses(opcode: u32, fs: Seq<PodView>, e: ClientNodeEvent) -> bool {
        if opcode == 0 {
            e matches ClientNodeEvent::Transport(m) && Transport::parses(fs, m)
        } else if opcode == 1 {
            e matches ClientNodeEvent::SetParam(m) && SetParam::parses(fs, m)
        } else if opcode == 2 {
            e matches ClientNodeEvent::SetIO(m) && SetIO::parses(fs, m)
        } else if opcode == 3 {
            e matches ClientNodeEvent::Event(m) && Event::parses(fs, m)
        } else if opcode == 4 {
            e matches ClientNodeEvent::Command(m) && Command::parses(fs, m)
        } else if opcode == 5 {
            e matches ClientNodeEvent::AddPort(m) && AddPort::parses(fs, m)
        } else if opcode == 6 {
            e matches ClientNodeEvent::RemovePort(m) && RemovePort::parses(fs, m)
        } else if opcode == 7 {
            e matches ClientNodeEvent::PortSetParam(m) && PortSetParam::parses(fs, m)
        } else if opcode == 8 {
            e matches ClientNodeEvent::UseBuffers(m) && UseBuffers::parses(fs, m)
        } else if opcode == 9 {
            e matches ClientNodeEvent::PortIO(m) && PortIO::parses(fs, m)
        } else if opcode == 10 {
            e matches ClientNodeEvent::SetActivation(m) && SetActivation::parses(fs, m)
        } else if opcode == 11 {
            e matches ClientNodeEvent::PortSetMixInfo(m) && PortSetMixInfo::parses(fs, m)
        } else {
            false
        }
    }

    /// Decodes the event an opcode and a payload pod carry.
    pub fn from_body(opcode: u32, body: &Value) -> (r: Result<ClientNodeEvent, PodError>)
        ensures
            match r {
                Ok(e) => body@ matches PodView::Struct(fs) && ClientNodeEvent::event_parses(opcode, fs, e),
                Err(_) => !(body@ matches PodView::Struct(fs) && ClientNodeEvent::event_shape(
                    opcode,
                    fs,
                )),
            },
    {
        if opcode == 0 {
            match Transport::from_value(body) {
                Ok(m) => Ok(ClientNodeEvent::Transport(m)),
                Err(e) => Err(e),
            }
        } else if opcode == 1 {
            match SetParam::from_value(body) {
                Ok(m) => Ok(ClientNodeEvent::SetParam(m)),
                Err(e) => Err(e),
            }
        } else if opcode == 2 {
            match SetIO::from_value(body) {
                Ok(m) => Ok(ClientNodeEvent::SetIO(m)),
                Err(e) => Err(e),
            }
        } else if opcode == 3 {
            match Event::from_value(body) {
                Ok(m) => Ok(ClientNodeEvent::Event(m)),
                Err(e) => Err(e),
            }
        } else if opcode == 4 {
            match Command::from_value(body) {
                Ok(m) => Ok(ClientNodeEvent::Command(m)),
                Err(e) => Err(e),
            }
        } else if opcode == 5 {
            match AddPort::from_value(body) {
                Ok(m) => Ok(ClientNodeEvent::AddPort(m)),
                Err(e) => Err(e),
            }
        } else if opcode == 6 {
            match RemovePort::from_value(body) {
                Ok(m) => Ok(ClientNodeEvent::RemovePort(m)),
                Err(e) => Err(e),
            }
        } else if opcode == 7 {
            match PortSetParam::from_value(body) {
                Ok(m) => Ok(ClientNodeEvent::PortSetParam(m)),
                Err(e) => Err(e),
            }
        } else if opcode == 8 {
            match UseBuffers::from_value(body) {
                Ok(m) => Ok(ClientNodeEvent::UseBuffers(m)),
                Err(e) => Err(e),
            }
        } else if opcode == 9 {
            match PortIO::from_value(body) {
                Ok(m) => Ok(ClientNodeEvent::PortIO(m)),
                Err(e) => Err(e),
            }
        } else if opcode == 10 {
            match SetActivation::from_value(body) {
                Ok(m) => Ok(ClientNodeEvent::SetActivation(m)),
                Err(e) => Err(e),
            }
        } else if opcode == 11 {
            match PortSetMixInfo::from_value(body) {
                Ok(m) => Ok(ClientNodeEvent::PortSetMixInfo(m)),
                Err(e) => Err(e),
            }
        } else {
            Err(PodError::InvalidType)
        }
    }
}

impl DeserializeFromOpCode for ClientNodeEvent {
    open spec fn spec_event_shape(opcode: u32, fs: Seq<crate::value::PodView>) -> bool {
        ClientNodeEvent::event_shape(opcode, fs)
    }

    open spec fn spec_event_parses(opcode: u32, fs: Seq<crate::value::PodView>, e: ClientNodeEvent) -> bool {
        ClientNodeEvent::event_parses(opcode, fs, e)
    }
    /// Parses the buffer's leading pod and decodes it by opcode.
    fn deserialize_from_opcode(opcode: u32, buffer: &Vec<u8>) -> Result<(ClientNodeEvent, usize), PodError> {
        match crate::deserialize::deserialize_pod(buffer, 0) {
            Ok((v, np)) => match ClientNodeEvent::from_body(opcode, &v) {
                Ok(e) => Ok((e, np)),
                Err(e) => Err(e),
            },
            Err(e) => Err(e),
        }
    }
}

} // verus!
