//! The Node interface: parameter and command plumbing for media nodes.

use vstd::prelude::*;

use crate::error::PodError;
use crate::message::{
    clone_value, dict_of, dict_pod, int_map_of, int_map_pod, is_dict, is_int_map, read_bool,
    read_dict, read_fd, read_id, read_id_array, read_int, read_int_map, read_long, read_string,
    read_value, v_dict, v_id_array, v_int_map, v_string, Dict, IntMap,
};
use crate::opcode::{DeserializeFromOpCode, MessageOpCode};
use crate::value::{
    fview_id, lemma_pod_views, pod_views, ArrayView, Fd, Id, PodView, Value,
};

verus! {


/// Node method: subscribe to parameter changes.
#[derive(Debug, PartialEq)]
pub struct SubscribeParams {
    pub ids: Vec<Id>,
}

impl SubscribeParams {
    /// The payload's struct-pod fields, in declared order.
    pub open spec fn spec_fields(self) -> Seq<PodView> {
        seq![
            PodView::ValueArray(ArrayView::Id(self.ids@.map_values(fview_id()))),
        ]
    }

    /// Whether struct-pod fields begin with this message's shape.
    pub open spec fn field_shape(fs: Seq<PodView>) -> bool {
        &&& fs.len() >= 1
        &&& fs[0] matches PodView::ValueArray(ArrayView::Id(_))
    }

    /// Whether `m` is exactly the message the leading fields carry.
    pub open spec fn parses(fs: Seq<PodView>, m: SubscribeParams) -> bool {
        &&& fs.len() >= 1
        &&& fs[0] == PodView::ValueArray(ArrayView::Id(m.ids@.map_values(fview_id())))
    }

    /// Encodes the payload as a struct pod with the fields in order.
    pub fn to_value(&self) -> (r: Value)
        ensures
            r@ == PodView::Struct(self.spec_fields()),
    {
        let mut fields: Vec<Value> = Vec::new();
        fields.push(v_id_array(&self.ids));
        let r = Value::Struct(fields);
        proof {
            lemma_pod_views(fields@);
            assert forall|j: int|
                0 <= j < fields@.len() implies pod_views(fields@)[j] == self.spec_fields()[j] by {
                assert(pod_views(fields@)[j] == fields@[j]@);
            }
            assert(pod_views(fields@) =~= self.spec_fields());
        }
        r
    }

    /// Decodes the payload from a struct pod, pulling fields in declared
    /// order; missing trailing fields fail, extra ones are tolerated.
    pub fn from_value(v: &Value) -> (r: Result<SubscribeParams, PodError>)
        ensures
            match r {
                Ok(m) => v@ matches PodView::Struct(fs) && SubscribeParams::parses(fs, m),
                Err(e) => !(v@ matches PodView::Struct(fs) && SubscribeParams::field_shape(fs)) && (e
                    == PodError::InvalidType || e == PodError::PropertyMissing) && (e
                    == PodError::PropertyMissing ==> (v@ matches PodView::Struct(fs2)
                    && fs2.len() < 1)),
            },
    {
        match v {
            Value::Struct(fields) => {
                proof {
                    lemma_pod_views(fields@);
                }
                let pos: usize = 0;
                let (ids, pos) = read_id_array(fields, pos)?;
                let m = SubscribeParams { ids };
                proof {
                    assert(SubscribeParams::parses(pod_views(fields@), m));
                }
                Ok(m)
            },
            _ => Err(PodError::InvalidType),
        }
    }
}

/// Node method: enumerate parameters.
#[derive(Debug, PartialEq)]
pub struct EnumParams {
    pub seq: i32,
    pub id: Id,
    pub index: i32,
    pub num: i32,
    pub filter: Value,
}

impl EnumParams {
    /// The payload's struct-pod fields, in declared order.
    pub open spec fn spec_fields(self) -> Seq<PodView> {
        seq![
            PodView::Int(self.seq),
            PodView::Id(self.id.0),
            PodView::Int(self.index),
            PodView::Int(self.num),
            self.filter@,
        ]
    }

    /// Whether struct-pod fields begin with this message's shape.
    pub open spec fn field_shape(fs: Seq<PodView>) -> bool {
        &&& fs.len() >= 5
        &&& fs[0] is Int
        &&& fs[1] is Id
        &&& fs[2] is Int
        &&& fs[3] is Int
        &&& true
    }

    /// Whether `m` is exactly the message the leading fields carry.
    pub open spec fn parses(fs: Seq<PodView>, m: EnumParams) -> bool {
        &&& fs.len() >= 5
        &&& fs[0] == PodView::Int(m.seq)
        &&& fs[1] == PodView::Id(m.id.0)
        &&& fs[2] == PodView::Int(m.index)
        &&& fs[3] == PodView::Int(m.num)
        &&& fs[4] == m.filter@
    }

    /// Encodes the payload as a struct pod with the fields in order.
    pub fn to_value(&self) -> (r: Value)
        ensures
            r@ == PodView::Struct(self.spec_fields()),
    {
        let mut fields: Vec<Value> = Vec::new();
        fields.push(Value::Int(self.seq));
        fields.push(Value::Id(self.id));
        fields.push(Value::Int(self.index));
        fields.push(Value::Int(self.num));
        fields.push(clone_value(&self.filter));
        let r = Value::Struct(fields);
        proof {
            lemma_pod_views(fields@);
            assert forall|j: int|
                0 <= j < fields@.len() implies pod_views(fields@)[j] == self.spec_fields()[j] by {
                assert(pod_views(fields@)[j] == fields@[j]@);
            }
            assert(pod_views(fields@) =~= self.spec_fields());
        }
        r
    }

    /// Decodes the payload from a struct pod, pulling fields in declared
    /// order; missing trailing fields fail, extra ones are tolerated.
    pub fn from_value(v: &Value) -> (r: Result<EnumParams, PodError>)
        ensures
            match r {
                Ok(m) => v@ matches PodView::Struct(fs) && EnumParams::parses(fs, m),
                Err(e) => !(v@ matches PodView::Struct(fs) && EnumParams::field_shape(fs)) && (e
                    == PodError::InvalidType || e == PodError::PropertyMissing) && (e
                    == PodError::PropertyMissing ==> (v@ matches PodView::Struct(fs2)
                    && fs2.len() < 5)),
            },
    {
        match v {
            Value::Struct(fields) => {
                proof {
                    lemma_pod_views(fields@);
                }
                let pos: usize = 0;
                let (seq, pos) = read_int(fields, pos)?;
                let (id, pos) = read_id(fields, pos)?;
                let (index, pos) = read_int(fields, pos)?;
                let (num, pos) = read_int(fields, pos)?;
                let (filter, pos) = read_value(fields, pos)?;
                let m = EnumParams { seq, id, index, num, filter };
                proof {
                    assert(EnumParams::parses(pod_views(fields@), m));
                }
                Ok(m)
            },
            _ => Err(PodError::InvalidType),
        }
    }
}

/// Node method: set a parameter.
#[derive(Debug, PartialEq)]
pub struct SetParam {
    pub id: Id,
    pub flags: i32,
    pub param: Value,
}

impl SetParam {
    /// The payload's struct-pod fields, in declared order.
    pub open spec fn spec_fields(self) -> Seq<PodView> {
        seq![
            PodView::Id(self.id.0),
            PodView::Int(self.flags),
            self.param@,
        ]
    }

    /// Whether struct-pod fields begin with this message's shape.
    pub open spec fn field_shape(fs: Seq<PodView>) -> bool {
        &&& fs.len() >= 3
        &&& fs[0] is Id
        &&& fs[1] is Int
        &&& true
    }

    /// Whether `m` is exactly the message the leading fields carry.
    pub open spec fn parses(fs: Seq<PodView>, m: SetParam) -> bool {
        &&& fs.len() >= 3
        &&& fs[0] == PodView::Id(m.id.0)
        &&& fs[1] == PodView::Int(m.flags)
        &&& fs[2] == m.param@
    }

    /// Encodes the payload as a struct pod with the fields in order.
    pub fn to_value(&self) -> (r: Value)
        ensures
            r@ == PodView::Struct(self.spec_fields()),
    {
        let mut fields: Vec<Value> = Vec::new();
        fields.push(Value::Id(self.id));
        fields.push(Value::Int(self.flags));
        fields.push(clone_value(&self.param));
        let r = Value::Struct(fields);
        proof {
            lemma_pod_views(fields@);
            assert forall|j: int|
                0 <= j < fields@.len() implies pod_views(fields@)[j] == self.spec_fields()[j] by {
                assert(pod_views(fields@)[j] == fields@[j]@);
            }
            assert(pod_views(fields@) =~= self.spec_fields());
        }
        r
    }

    /// Decodes the payload from a struct pod, pulling fields in declared
    /// order; missing trailing fields fail, extra ones are tolerated.
    pub fn from_value(v: &Value) -> (r: Result<SetParam, PodError>)
        ensures
            match r {
                Ok(m) => v@ matches PodView::Struct(fs) && SetParam::parses(fs, m),
                Err(e) => !(v@ matches PodView::Struct(fs) && SetParam::field_shape(fs)) && (e
                    == PodError::InvalidType || e == PodError::PropertyMissing) && (e
                    == PodError::PropertyMissing ==> (v@ matches PodView::Struct(fs2)
                    && fs2.len() < 3)),
            },
    {
        match v {
            Value::Struct(fields) => {
                proof {
                    lemma_pod_views(fields@);
                }
                let pos: usize = 0;
                let (id, pos) = read_id(fields, pos)?;
                let (flags, pos) = read_int(fields, pos)?;
                let (param, pos) = read_value(fields, pos)?;
                let m = SetParam { id, flags, param };
                proof {
                    assert(SetParam::parses(pod_views(fields@), m));
                }
                Ok(m)
            },
            _ => Err(PodError::InvalidType),
        }
    }
}

/// Node method: send a command pod.
#[derive(Debug, PartialEq)]
pub struct SendCommand {
    pub command: Value,
}

impl SendCommand {
    /// The payload's struct-pod fields, in declared order.
    pub open spec fn spec_fields(self) -> Seq<PodView> {
        seq![
            self.command@,
        ]
    }

    /// Whether struct-pod fields begin with this message's shape.
    pub open spec fn field_shape(fs: Seq<PodView>) -> bool {
        &&& fs.len() >= 1
        &&& true
    }

    /// Whether `m` is exactly the message the leading fields carry.
    pub open spec fn parses(fs: Seq<PodView>, m: SendCommand) -> bool {
        &&& fs.len() >= 1
        &&& fs[0] == m.command@
    }

    /// Encodes the payload as a struct pod with the fields in order.
    pub fn to_value(&self) -> (r: Value)
        ensures
            r@ == PodView::Struct(self.spec_fields()),
    {
        let mut fields: Vec<Value> = Vec::new();
        fields.push(clone_value(&self.command));
        let r = Value::Struct(fields);
        proof {
            lemma_pod_views(fields@);
            assert forall|j: int|
                0 <= j < fields@.len() implies pod_views(fields@)[j] == self.spec_fields()[j] by {
                assert(pod_views(fields@)[j] == fields@[j]@);
            }
            assert(pod_views(fields@) =~= self.spec_fields());
        }
        r
    }

    /// Decodes the payload from a struct pod, pulling fields in declared
    /// order; missing trailing fields fail, extra ones are tolerated.
    pub fn from_value(v: &Value) -> (r: Result<SendCommand, PodError>)
        ensures
            match r {
                Ok(m) => v@ matches PodView::Struct(fs) && SendCommand::parses(fs, m),
                Err(e) => !(v@ matches PodView::Struct(fs) && SendCommand::field_shape(fs)) && (e
                    == PodError::InvalidType || e == PodError::PropertyMissing) && (e
                    == PodError::PropertyMissing ==> (v@ matches PodView::Struct(fs2)
                    && fs2.len() < 1)),
            },
    {
        match v {
            Value::Struct(fields) => {
                proof {
                    lemma_pod_views(fields@);
                }
                let pos: usize = 0;
                let (command, pos) = read_value(fields, pos)?;
                let m = SendCommand { command };
                proof {
                    assert(SendCommand::parses(pod_views(fields@), m));
                }
                Ok(m)
            },
            _ => Err(PodError::InvalidType),
        }
    }
}

/// Node event: node information.
#[derive(Debug, PartialEq)]
pub struct Info {
    pub id: i32,
    pub max_input_ports: i32,
    pub max_output_ports: i32,
    pub change_mask: i64,
    pub n_input_ports: i32,
    pub n_output_ports: i32,
    pub state: Id,
    pub error: Vec<u8>,
    pub props: Dict,
    pub param_info: IntMap,
}

impl Info {
    /// The payload's struct-pod fields, in declared order.
    pub open spec fn spec_fields(self) -> Seq<PodView> {
        seq![
            PodView::Int(self.id),
            PodView::Int(self.max_input_ports),
            PodView::Int(self.max_output_ports),
            PodView::Long(self.change_mask),
            PodView::Int(self.n_input_ports),
            PodView::Int(self.n_output_ports),
            PodView::Id(self.state.0),
            PodView::String(self.error@),
            dict_pod(self.props@),
            int_map_pod(self.param_info@),
        ]
    }

    /// Whether struct-pod fields begin with this message's shape.
    pub open spec fn field_shape(fs: Seq<PodView>) -> bool {
        &&& fs.len() >= 10
        &&& fs[0] is Int
        &&& fs[1] is Int
        &&& fs[2] is Int
        &&& fs[3] is Long
        &&& fs[4] is Int
        &&& fs[5] is Int
        &&& fs[6] is Id
        &&& fs[7] is String
        &&& is_dict(fs[8])
        &&& is_int_map(fs[9])
    }

    /// Whether `m` is exactly the message the leading fields carry.
    pub open spec fn parses(fs: Seq<PodView>, m: Info) -> bool {
        &&& fs.len() >= 10
        &&& fs[0] == PodView::Int(m.id)
        &&& fs[1] == PodView::Int(m.max_input_ports)
        &&& fs[2] == PodView::Int(m.max_output_ports)
        &&& fs[3] == PodView::Long(m.change_mask)
        &&& fs[4] == PodView::Int(m.n_input_ports)
        &&& fs[5] == PodView::Int(m.n_output_ports)
        &&& fs[6] == PodView::Id(m.state.0)
        &&& fs[7] == PodView::String(m.error@)
        &&& is_dict(fs[8]) && m.props@ == dict_of(fs[8])
        &&& is_int_map(fs[9]) && m.param_info@ == int_map_of(fs[9])
    }

    /// Encodes the payload as a struct pod with the fields in order.
    pub fn to_value(&self) -> (r: Result<Value, PodError>)
        ensures
            match r {
                Ok(value) => value@ == PodView::Struct(self.spec_fields()),
                Err(_) => self.props@.len() > 0x7fff_ffff || self.param_info@.len() > 0x7fff_ffff,
            },
    {
        let mut fields: Vec<Value> = Vec::new();
        fields.push(Value::Int(self.id));
        fields.push(Value::Int(self.max_input_ports));
        fields.push(Value::Int(self.max_output_ports));
        fields.push(Value::Long(self.change_mask));
        fields.push(Value::Int(self.n_input_ports));
        fields.push(Value::Int(self.n_output_ports));
        fields.push(Value::Id(self.state));
        fields.push(v_string(&self.error));
        fields.push(v_dict(&self.props)?);
        fields.push(v_int_map(&self.param_info)?);
        let r = Value::Struct(fields);
        proof {
            lemma_pod_views(fields@);
            assert forall|j: int|
                0 <= j < fields@.len() implies pod_views(fields@)[j] == self.spec_fields()[j] by {
                assert(pod_views(fields@)[j] == fields@[j]@);
            }
            assert(pod_views(fields@) =~= self.spec_fields());
        }
        Ok(r)
    }

    /// Decodes the payload from a struct pod, pulling fields in declared
    /// order; missing trailing fields fail, extra ones are tolerated.
    pub fn from_value(v: &Value) -> (r: Result<Info, PodError>)
        ensures
            match r {
                Ok(m) => v@ matches PodView::Struct(fs) && Info::parses(fs, m),
                Err(e) => !(v@ matches PodView::Struct(fs) && Info::field_shape(fs)) && (e
                    == PodError::InvalidType || e == PodError::PropertyMissing) && (e
                    == PodError::PropertyMissing ==> (v@ matches PodView::Struct(fs2)
                    && fs2.len() < 10)),
            },
    {
        match v {
            Value::Struct(fields) => {
                proof {
                    lemma_pod_views(fields@);
                }
                let pos: usize = 0;
                let (id, pos) = read_int(fields, pos)?;
                let (max_input_ports, pos) = read_int(fields, pos)?;
                let (max_output_ports, pos) = read_int(fields, pos)?;
                let (change_mask, pos) = read_long(fields, pos)?;
                let (n_input_ports, pos) = read_int(fields, pos)?;
                let (n_output_ports, pos) = read_int(fields, pos)?;
                let (state, pos) = read_id(fields, pos)?;
                let (error, pos) = read_string(fields, pos)?;
                let (props, pos) = read_dict(fields, pos)?;
                let (param_info, pos) = read_int_map(fields, pos)?;
                let m = Info { id, max_input_ports, max_output_ports, change_mask, n_input_ports, n_output_ports, state, error, props, param_info };
                proof {
                    assert(Info::parses(pod_views(fields@), m));
                }
                Ok(m)
            },
            _ => Err(PodError::InvalidType),
        }
    }
}

impl MessageOpCode for Info {
    open spec fn spec_op_code() -> u32 {
        0
    }

    fn op_code() -> (r: u32) {
        0
    }
}

/// Node event: one enumerated parameter.
#[derive(Debug, PartialEq)]
pub struct Param {
    pub seq: i32,
    pub id: Id,
    pub index: i32,
    pub next: i32,
    pub param: Value,
}

impl Param {
    /// The payload's struct-pod fields, in declared order.
    pub open spec fn spec_fields(self) -> Seq<PodView> {
        seq![
            PodView::Int(self.seq),
            PodView::Id(self.id.0),
            PodView::Int(self.index),
            PodView::Int(self.next),
            self.param@,
        ]
    }

    /// Whether struct-pod fields begin with this message's shape.
    pub open spec fn field_shape(fs: Seq<PodView>) -> bool {
        &&& fs.len() >= 5
        &&& fs[0] is Int
        &&& fs[1] is Id
        &&& fs[2] is Int
        &&& fs[3] is Int
        &&& true
    }

    /// Whether `m` is exactly the message the leading fields carry.
    pub open spec fn parses(fs: Seq<PodView>, m: Param) -> bool {
        &&& fs.len() >= 5
        &&& fs[0] == PodView::Int(m.seq)
        &&& fs[1] == PodView::Id(m.id.0)
        &&& fs[2] == PodView::Int(m.index)
        &&& fs[3] == PodView::Int(m.next)
        &&& fs[4] == m.param@
    }

    /// Encodes the payload as a struct pod with the fields in order.
    pub fn to_value(&self) -> (r: Value)
        ensures
            r@ == PodView::Struct(self.spec_fields()),
    {
        let mut fields: Vec<Value> = Vec::new();
        fields.push(Value::Int(self.seq));
        fields.push(Value::Id(self.id));
        fields.push(Value::Int(self.index));
        fields.push(Value::Int(self.next));
        fields.push(clone_value(&self.param));
        let r = Value::Struct(fields);
        proof {
            lemma_pod_views(fields@);
            assert forall|j: int|
                0 <= j < fields@.len() implies pod_views(fields@)[j] == self.spec_fields()[j] by {
                assert(pod_views(fields@)[j] == fields@[j]@);
            }
            assert(pod_views(fields@) =~= self.spec_fields());
        }
        r
    }

    /// Decodes the payload from a struct pod, pulling fields in declared
    /// order; missing trailing fields fail, extra ones are tolerated.
    pub fn from_value(v: &Value) -> (r: Result<Param, PodError>)
        ensures
            match r {
                Ok(m) => v@ matches PodView::Struct(fs) && Param::parses(fs, m),
                Err(e) => !(v@ matches PodView::Struct(fs) && Param::field_shape(fs)) && (e
                    == PodError::InvalidType || e == PodError::PropertyMissing) && (e
                    == PodError::PropertyMissing ==> (v@ matches PodView::Struct(fs2)
                    && fs2.len() < 5)),
            },
    {
        match v {
            Value::Struct(fields) => {
                proof {
                    lemma_pod_views(fields@);
                }
                let pos: usize = 0;
                let (seq, pos) = read_int(fields, pos)?;
                let (id, pos) = read_id(fields, pos)?;
                let (index, pos) = read_int(fields, pos)?;
                let (next, pos) = read_int(fields, pos)?;
                let (param, pos) = read_value(fields, pos)?;
                let m = Param { seq, id, index, next, param };
                proof {
                    assert(Param::parses(pod_views(fields@), m));
                }
                Ok(m)
            },
            _ => Err(PodError::InvalidType),
        }
    }
}

impl MessageOpCode for Param {
    open spec fn spec_op_code() -> u32 {
        1
    }

    fn op_code() -> (r: u32) {
        1
    }
}

/// Events of the Node interface.
#[derive(Debug, PartialEq)]
pub enum NodeEvent {
    Info(Info),
    Param(Param),
    /// A sync barrier fanned out to this proxy (see the connection router).
    Done(crate::core_proxy::Done),
}

impl NodeEvent {
    /// Whether an opcode is in this interface's event table and the body
    /// fields fit the event's shape.
    pub open spec fn event_shape(opcode: u32, fs: Seq<PodView>) -> bool {
        if opcode == 0 {
            Info::field_shape(fs)
        } else if opcode == 1 {
            Param::field_shape(fs)
        } else {
            false
        }
    }

    /// Whether `e` is exactly the event this opcode and body carry.
    pub open spec fn event_parses(opcode: u32, fs: Seq<PodView>, e: NodeEvent) -> bool {
        if opcode == 0 {
            e matches NodeEvent::Info(m) && Info::parses(fs, m)
        } else if opcode == 1 {
            e matches NodeEvent::Param(m) && Param::parses(fs, m)
        } else {
            false
        }
    }

    /// Decodes the event an opcode and a payload pod carry.
    pub fn from_body(opcode: u32, body: &Value) -> (r: Result<NodeEvent, PodError>)
        ensures
            match r {
                Ok(e) => body@ matches PodView::Struct(fs) && NodeEvent::event_parses(opcode, fs, e),
                Err(_) => !(body@ matches PodView::Struct(fs) && NodeEvent::event_shape(
                    opcode,
                    fs,
                )),
            },
    {
        if opcode == 0 {
            match Info::from_value(body) {
                Ok(m) => Ok(NodeEvent::Info(m)),
                Err(e) => Err(e),
            }
        } else if opcode == 1 {
            match Param::from_value(body) {
                Ok(m) => Ok(NodeEvent::Param(m)),
                Err(e) => Err(e),
            }
        } else {
            Err(PodError::InvalidType)
        }
    }
}

impl DeserializeFromOpCode for NodeEvent {
    open spec fn spec_event_shape(opcode: u32, fs: Seq<crate::value::PodView>) -> bool {
        NodeEvent::event_shape(opcode, fs)
    }

    open spec fn spec_event_parses(opcode: u32, fs: Seq<crate::value::PodView>, e: NodeEvent) -> bool {
        NodeEvent::event_parses(opcode, fs, e)
    }
    /// Parses the buffer's leading pod and decodes it by opcode.
    fn deserialize_from_opcode(opcode: u32, buffer: &Vec<u8>) -> Result<(NodeEvent, usize), PodError> {
        match crate::deserialize::deserialize_pod(buffer, 0) {
            Ok((v, np)) => match NodeEvent::from_body(opcode, &v) {
                Ok(e) => Ok((e, np)),
                Err(e) => Err(e),
            },
            Err(e) => Err(e),
        }
    }
}

} // verus!
