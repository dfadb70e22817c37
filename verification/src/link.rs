//! The Link interface: links between ports (events only).

use vstd::prelude::*;

use crate::error::PodError;
use crate::message::{
    clone_value, dict_of, dict_pod, int_map_of, int_map_pod, is_dict, is_int_map, read_bool,
    read_dict, read_fd, read_id, read_id_array, read_int, read_int_map, read_long, read_string,
    read_value, v_dict, v_id_array, v_int_map, v_string, Dict, IntMap,
};
use crate::opcode::{DeserializeFromOpCode, MessageOpCode};
use crate::value::{
    fview_id, lemma_pod_views, pod_views, ArrayView, Fd, Id, PodView, Value,
};

verus! {


/// Link event: link information.
#[derive(Debug, PartialEq)]
pub struct Info {
    pub id: i32,
    pub output_node_id: i32,
    pub output_port_id: i32,
    pub input_node_id: i32,
    pub input_port_id: i32,
    pub change_mask: i64,
    pub state: i32,
    pub error: Vec<u8>,
    pub format: Value,
    pub props: Dict,
}

impl Info {
    /// The payload's struct-pod fields, in declared order.
    pub open spec fn spec_fields(self) -> Seq<PodView> {
        seq![
            PodView::Int(self.id),
            PodView::Int(self.output_node_id),
            PodView::Int(self.output_port_id),
            PodView::Int(self.input_node_id),
            PodView::Int(self.input_port_id),
            PodView::Long(self.change_mask),
            PodView::Int(self.state),
            PodView::String(self.error@),
            self.format@,
            dict_pod(self.props@),
        ]
    }

    /// Whether struct-pod fields begin with this message's shape.
    pub open spec fn field_shape(fs: Seq<PodView>) -> bool {
        &&& fs.len() >= 10
        &&& fs[0] is Int
        &&& fs[1] is Int
        &&& fs[2] is Int
        &&& fs[3] is Int
        &&& fs[4] is Int
        &&& fs[5] is Long
        &&& fs[6] is Int
        &&& fs[7] is String
        &&& true
        &&& is_dict(fs[9])
    }

    /// Whether `m` is exactly the message the leading fields carry.
    pub open spec fn parses(fs: Seq<PodView>, m: Info) -> bool {
        &&& fs.len() >= 10
        &&& fs[0] == PodView::Int(m.id)
        &&& fs[1] == PodView::Int(m.output_node_id)
        &&& fs[2] == PodView::Int(m.output_port_id)
        &&& fs[3] == PodView::Int(m.input_node_id)
        &&& fs[4] == PodView::Int(m.input_port_id)
        &&& fs[5] == PodView::Long(m.change_mask)
        &&& fs[6] == PodView::Int(m.state)
        &&& fs[7] == PodView::String(m.error@)
        &&& fs[8] == m.format@
        &&& is_dict(fs[9]) && m.props@ == dict_of(fs[9])
    }

    /// Encodes the payload as a struct pod with the fields in order.
    pub fn to_value(&self) -> (r: Result<Value, PodError>)
        ensures
            match r {
                Ok(value) => value@ == PodView::Struct(self.spec_fields()),
                Err(_) => self.props@.len() > 0x7fff_ffff,
            },
    {
        let mut fields: Vec<Value> = Vec::new();
        fields.push(Value::Int(self.id));
        fields.push(Value::Int(self.output_node_id));
        fields.push(Value::Int(self.output_port_id));
        fields.push(Value::Int(self.input_node_id));
        fields.push(Value::Int(self.input_port_id));
        fields.push(Value::Long(self.change_mask));
        fields.push(Value::Int(self.state));
        fields.push(v_string(&self.error));
        fields.push(clone_value(&self.format));
        fields.push(v_dict(&self.props)?);
        let r = Value::Struct(fields);
        proof {
            lemma_pod_views(fields@);
            assert forall|j: int|
                0 <= j < fields@.len() implies pod_views(fields@)[j] == self.spec_fields()[j] by {
                assert(pod_views(fields@)[j] == fields@[j]@);
            }
            assert(pod_views(fields@) =~= self.spec_fields());
        }
        Ok(r)
    }

    /// Decodes the payload from a struct pod, pulling fields in declared
    /// order; missing trailing fields fail, extra ones are tolerated.
    pub fn from_value(v: &Value) -> (r: Result<Info, PodError>)
        ensures
            match r {
                Ok(m) => v@ matches PodView::Struct(fs) && Info::parses(fs, m),
                Err(e) => !(v@ matches PodView::Struct(fs) && Info::field_shape(fs)) && (e
                    == PodError::InvalidType || e == PodError::PropertyMissing) && (e
                    == PodError::PropertyMissing ==> (v@ matches PodView::Struct(fs2)
                    && fs2.len() < 10)),
            },
    {
        match v {
            Value::Struct(fields) => {
                proof {
                    lemma_pod_views(fields@);
                }
                let pos: usize = 0;
                let (id, pos) = read_int(fields, pos)?;
                let (output_node_id, pos) = read_int(fields, pos)?;
                let (output_port_id, pos) = read_int(fields, pos)?;
                let (input_node_id, pos) = read_int(fields, pos)?;
                let (input_port_id, pos) = read_int(fields, pos)?;
                let (change_mask, pos) = read_long(fields, pos)?;
                let (state, pos) = read_int(fields, pos)?;
                let (error, pos) = read_string(fields, pos)?;
                let (format, pos) = read_value(fields, pos)?;
                let (props, pos) = read_dict(fields, pos)?;
                let m = Info { id, output_node_id, output_port_id, input_node_id, input_port_id, change_mask, state, error, format, props };
                proof {
                    assert(Info::parses(pod_views(fields@), m));
                }
                Ok(m)
            },
            _ => Err(PodError::InvalidType),
        }
    }
}

impl MessageOpCode for Info {
    open spec fn spec_op_code() -> u32 {
        0
    }

    fn op_code() -> (r: u32) {
        0
    }
}

/// Events of the Link interface.
#[derive(Debug, PartialEq)]
pub enum LinkEvent {
    Info(Info),
    /// A sync barrier fanned out to this proxy (see the connection router).
    Done(crate::core_proxy::Done),
}

impl LinkEvent {
    /// Whether an opcode is in this interface's event table and the body
    /// fields fit the event's shape.
    pub open spec fn event_shape(opcode: u32, fs: Seq<PodView>) -> bool {
        if opcode == 0 {
            Info::field_shape(fs)
        } else {
            false
        }
    }

    /// Whether `e` is exactly the event this opcode and body carry.
    pub open spec fn event_parses(opcode: u32, fs: Seq<PodView>, e: LinkEvent) -> bool {
        if opcode == 0 {
            e matches LinkEvent::Info(m) && Info::parses(fs, m)
        } else {
            false
        }
    }

    /// Decodes the event an opcode and a payload pod carry.
    pub fn from_body(opcode: u32, body: &Value) -> (r: Result<LinkEvent, PodError>)
        ensures
            match r {
                Ok(e) => body@ matches PodView::Struct(fs) && LinkEvent::event_parses(opcode, fs, e),
                Err(_) => !(body@ matches PodView::Struct(fs) && LinkEvent::event_shape(
                    opcode,
                    fs,
                )),
            },
    {
        if opcode == 0 {
            match Info::from_value(body) {
                Ok(m) => Ok(LinkEvent::Info(m)),
                Err(e) => Err(e),
            }
        } else {
            Err(PodError::InvalidType)
        }
    }
}

impl DeserializeFromOpCode for LinkEvent {
    open spec fn spec_event_shape(opcode: u32, fs: Seq<crate::value::PodView>) -> bool {
        LinkEvent::event_shape(opcode, fs)
    }

    open spec fn spec_event_parses(opcode: u32, fs: Seq<crate::value::PodView>, e: LinkEvent) -> bool {
        LinkEvent::event_parses(opcode, fs, e)
    }
    /// Parses the buffer's leading pod and decodes it by opcode.
    fn deserialize_from_opcode(opcode: u32, buffer: &Vec<u8>) -> Result<(LinkEvent, usize), PodError> {
        match crate::deserialize::deserialize_pod(buffer, 0) {
            Ok((v, np)) => match LinkEvent::from_body(opcode, &v) {
                Ok(e) => Ok((e, np)),
                Err(e) => Err(e),
            },
            Err(e) => Err(e),
        }
    }
}

} // verus!
