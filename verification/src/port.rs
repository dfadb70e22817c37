//! The Port interface: parameter plumbing for node ports.

use vstd::prelude::*;

use crate::error::PodError;
use crate::message::{
    clone_value, dict_of, dict_pod, int_map_of, int_map_pod, is_dict, is_int_map, read_bool,
    read_dict, read_fd, read_id, read_id_array, read_int, read_int_map, read_long, read_string,
    read_value, v_dict, v_id_array, v_int_map, v_string, Dict, IntMap,
};
use crate::opcode::{DeserializeFromOpCode, MessageOpCode};
use crate::value::{
    fview_id, lemma_pod_views, pod_views, ArrayView, Fd, Id, PodView, Value,
};

verus! {


/// Port method: subscribe to parameter changes.
#[derive(Debug, PartialEq)]
pub struct SubscribeParams {
    pub ids: Vec<Id>,
}

impl SubscribeParams {
    /// The payload's struct-pod fields, in declared order.
    pub open spec fn spec_fields(self) -> Seq<PodView> {
        seq![
            PodView::ValueArray(ArrayView::Id(self.ids@.map_values(fview_id()))),
        ]
    }

    /// Whether struct-pod fields begin with this message's shape.
    pub open spec fn field_shape(fs: Seq<PodView>) -> bool {
        &&& fs.len() >= 1
        &&& fs[0] matches PodView::ValueArray(ArrayView::Id(_))
    }

    /// Whether `m` is exactly the message the leading fields carry.
    pub open spec fn parses(fs: Seq<PodView>, m: SubscribeParams) -> bool {
        &&& fs.len() >= 1
        &&& fs[0] == PodView::ValueArray(ArrayView::Id(m.ids@.map_values(fview_id())))
    }

    /// Encodes the payload as a struct pod with the fields in order.
    pub fn to_value(&self) -> (r: Value)
        ensures
            r@ == PodView::Struct(self.spec_fields()),
    {
        let mut fields: Vec<Value> = Vec::new();
        fields.push(v_id_array(&self.ids));
        let r = Value::Struct(fields);
        proof {
            lemma_pod_views(fields@);
            assert forall|j: int|
                0 <= j < fields@.len() implies pod_views(fields@)[j] == self.spec_fields()[j] by {
                assert(pod_views(fields@)[j] == fields@[j]@);
            }
            assert(pod_views(fields@) =~= self.spec_fields());
        }
        r
    }

    /// Decodes the payload from a struct pod, pulling fields in declared
    /// order; missing trailing fields fail, extra ones are tolerated.
    pub fn from_value(v: &Value) -> (r: Result<SubscribeParams, PodError>)
        ensures
            match r {
                Ok(m) => v@ matches PodView::Struct(fs) && SubscribeParams::parses(fs, m),
                Err(e) => !(v@ matches PodView::Struct(fs) && SubscribeParams::field_shape(fs)) && (e
                    == PodError::InvalidType || e == PodError::PropertyMissing) && (e
                    == PodError::PropertyMissing ==> (v@ matches PodView::Struct(fs2)
                    && fs2.len() < 1)),
            },
    {
        match v {
            Value::Struct(fields) => {
                proof {
                    lemma_pod_views(fields@);
                }
                let pos: usize = 0;
                let (ids, pos) = read_id_array(fields, pos)?;
                let m = SubscribeParams { ids };
                proof {
                    assert(SubscribeParams::parses(pod_views(fields@), m));
                }
                Ok(m)
            },
            _ => Err(PodError::InvalidType),
        }
    }
}

/// Port method: enumerate parameters.
#[derive(Debug, PartialEq)]
pub struct EnumParams {
    pub seq: i32,
    pub id: Id,
    pub index: i32,
    pub num: i32,
    pub filter: Value,
}

impl EnumParams {
    /// The payload's struct-pod fields, in declared order.
    pub open spec fn spec_fields(self) -> Seq<PodView> {
        seq![
            PodView::Int(self.seq),
            PodView::Id(self.id.0),
            PodView::Int(self.index),
            PodView::Int(self.num),
            self.filter@,
        ]
    }

    /// Whether struct-pod fields begin with this message's shape.
    pub open spec fn field_shape(fs: Seq<PodView>) -> bool {
        &&& fs.len() >= 5
        &&& fs[0] is Int
        &&& fs[1] is Id
        &&& fs[2] is Int
        &&& fs[3] is Int
        &&& true
    }

    /// Whether `m` is exactly the message the leading fields carry.
    pub open spec fn parses(fs: Seq<PodView>, m: EnumParams) -> bool {
        &&& fs.len() >= 5
        &&& fs[0] == PodView::Int(m.seq)
        &&& fs[1] == PodView::Id(m.id.0)
        &&& fs[2] == PodView::Int(m.index)
        &&& fs[3] == PodView::Int(m.num)
        &&& fs[4] == m.filter@
    }

    /// Encodes the payload as a struct pod with the fields in order.
    pub fn to_value(&self) -> (r: Value)
        ensures
            r@ == PodView::Struct(self.spec_fields()),
    {
        let mut fields: Vec<Value> = Vec::new();
        fields.push(Value::Int(self.seq));
        fields.push(Value::Id(self.id));
        fields.push(Value::Int(self.index));
        fields.push(Value::Int(self.num));
        fields.push(clone_value(&self.filter));
        let r = Value::Struct(fields);
        proof {
            lemma_pod_views(fields@);
            assert forall|j: int|
                0 <= j < fields@.len() implies pod_views(fields@)[j] == self.spec_fields()[j] by {
                assert(pod_views(fields@)[j] == fields@[j]@);
            }
            assert(pod_views(fields@) =~= self.spec_fields());
        }
        r
    }

    /// Decodes the payload from a struct pod, pulling fields in declared
    /// order; missing trailing fields fail, extra ones are tolerated.
    pub fn from_value(v: &Value) -> (r: Result<EnumParams, PodError>)
        ensures
            match r {
                Ok(m) => v@ matches PodView::Struct(fs) && EnumParams::parses(fs, m),
                Err(e) => !(v@ matches PodView::Struct(fs) && EnumParams::field_shape(fs)) && (e
                    == PodError::InvalidType || e == PodError::PropertyMissing) && (e
                    == PodError::PropertyMissing ==> (v@ matches PodView::Struct(fs2)
                    && fs2.len() < 5)),
            },
    {
        match v {
            Value::Struct(fields) => {
                proof {
                    lemma_pod_views(fields@);
                }
                let pos: usize = 0;
                let (seq, pos) = read_int(fields, pos)?;
                let (id, pos) = read_id(fields, pos)?;
                let (index, pos) = read_int(fields, pos)?;
                let (num, pos) = read_int(fields, pos)?;
                let (filter, pos) = read_value(fields, pos)?;
                let m = EnumParams { seq, id, index, num, filter };
                proof {
                    assert(EnumParams::parses(pod_views(fields@), m));
                }
                Ok(m)
            },
            _ => Err(PodError::InvalidType),
        }
    }
}

/// Port event: port information.
#[derive(Debug, PartialEq)]
pub struct Info {
    pub id: i32,
    pub direction: i32,
    pub change_mask: i64,
    pub props: Dict,
    pub param_info: IntMap,
}

impl Info {
    /// The payload's struct-pod fields, in declared order.
    pub open spec fn spec_fields(self) -> Seq<PodView> {
        seq![
            PodView::Int(self.id),
            PodView::Int(self.direction),
            PodView::Long(self.change_mask),
            dict_pod(self.props@),
            int_map_pod(self.param_info@),
        ]
    }

    /// Whether struct-pod fields begin with this message's shape.
    pub open spec fn field_shape(fs: Seq<PodView>) -> bool {
        &&& fs.len() >= 5
        &&& fs[0] is Int
        &&& fs[1] is Int
        &&& fs[2] is Long
        &&& is_dict(fs[3])
        &&& is_int_map(fs[4])
    }

    /// Whether `m` is exactly the message the leading fields carry.
    pub open spec fn parses(fs: Seq<PodView>, m: Info) -> bool {
        &&& fs.len() >= 5
        &&& fs[0] == PodView::Int(m.id)
        &&& fs[1] == PodView::Int(m.direction)
        &&& fs[2] == PodView::Long(m.change_mask)
        &&& is_dict(fs[3]) && m.props@ == dict_of(fs[3])
        &&& is_int_map(fs[4]) && m.param_info@ == int_map_of(fs[4])
    }

    /// Encodes the payload as a struct pod with the fields in order.
    pub fn to_value(&self) -> (r: Result<Value, PodError>)
        ensures
            match r {
                Ok(value) => value@ == PodView::Struct(self.spec_fields()),
                Err(_) => self.props@.len() > 0x7fff_ffff || self.param_info@.len() > 0x7fff_ffff,
            },
    {
        let mut fields: Vec<Value> = Vec::new();
        fields.push(Value::Int(self.id));
        fields.push(Value::Int(self.direction));
        fields.push(Value::Long(self.change_mask));
        fields.push(v_dict(&self.props)?);
        fields.push(v_int_map(&self.param_info)?);
        let r = Value::Struct(fields);
        proof {
            lemma_pod_views(fields@);
            assert forall|j: int|
                0 <= j < fields@.len() implies pod_views(fields@)[j] == self.spec_fields()[j] by {
                assert(pod_views(fields@)[j] == fields@[j]@);
            }
            assert(pod_views(fields@) =~= self.spec_fields());
        }
        Ok(r)
    }

    /// Decodes the payload from a struct pod, pulling fields in declared
    /// order; missing trailing fields fail, extra ones are tolerated.
    pub fn from_value(v: &Value) -> (r: Result<Info, PodError>)
        ensures
            match r {
                Ok(m) => v@ matches PodView::Struct(fs) && Info::parses(fs, m),
                Err(e) => !(v@ matches PodView::Struct(fs) && Info::field_shape(fs)) && (e
                    == PodError::InvalidType || e == PodError::PropertyMissing) && (e
                    == PodError::PropertyMissing ==> (v@ matches PodView::Struct(fs2)
                    && fs2.len() < 5)),
            },
    {
        match v {
            Value::Struct(fields) => {
                proof {
                    lemma_pod_views(fields@);
                }
                let pos: usize = 0;
                let (id, pos) = read_int(fields, pos)?;
                let (direction, pos) = read_int(fields, pos)?;
                let (change_mask, pos) = read_long(fields, pos)?;
                let (props, pos) = read_dict(fields, pos)?;
                let (param_info, pos) = read_int_map(fields, pos)?;
                let m = Info { id, direction, change_mask, props, param_info };
                proof {
                    assert(Info::parses(pod_views(fields@), m));
                }
                Ok(m)
            },
            _ => Err(PodError::InvalidType),
        }
    }
}

impl MessageOpCode for Info {
    open spec fn spec_op_code() -> u32 {
        0
    }

    fn op_code() -> (r: u32) {
        0
    }
}

/// Port event: one enumerated parameter.
#[derive(Debug, PartialEq)]
pub struct Param {
    pub seq: i32,
    pub id: Id,
    pub index: i32,
    pub next: i32,
    pub param: Value,
}

impl Param {
    /// The payload's struct-pod fields, in declared order.
    pub open spec fn spec_fields(self) -> Seq<PodView> {
        seq![
            PodView::Int(self.seq),
            PodView::Id(self.id.0),
            PodView::Int(self.index),
            PodView::Int(self.next),
            self.param@,
        ]
    }

    /// Whether struct-pod fields begin with this message's shape.
    pub open spec fn field_shape(fs: Seq<PodView>) -> bool {
        &&& fs.len() >= 5
        &&& fs[0] is Int
        &&& fs[1] is Id
        &&& fs[2] is Int
        &&& fs[3] is Int
        &&& true
    }

    /// Whether `m` is exactly the message the leading fields carry.
    pub open spec fn parses(fs: Seq<PodView>, m: Param) -> bool {
        &&& fs.len() >= 5
        &&& fs[0] == PodView::Int(m.seq)
        &&& fs[1] == PodView::Id(m.id.0)
        &&& fs[2] == PodView::Int(m.index)
        &&& fs[3] == PodView::Int(m.next)
        &&& fs[4] == m.param@
    }

    /// Encodes the payload as a struct pod with the fields in order.
    pub fn to_value(&self) -> (r: Value)
        ensures
            r@ == PodView::Struct(self.spec_fields()),
    {
        let mut fields: Vec<Value> = Vec::new();
        fields.push(Value::Int(self.seq));
        fields.push(Value::Id(self.id));
        fields.push(Value::Int(self.index));
        fields.push(Value::Int(self.next));
        fields.push(clone_value(&self.param));
        let r = Value::Struct(fields);
        proof {
            lemma_pod_views(fields@);
            assert forall|j: int|
                0 <= j < fields@.len() implies pod_views(fields@)[j] == self.spec_fields()[j] by {
                assert(pod_views(fields@)[j] == fields@[j]@);
            }
            assert(pod_views(fields@) =~= self.spec_fields());
        }
        r
    }

    /// Decodes the payload from a struct pod, pulling fields in declared
    /// order; missing trailing fields fail, extra ones are tolerated.
    pub fn from_value(v: &Value) -> (r: Result<Param, PodError>)
        ensures
            match r {
                Ok(m) => v@ matches PodView::Struct(fs) && Param::parses(fs, m),
                Err(e) => !(v@ matches PodView::Struct(fs) && Param::field_shape(fs)) && (e
                    == PodError::InvalidType || e == PodError::PropertyMissing) && (e
                    == PodError::PropertyMissing ==> (v@ matches PodView::Struct(fs2)
                    && fs2.len() < 5)),
            },
    {
        match v {
            Value::Struct(fields) => {
                proof {
                    lemma_pod_views(fields@);
                }
                let pos: usize = 0;
                let (seq, pos) = read_int(fields, pos)?;
                let (id, pos) = read_id(fields, pos)?;
                let (index, pos) = read_int(fields, pos)?;
                let (next, pos) = read_int(fields, pos)?;
                let (param, pos) = read_value(fields, pos)?;
                let m = Param { seq, id, index, next, param };
                proof {
                    assert(Param::parses(pod_views(fields@), m));
                }
                Ok(m)
            },
            _ => Err(PodError::InvalidType),
        }
    }
}

impl MessageOpCode for Param {
    open spec fn spec_op_code() -> u32 {
        1
    }

    fn op_code() -> (r: u32) {
        1
    }
}

/// Events of the Port interface.
#[derive(Debug, PartialEq)]
pub enum PortEvent {
    Info(Info),
    Param(Param),
    /// A sync barrier fanned out to this proxy (see the connection router).
    Done(crate::core_proxy::Done),
}

impl PortEvent {
    /// Whether an opcode is in this interface's event table and the body
    /// fields fit the event's shape.
    pub open spec fn event_shape(opcode: u32, fs: Seq<PodView>) -> bool {
        if opcode == 0 {
            Info::field_shape(fs)
        } else if opcode == 1 {
            Param::field_shape(fs)
        } else {
            false
        }
    }

    /// Whether `e` is exactly the event this opcode and body carry.
    pub open spec fn event_parses(opcode: u32, fs: Seq<PodView>, e: PortEvent) -> bool {
        if opcode == 0 {
            e matches PortEvent::Info(m) && Info::parses(fs, m)
        } else if opcode == 1 {
            e matches PortEvent::Param(m) && Param::parses(fs, m)
        } else {
            false
        }
    }

    /// Decodes the event an opcode and a payload pod carry.
    pub fn from_body(opcode: u32, body: &Value) -> (r: Result<PortEvent, PodError>)
        ensures
            match r {
                Ok(e) => body@ matches PodView::Struct(fs) && PortEvent::event_parses(opcode, fs, e),
                Err(_) => !(body@ matches PodView::Struct(fs) && PortEvent::event_shape(
                    opcode,
                    fs,
                )),
            },
    {
        if opcode == 0 {
            match Info::from_value(body) {
                Ok(m) => Ok(PortEvent::Info(m)),
                Err(e) => Err(e),
            }
        } else if opcode == 1 {
            match Param::from_value(body) {
                Ok(m) => Ok(PortEvent::Param(m)),
                Err(e) => Err(e),
            }
        } else {
            Err(PodError::InvalidType)
        }
    }
}

impl DeserializeFromOpCode for PortEvent {
    open spec fn spec_event_shape(opcode: u32, fs: Seq<crate::value::PodView>) -> bool {
        PortEvent::event_shape(opcode, fs)
    }

    open spec fn spec_event_parses(opcode: u32, fs: Seq<crate::value::PodView>, e: PortEvent) -> bool {
        PortEvent::event_parses(opcode, fs, e)
    }
    /// Parses the buffer's leading pod and decodes it by opcode.
    fn deserialize_from_opcode(opcode: u32, buffer: &Vec<u8>) -> Result<(PortEvent, usize), PodError> {
        match crate::deserialize::deserialize_pod(buffer, 0) {
            Ok((v, np)) => match PortEvent::from_body(opcode, &v) {
                Ok(e) => Ok((e, np)),
                Err(e) => Err(e),
            },
            Err(e) => Err(e),
        }
    }
}

} // verus!
