//! The hand-written ClientNode codecs: count-prefixed parameter lists and
//! the nested buffer lists, encoded and decoded through a full pod trip.

use pipewire_native_protocol::client_node::{
    Buffer, DataBlock, DataPlane, Meta, MixerBuffer, PortBuffers, PortUpdate, Update, UseBuffers,
};
use pipewire_native_protocol::deserialize::deserialize_pod;
use pipewire_native_protocol::message::{Dict, IntMap};
use pipewire_native_protocol::serialize::serialize_pod;
use pipewire_native_protocol::value::{Fd, Id, Value};

fn node_info() -> pipewire_native_protocol::node::Info {
    pipewire_native_protocol::node::Info {
        id: 9,
        max_input_ports: 2,
        max_output_ports: 2,
        change_mask: 3,
        n_input_ports: 1,
        n_output_ports: 1,
        state: Id(4),
        error: Vec::new(),
        props: Dict::new(),
        param_info: IntMap::new(),
    }
}

fn port_info() -> pipewire_native_protocol::port::Info {
    let mut props = Dict::new();
    props.push(b"port.name".to_vec(), b"out_0".to_vec());
    pipewire_native_protocol::port::Info {
        id: 3,
        direction: 1,
        change_mask: 1,
        props,
        param_info: IntMap::new(),
    }
}

fn pod_trip(v: &Value) -> Value {
    let bytes = serialize_pod(v).expect("serializable");
    let (back, _) = deserialize_pod(&bytes, 0).expect("parses");
    back
}

#[test]
fn update_roundtrip() {
    let m = Update {
        change_mask: 5,
        params: vec![Value::Int(1), Value::String(b"param".to_vec())],
        info: node_info(),
    };
    let v = m.to_value().unwrap();
    let back = Update::from_value(&pod_trip(&v)).unwrap();
    assert_eq!(back, m);
}

#[test]
fn update_with_no_params() {
    let m = Update { change_mask: 0, params: Vec::new(), info: node_info() };
    let v = m.to_value().unwrap();
    let back = Update::from_value(&v).unwrap();
    assert_eq!(back, m);
}

#[test]
fn port_update_roundtrip() {
    let m = PortUpdate {
        direction: 1,
        port_id: 0,
        change_mask: 3,
        params: vec![Value::Long(7)],
        info: port_info(),
    };
    let v = m.to_value().unwrap();
    let back = PortUpdate::from_value(&pod_trip(&v)).unwrap();
    assert_eq!(back, m);
}

#[test]
fn port_buffers_roundtrip() {
    let m = PortBuffers {
        direction: 1,
        port_id: 0,
        mix_id: 0,
        buffers: vec![
            Buffer {
                data_planes: vec![DataPlane {
                    type_: Id(1),
                    memfd: Fd(0),
                    flags: 0,
                    mapoffset: 0,
                    maxsize: 4096,
                }],
            },
            Buffer { data_planes: Vec::new() },
        ],
    };
    let v = m.to_value().unwrap();
    let back = PortBuffers::from_value(&pod_trip(&v)).unwrap();
    assert_eq!(back, m);
}

#[test]
fn use_buffers_roundtrip() {
    // A buffer's `flags` is not written on the wire: the decoder stamps
    // each buffer with the message's own flags, so they must agree for a
    // clean round trip.
    let m = UseBuffers {
        direction: 1,
        port_id: 0,
        mix_id: 0,
        flags: 2,
        buffers: vec![MixerBuffer {
            memid: 4,
            offset: 0,
            size: 1024,
            flags: 2,
            metas: vec![Meta { type_: Id(1), size: 64 }],
            data_blocks: vec![DataBlock {
                type_: Id(2),
                data: 0,
                flags: 0,
                mapoffset: 0,
                maxsize: 1024,
            }],
        }],
    };
    let v = m.to_value().unwrap();
    let back = UseBuffers::from_value(&pod_trip(&v)).unwrap();
    assert_eq!(back, m);
}

#[test]
fn node_info_roundtrip_with_maps() {
    let mut info = node_info();
    info.props.push(b"node.name".to_vec(), b"mic".to_vec());
    info.param_info.push(2, 3);
    let v = info.to_value().unwrap();
    let back = pipewire_native_protocol::node::Info::from_value(&pod_trip(&v)).unwrap();
    assert_eq!(back, info);
}
