//! The frame layer: the length-delimited stream buffer, the writer's
//! sequence stamping, and the client property-update frame as a mock
//! server would decode it.

use pipewire_native_protocol::client::UpdateProperties;
use pipewire_native_protocol::client_node::SetActivation;
use pipewire_native_protocol::value::Fd;
use pipewire_native_protocol::deserialize::deserialize_pod;
use pipewire_native_protocol::message::Dict;
use pipewire_native_protocol::serialize::serialize_pod;
use pipewire_native_protocol::value::Value;
use pipewire_native_protocol::{FrameBuffer, Header, Message, PipewireWriter};

/// Builds a frame as a server would: header then payload encoding.
fn event_frame(id: i32, opcode: u32, seq: u32, payload: &Value) -> Vec<u8> {
    let body = serialize_pod(payload).unwrap();
    let h = Header::new(id, opcode, body.len() as u32, seq, 0);
    let mut out = Vec::new();
    pipewire_native_protocol::write_header(&mut out, &h);
    out.extend_from_slice(&body);
    out
}

#[test]
fn frame_buffer_waits_for_whole_frames() {
    let payload = Value::Struct(vec![Value::Int(3)]);
    let frame = event_frame(0, 0, 1, &payload);
    let mut fb = FrameBuffer::new();

    // Push all but the last byte: no frame yet.
    let head: Vec<u8> = frame[..frame.len() - 1].to_vec();
    fb.push_bytes(&head);
    assert!(fb.try_frame().is_none());

    // The last byte completes it.
    let tail: Vec<u8> = frame[frame.len() - 1..].to_vec();
    fb.push_bytes(&tail);
    let got = fb.try_frame().expect("complete frame");
    assert_eq!(got, frame);
    assert!(fb.try_frame().is_none());
}

#[test]
fn frame_buffer_cuts_consecutive_frames() {
    let f1 = event_frame(0, 0, 1, &Value::Struct(vec![Value::Int(1)]));
    let f2 = event_frame(0, 1, 2, &Value::Struct(vec![Value::Int(2)]));
    let mut both = f1.clone();
    both.extend_from_slice(&f2);
    let mut fb = FrameBuffer::new();
    fb.push_bytes(&both);
    assert_eq!(fb.try_frame().unwrap(), f1);
    assert_eq!(fb.try_frame().unwrap(), f2);
    assert!(fb.try_frame().is_none());
}

#[test]
fn writer_stamps_increasing_sequence_numbers() {
    let mut w = PipewireWriter::new();
    let payload = Value::Struct(vec![Value::Int(3)]);
    let f1 = w.call_method(0, 1, &payload).unwrap();
    let f2 = w.call_method(0, 2, &payload).unwrap();
    let f3 = w.call_method(1, 2, &payload).unwrap();
    let s1 = pipewire_native_protocol::read_header(&f1, 0).seq;
    let s2 = pipewire_native_protocol::read_header(&f2, 0).seq;
    let s3 = pipewire_native_protocol::read_header(&f3, 0).seq;
    assert!(s1 < s2 && s2 < s3);
    assert_eq!((s1, s2, s3), (0, 1, 2));
}

#[test]
fn update_properties_frame_decodes_on_the_server() {
    // ClientProxy.update_properties({"application.name": "test"}):
    // header.id = 1, opcode = 2, and the dictionary survives the trip.
    let mut props = Dict::new();
    props.push(b"application.name".to_vec(), b"test".to_vec());
    let msg = UpdateProperties { props };
    let payload = msg.to_value().unwrap();

    let mut w = PipewireWriter::new();
    let frame = w
        .call_method(pipewire_native_protocol::client::CLIENT_ID, 2, &payload)
        .unwrap();

    // The mock server decodes the frame.
    let h = pipewire_native_protocol::read_header(&frame, 0);
    assert_eq!(h.id, 1);
    assert_eq!(h.opcode(), 2);
    assert_eq!(h.size() as usize, frame.len() - 16);
    let (body, _) = deserialize_pod(&frame, 16).unwrap();
    let back = UpdateProperties::from_value(&body).unwrap();
    assert_eq!(back.props.entries.len(), 1);
    assert_eq!(back.props.entries[0].0, b"application.name".to_vec());
    assert_eq!(back.props.entries[0].1, b"test".to_vec());
}

#[test]
fn n_fds_counts_fd_pods_in_the_payload() {
    let mut w = PipewireWriter::new();

    // A payload with one Fd pod: the header's fourth word says so.
    let msg = SetActivation { nodeid: 2, signalfd: Fd(0), memid: 1, offset: 0, size: 64 };
    let frame = w.call_method(3, 10, &msg.to_value()).unwrap();
    assert_eq!(pipewire_native_protocol::read_header(&frame, 0).n_fds, 1);

    // A plain payload carries none.
    let frame2 = w.call_method(0, 1, &Value::Struct(vec![Value::Int(3)])).unwrap();
    assert_eq!(pipewire_native_protocol::read_header(&frame2, 0).n_fds, 0);
}

#[test]
fn message_carries_incomplete_header() {
    let m = Message::new(5, 7, 9, Value::Null);
    assert_eq!(m.header.id, 5);
    assert_eq!(m.header.opcode(), 7);
    assert_eq!(m.header.size(), 0);
    assert_eq!(m.header.seq, 9);
    assert_eq!(m.payload, Value::Null);
}
