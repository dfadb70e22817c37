//! The reader path end to end against a mock server: frames in, mailbox
//! deliveries out.

use pipewire_native_protocol::client::CLIENT_ID;
use pipewire_native_protocol::core_proxy::{CoreEvent, Done, Hello, Info, CORE_ID};
use pipewire_native_protocol::device::{DeviceEvent, Info as DeviceInfo};
use pipewire_native_protocol::message::IntMap;
use pipewire_native_protocol::error::ConnectionError;
use pipewire_native_protocol::message::Dict;
use pipewire_native_protocol::registry::{Global, RegistryEvent};
use pipewire_native_protocol::serialize::serialize_pod;
use pipewire_native_protocol::value::Value;
use pipewire_native_protocol::{
    dispatch_frame, Delivery, Header, PipewireWriter, Proxies, ProxyKind,
};

fn event_frame(id: i32, opcode: u32, seq: u32, payload: &Value) -> Vec<u8> {
    let body = serialize_pod(payload).unwrap();
    let h = Header::new(id, opcode, body.len() as u32, seq, 0);
    let mut out = Vec::new();
    pipewire_native_protocol::write_header(&mut out, &h);
    out.extend_from_slice(&body);
    out
}

fn core_info() -> Info {
    let mut props = Dict::new();
    props.push(b"core.name".to_vec(), b"mock".to_vec());
    Info {
        id: 0,
        cookie: 12345,
        user_name: b"user".to_vec(),
        host_name: b"host".to_vec(),
        version: b"3".to_vec(),
        name: b"mock".to_vec(),
        change_mask: 0,
        props,
    }
}

#[test]
fn handshake_delivers_one_core_info() {
    // The client sends Hello { version: 3 } first; the mock server
    // accepts it and replies with Core.Info.
    let mut w = PipewireWriter::new();
    let hello = Hello { version: 3 }.to_value();
    let frame = w.call_method(CORE_ID, 1, &hello).unwrap();
    let h = pipewire_native_protocol::read_header(&frame, 0);
    assert_eq!((h.id, h.opcode(), h.seq), (0, 1, 0));

    let mut p = Proxies::new();
    p.core_present = true;
    let reply = event_frame(CORE_ID, 0, 7, &core_info().to_value().unwrap());
    let ds = dispatch_frame(&p, &reply).unwrap();
    assert_eq!(ds.len(), 1);
    match &ds[0] {
        Delivery::Core(CoreEvent::Info(info)) => assert_eq!(info.cookie, 12345),
        other => panic!("expected one Core Info delivery, got {:?}", other),
    }
}

#[test]
fn globals_arrive_on_the_registry_mailbox_in_order() {
    // get_registry allocates an id, registers it, and the server sends
    // two Registry.Global events for the new id.
    let mut p = Proxies::new();
    p.core_present = true;
    let id = p.alloc_id();
    assert_eq!(id, 2);
    assert!(p.register(ProxyKind::Registry, id));

    let g1 = Global {
        id: 10,
        permissions: 7,
        type_: b"PipeWire:Interface:Node".to_vec(),
        version: 3,
        props: Dict::new(),
    };
    let g2 = Global {
        id: 11,
        permissions: 7,
        type_: b"PipeWire:Interface:Port".to_vec(),
        version: 3,
        props: Dict::new(),
    };
    let f1 = event_frame(id, 0, 8, &g1.to_value().unwrap());
    let f2 = event_frame(id, 0, 9, &g2.to_value().unwrap());

    let d1 = dispatch_frame(&p, &f1).unwrap();
    let d2 = dispatch_frame(&p, &f2).unwrap();
    assert_eq!(d1.len(), 1);
    assert_eq!(d2.len(), 1);
    match (&d1[0], &d2[0]) {
        (Delivery::Registry(i1, RegistryEvent::Global(a)), Delivery::Registry(i2, RegistryEvent::Global(b))) => {
            assert_eq!((*i1, *i2), (id, id));
            assert_eq!(a.id, 10);
            assert_eq!(b.id, 11);
        },
        other => panic!("expected two Global deliveries, got {:?}", other),
    }
}

#[test]
fn done_fans_out_to_the_synced_proxy_before_core() {
    // registry.sync() sends Core.Sync { id = <registry id> }; the server
    // replies Core.Done { id = <registry id> }. The Done arrives on the
    // registry mailbox (as its Done variant) and on the Core mailbox.
    let mut p = Proxies::new();
    p.core_present = true;
    let id = p.alloc_id();
    assert!(p.register(ProxyKind::Registry, id));

    let done = Done { id, seq: 4 };
    let frame = event_frame(CORE_ID, 1, 12, &done.to_value());
    let ds = dispatch_frame(&p, &frame).unwrap();
    assert_eq!(ds.len(), 2);
    match &ds[0] {
        Delivery::Registry(i, RegistryEvent::Done(d)) => {
            assert_eq!(*i, id);
            assert_eq!(d.seq, 4);
        },
        other => panic!("expected the registry fan-out first, got {:?}", other),
    }
    match &ds[1] {
        Delivery::Core(CoreEvent::Done(d)) => assert_eq!((d.id, d.seq), (id, 4)),
        other => panic!("expected the Core delivery second, got {:?}", other),
    }
}

#[test]
fn done_for_client_fans_out_to_client() {
    let mut p = Proxies::new();
    p.core_present = true;
    p.client_present = true;
    let done = Done { id: CLIENT_ID, seq: 1 };
    let frame = event_frame(CORE_ID, 1, 2, &done.to_value());
    let ds = dispatch_frame(&p, &frame).unwrap();
    assert_eq!(ds.len(), 2);
    assert!(matches!(&ds[0], Delivery::Client(_)));
    assert!(matches!(&ds[1], Delivery::Core(_)));
}

#[test]
fn malformed_frame_is_dropped_and_the_stream_stays_healthy() {
    // A frame whose declared pod size exceeds its body is a per-frame
    // diagnostic, not a panic; the next well-formed frame still arrives.
    let mut p = Proxies::new();
    p.core_present = true;

    let mut bad = event_frame(CORE_ID, 0, 1, &core_info().to_value().unwrap());
    // Overstate the pod size declared inside the body.
    bad[16] = 0xff;
    bad[17] = 0xff;
    let r = dispatch_frame(&p, &bad);
    assert!(matches!(r, Err(ConnectionError::DeserializeError(_))));

    let good = event_frame(CORE_ID, 0, 2, &core_info().to_value().unwrap());
    let ds = dispatch_frame(&p, &good).unwrap();
    assert_eq!(ds.len(), 1);
}

#[test]
fn dropped_proxy_gets_no_deliveries() {
    // Dropping a Registry proxy removes its id from the table; a later
    // Registry event for that id is a routing diagnostic, and no second
    // delivery is attempted.
    let mut p = Proxies::new();
    p.core_present = true;
    let id = p.alloc_id();
    assert!(p.register(ProxyKind::Registry, id));
    assert!(p.remove(ProxyKind::Registry, id));
    assert!(!p.contains(ProxyKind::Registry, id));

    let g = Global {
        id: 10,
        permissions: 7,
        type_: b"PipeWire:Interface:Node".to_vec(),
        version: 3,
        props: Dict::new(),
    };
    let frame = event_frame(id, 0, 3, &g.to_value().unwrap());
    assert_eq!(dispatch_frame(&p, &frame), Err(ConnectionError::ProxyNotPresentError(id)));
}

#[test]
fn device_events_route_to_the_device_mailbox() {
    let mut p = Proxies::new();
    p.core_present = true;
    let id = p.alloc_id();
    assert!(p.register(ProxyKind::Device, id));
    let info = DeviceInfo { id: 20, change_mask: 1, props: Dict::new(), param_info: IntMap::new() };
    let frame = event_frame(id, 0, 5, &info.to_value().unwrap());
    let ds = dispatch_frame(&p, &frame).unwrap();
    assert_eq!(ds.len(), 1);
    match &ds[0] {
        Delivery::Device(i, DeviceEvent::Info(got)) => {
            assert_eq!(*i, id);
            assert_eq!(got.id, 20);
        },
        other => panic!("expected one Device Info delivery, got {:?}", other),
    }
}

#[test]
fn ids_allocate_monotonically_and_registers_reject_duplicates() {
    let mut p = Proxies::new();
    let a = p.alloc_id();
    let b = p.alloc_id();
    assert_eq!((a, b), (2, 3));
    assert!(p.register(ProxyKind::Registry, a));
    assert!(!p.register(ProxyKind::Node, a), "an id resolves to one kind only");
    assert!(p.register(ProxyKind::Node, b));
    assert!(!p.register(ProxyKind::Registry, 1), "reserved ids stay reserved");
}
