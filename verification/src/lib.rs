//! Client-side runtime for the PipeWire native wire protocol: the POD
//! (plain-old-data) value codec, the framed message format, the connection
//! writer state, and the proxy registry that routes inbound events.
//!
//! All I/O lives outside this crate; every function here computes over plain
//! values (bytes, integers, the library's own types) and carries a contract.
//!
//! The wire carries native-endian words; this model fixes the byte order
//! to little-endian, which coincides with the native order on every
//! target the library supports.

pub mod client;
pub mod client_node;
pub mod codec;
pub mod core_proxy;
pub mod deserialize;
pub mod device;
pub mod serialize;
pub mod spa_pods;
pub mod error;
pub mod factory;
pub mod link;
pub mod message;
pub mod metadata;
pub mod module;
pub mod node;
pub mod opcode;
pub mod port;
pub mod profiler;
pub mod registry;
pub mod value;

use vstd::prelude::*;

verus! {

/// A 16-byte message header: four little-endian 32-bit words
/// `id`, `opcode_size`, `seq`, `n_fds`. The second word packs the
/// method/event opcode in its high 8 bits and the payload size in
/// its low 24 bits.
#[derive(Clone, Copy, Debug, PartialEq, Eq, Structural)]
pub struct Header {
    pub id: i32,
    pub opcode_size: u32,
    pub seq: u32,
    pub n_fds: u32,
}

/// The packed second header word: opcode in the high byte, size in the low 24 bits.
pub open spec fn pack_opcode_size(opcode: u32, size: u32) -> u32 {
    size | (opcode << 24)
}

/// The payload size carried by a packed `opcode_size` word.
pub open spec fn unpack_size(opcode_size: u32) -> u32 {
    opcode_size & 0xff_ffff
}

/// The opcode carried by a packed `opcode_size` word.
pub open spec fn unpack_opcode(opcode_size: u32) -> u32 {
    opcode_size >> 24
}

/// Packing an opcode below 256 and a size below 2^24 and unpacking the word
/// again yields the originals.
pub proof fn lemma_header_math(opcode: u32, size: u32)
    requires
        opcode < 256,
        size < 0x100_0000,
    ensures
        unpack_opcode(pack_opcode_size(opcode, size)) == opcode,
        unpack_size(pack_opcode_size(opcode, size)) == size,
{
    assert(opcode < 256 && size < 0x100_0000 ==> (size | (opcode << 24)) >> 24 == opcode)
        by (bit_vector);
    assert(opcode < 256 && size < 0x100_0000 ==> (size | (opcode << 24)) & 0xff_ffff == size)
        by (bit_vector);
}

impl Header {
    /// Builds a header, packing `opcode` and `size` into the second word.
    pub fn new(id: i32, opcode: u32, size: u32, seq: u32, n_fds: u32) -> (r: Header)
        requires
            opcode < 256,
            size < 0x100_0000,
        ensures
            r.id == id,
            r.seq == seq,
            r.n_fds == n_fds,
            r.opcode_size == pack_opcode_size(opcode, size),
            r.spec_opcode() == opcode,
            r.spec_size() == size,
    {
        proof {
            lemma_header_math(opcode, size);
        }
        Header { id, opcode_size: size | (opcode << 24), seq, n_fds }
    }

    /// A header whose payload size is not yet known (filled in after
    /// the payload has been serialized).
    pub fn incomplete(id: i32, opcode: u32, seq: u32) -> (r: Header)
        requires
            opcode < 256,
        ensures
            r.id == id,
            r.seq == seq,
            r.n_fds == 0,
            r.opcode_size == pack_opcode_size(opcode, 0),
            r.spec_opcode() == opcode,
            r.spec_size() == 0,
    {
        Header::new(id, opcode, 0, seq, 0)
    }

    /// The payload size declared by this header.
    pub open spec fn spec_size(self) -> u32 {
        unpack_size(self.opcode_size)
    }

    /// Returns the payload size declared by this header.
    pub fn size(&self) -> (r: usize)
        ensures
            r == self.spec_size(),
    {
        (self.opcode_size & 0xff_ffff) as usize
    }

    /// The opcode declared by this header.
    pub open spec fn spec_opcode(self) -> u32 {
        unpack_opcode(self.opcode_size)
    }

    /// Returns the opcode declared by this header.
    pub fn opcode(&self) -> (r: u32)
        ensures
            r == self.spec_opcode(),
    {
        self.opcode_size >> 24
    }
}

// ---------------------------------------------------------------------------
// Header bytes
// ---------------------------------------------------------------------------

/// The 16 bytes of a header: four little-endian words.
pub open spec fn header_bytes(h: Header) -> Seq<u8> {
    crate::codec::w32(crate::codec::u32_of_i32(h.id)) + crate::codec::w32(h.opcode_size)
        + crate::codec::w32(h.seq) + crate::codec::w32(h.n_fds)
}

/// The header standing at byte offset `i`.
pub open spec fn header_of(s: Seq<u8>, i: int) -> Header {
    Header {
        id: crate::codec::i32_of_u32(crate::codec::r32(s, i)),
        opcode_size: crate::codec::r32(s, i + 4),
        seq: crate::codec::r32(s, i + 8),
        n_fds: crate::codec::r32(s, i + 12),
    }
}

/// Appends the 16 header bytes.
pub fn write_header(out: &mut Vec<u8>, h: &Header)
    ensures
        final(out)@ == old(out)@ + header_bytes(*h),
{
    let u: u32 = if h.id >= 0 {
        h.id as u32
    } else {
        ((h.id as i64) + 0x1_0000_0000i64) as u32
    };
    assert(u == crate::codec::u32_of_i32(h.id));
    crate::serialize::write_u32(out, u);
    crate::serialize::write_u32(out, h.opcode_size);
    crate::serialize::write_u32(out, h.seq);
    crate::serialize::write_u32(out, h.n_fds);
}

/// Reads the header at byte offset `i`.
pub fn read_header(buf: &Vec<u8>, i: usize) -> (h: Header)
    requires
        i + 16 <= buf@.len(),
    ensures
        h == header_of(buf@, i as int),
{
    let n = buf.len();
    assert(i + 16 <= n);
    let w0 = crate::deserialize::read_u32(buf, i);
    let id: i32 = if w0 < 0x8000_0000 {
        w0 as i32
    } else {
        ((w0 as i64) - 0x1_0000_0000i64) as i32
    };
    assert(id == crate::codec::i32_of_u32(w0));
    Header {
        id,
        opcode_size: crate::deserialize::read_u32(buf, i + 4),
        seq: crate::deserialize::read_u32(buf, i + 8),
        n_fds: crate::deserialize::read_u32(buf, i + 12),
    }
}

/// Reading a header back from where its bytes were written yields it.
pub proof fn lemma_header_round_trip(h: Header, s: Seq<u8>, i: int)
    requires
        crate::codec::holds_at(s, i, header_bytes(h)),
    ensures
        header_of(s, i) == h,
{
    broadcast use crate::codec::lemma_w32_len;

    let a = crate::codec::w32(crate::codec::u32_of_i32(h.id));
    let b = crate::codec::w32(h.opcode_size);
    let c = crate::codec::w32(h.seq);
    let d = crate::codec::w32(h.n_fds);
    assert(header_bytes(h) =~= (a + b) + (c + d));
    crate::codec::lemma_holds_split(s, i, a + b, c + d);
    crate::codec::lemma_holds_split(s, i, a, b);
    crate::codec::lemma_holds_split(s, i + 8, c, d);
    crate::codec::lemma_holds_r32(s, i, crate::codec::u32_of_i32(h.id));
    crate::codec::lemma_holds_r32(s, i + 4, h.opcode_size);
    crate::codec::lemma_holds_r32(s, i + 8, h.seq);
    crate::codec::lemma_holds_r32(s, i + 12, h.n_fds);
    crate::codec::lemma_i32_roundtrip(h.id);
}

/// A framed message: a header and its payload pod.
#[derive(Debug, PartialEq)]
pub struct Message {
    pub header: Header,
    pub payload: crate::value::Value,
}

impl Message {
    /// A message whose header size is not yet filled in.
    pub fn new(id: i32, opcode: u32, seq: u32, payload: crate::value::Value) -> (r: Message)
        requires
            opcode < 256,
        ensures
            r.header.id == id,
            r.header.seq == seq,
            r.header.n_fds == 0,
            r.header.spec_opcode() == opcode,
            r.header.spec_size() == 0,
            r.payload == payload,
    {
        Message { header: Header::incomplete(id, opcode, seq), payload }
    }
}

// ---------------------------------------------------------------------------
// Length-delimited stream decoding
// ---------------------------------------------------------------------------

/// The whole length of the frame the buffered bytes begin with: the
/// 16-byte header plus the payload size in the low 24 bits of word 2.
pub open spec fn frame_len(s: Seq<u8>) -> int {
    16 + unpack_size(crate::codec::r32(s, 4))
}

/// Whether a complete frame is buffered.
pub open spec fn has_frame(s: Seq<u8>) -> bool {
    s.len() >= 16 && s.len() >= frame_len(s)
}

/// A buffer over a byte stream that cuts it into length-delimited frames.
/// Short reads stay buffered; nothing is decoded until a whole frame
/// (header and body) is present.
#[derive(Debug)]
pub struct FrameBuffer {
    buf: Vec<u8>,
}

impl View for FrameBuffer {
    type V = Seq<u8>;

    closed spec fn view(&self) -> Seq<u8> {
        self.buf@
    }
}

impl FrameBuffer {
    /// An empty stream buffer.
    pub fn new() -> (r: FrameBuffer)
        ensures
            r@ == Seq::<u8>::empty(),
    {
        let r = FrameBuffer { buf: Vec::new() };
        proof {
            assert(r@ =~= Seq::<u8>::empty());
        }
        r
    }

    /// Appends bytes read from the socket.
    pub fn push_bytes(&mut self, data: &Vec<u8>)
        ensures
            final(self)@ == old(self)@ + data@,
    {
        let mut c = vstd::slice::slice_to_vec(data.as_slice());
        self.buf.append(&mut c);
    }

    /// Cuts the leading frame off the buffer, if one is complete.
    pub fn try_frame(&mut self) -> (r: Option<Vec<u8>>)
        ensures
            match r {
                Some(f) => has_frame(old(self)@) && f@ == old(self)@.take(frame_len(old(self)@))
                    && final(self)@ == old(self)@.skip(frame_len(old(self)@)) && f@.len() >= 16,
                None => !has_frame(old(self)@) && final(self)@ == old(self)@,
            },
    {
        if self.buf.len() < 16 {
            return Option::None;
        }
        let w = crate::deserialize::read_u32(&self.buf, 4);
        assert(w & 0xff_ffff < 0x100_0000) by (bit_vector);
        let size = (w & 0xff_ffff) as usize;
        assert(size == unpack_size(crate::codec::r32(self.buf@, 4)));
        let total = 16 + size;
        if self.buf.len() < total {
            return Option::None;
        }
        let f = vstd::slice::slice_to_vec(
            vstd::slice::slice_subrange(self.buf.as_slice(), 0, total),
        );
        let rest = vstd::slice::slice_to_vec(
            vstd::slice::slice_subrange(self.buf.as_slice(), total, self.buf.len()),
        );
        self.buf = rest;
        proof {
            assert(f@ =~= old(self)@.take(frame_len(old(self)@)));
            assert(self@ =~= old(self)@.skip(frame_len(old(self)@)));
        }
        Option::Some(f)
    }
}

// ---------------------------------------------------------------------------
// The writer
// ---------------------------------------------------------------------------

/// Counts the Fd-typed pods of a payload, for the header's `n_fds`
/// word.
#[verifier::rlimit(100)]
pub fn count_fds(v: &crate::value::Value) -> (r: u32)
    requires
        crate::codec::pod_fd_count(v@) <= 0xffff_ffff,
    ensures
        r == crate::codec::pod_fd_count(v@),
    decreases *v,
{
    match v {
        crate::value::Value::Fd(_) => 1,
        crate::value::Value::Struct(children) => {
            let ghost views = crate::value::pod_views(children@);
            proof {
                crate::value::lemma_pod_views(children@);
                crate::codec::lemma_fd_count_pods_bound(views);
            }
            let mut acc: u32 = 0;
            let mut i: usize = 0;
            assert(views.take(0int) =~= Seq::<crate::value::PodView>::empty());
            while i < children.len()
                invariant
                    i <= children.len(),
                    *v == crate::value::Value::Struct(*children),
                    views == crate::value::pod_views(children@),
                    views.len() == children@.len(),
                    forall|j: int|
                        0 <= j < children@.len() ==> views[j] == crate::value::pod_view(
                            #[trigger] children@[j],
                        ),
                    crate::codec::fd_count_pods(views) <= 0xffff_ffff,
                    acc == crate::codec::fd_count_pods(views.take(i as int)),
                decreases children.len() - i,
            {
                proof {
                    assert(decreases_to!(*v => (*v)->Struct_0));
                    assert(decreases_to!(*children => children@[i as int]));
                    assert(views =~= views.take(i as int) + views.skip(i as int));
                    crate::codec::lemma_fd_count_pods_concat(
                        views.take(i as int),
                        views.skip(i as int),
                    );
                    assert(views.skip(i as int) =~= seq![views[i as int]] + views.skip(i + 1));
                    crate::codec::lemma_fd_count_pods_concat(
                        seq![views[i as int]],
                        views.skip(i + 1),
                    );
                    assert(crate::codec::fd_count_pods(seq![views[i as int]])
                        == crate::codec::pod_fd_count(views[i as int])) by {
                        assert(seq![views[i as int]].drop_first()
                            =~= Seq::<crate::value::PodView>::empty());
                        assert(crate::codec::fd_count_pods(Seq::<crate::value::PodView>::empty())
                            == 0);
                    }
                    crate::codec::lemma_fd_count_bound(views[i as int]);
                    crate::codec::lemma_fd_count_pods_bound(views.skip(i + 1));
                    assert(views.take(i + 1) =~= views.take(i as int) + seq![views[i as int]]);
                    crate::codec::lemma_fd_count_pods_concat(
                        views.take(i as int),
                        seq![views[i as int]],
                    );
                }
                let c = count_fds(&children[i]);
                acc = acc + c;
                i = i + 1;
            }
            assert(views.take(children@.len() as int) =~= views);
            acc
        },
        crate::value::Value::Object(o) => {
            let ghost pviews = crate::value::property_views(o.properties@);
            proof {
                crate::value::lemma_property_views(o.properties@);
                crate::codec::lemma_fd_count_props_bound(pviews);
            }
            let mut acc: u32 = 0;
            let mut i: usize = 0;
            assert(pviews.take(0int) =~= Seq::<crate::value::PropertyView>::empty());
            while i < o.properties.len()
                invariant
                    i <= o.properties.len(),
                    *v == crate::value::Value::Object(*o),
                    pviews == crate::value::property_views(o.properties@),
                    pviews.len() == o.properties@.len(),
                    forall|j: int|
                        0 <= j < o.properties@.len() ==> pviews[j] == (crate::value::PropertyView {
                            key: o.properties@[j].key,
                            flags: o.properties@[j].flags,
                            value: crate::value::pod_view(#[trigger] o.properties@[j].value),
                        }),
                    crate::codec::fd_count_props(pviews) <= 0xffff_ffff,
                    acc == crate::codec::fd_count_props(pviews.take(i as int)),
                decreases o.properties.len() - i,
            {
                proof {
                    assert(decreases_to!(*v => (*v)->Object_0));
                    assert(decreases_to!(*o => o.properties));
                    assert(decreases_to!(o.properties => o.properties@[i as int]));
                    assert(decreases_to!(o.properties@[i as int] => o.properties@[
                        i as int].value));
                    assert(pviews =~= pviews.take(i as int) + pviews.skip(i as int));
                    crate::codec::lemma_fd_count_props_concat(
                        pviews.take(i as int),
                        pviews.skip(i as int),
                    );
                    assert(pviews.skip(i as int) =~= seq![pviews[i as int]] + pviews.skip(i + 1));
                    crate::codec::lemma_fd_count_props_concat(
                        seq![pviews[i as int]],
                        pviews.skip(i + 1),
                    );
                    assert(crate::codec::fd_count_props(seq![pviews[i as int]])
                        == crate::codec::pod_fd_count(pviews[i as int].value)) by {
                        assert(seq![pviews[i as int]].drop_first()
                            =~= Seq::<crate::value::PropertyView>::empty());
                        assert(crate::codec::fd_count_props(
                            Seq::<crate::value::PropertyView>::empty(),
                        ) == 0);
                    }
                    crate::codec::lemma_fd_count_bound(pviews[i as int].value);
                    crate::codec::lemma_fd_count_props_bound(pviews.skip(i + 1));
                    assert(pviews.take(i + 1) =~= pviews.take(i as int) + seq![pviews[i as int]]);
                    crate::codec::lemma_fd_count_props_concat(
                        pviews.take(i as int),
                        seq![pviews[i as int]],
                    );
                }
                let c = count_fds(&o.properties[i].value);
                acc = acc + c;
                i = i + 1;
            }
            assert(pviews.take(o.properties@.len() as int) =~= pviews);
            acc
        },
        _ => 0,
    }
}

/// The bytes a method call puts on the wire: a header carrying the
/// payload's size and the sequence number, then the payload's encoding.
pub open spec fn method_frame(id: i32, opcode: u32, seq: u32, payload: crate::value::PodView) -> Seq<
    u8,
> {
    header_bytes(
        Header {
            id,
            opcode_size: pack_opcode_size(opcode, crate::codec::enc_pod(payload).len() as u32),
            seq,
            n_fds: crate::codec::pod_fd_count(payload) as u32,
        },
    ) + crate::codec::enc_pod(payload)
}

/// A payload the writer can frame: well-formed, and small enough for
/// the header's 24-bit size field.
pub open spec fn frameable(payload: crate::value::PodView) -> bool {
    crate::codec::pod_wf(payload) && crate::codec::enc_pod(payload).len() < 0x100_0000
}

/// The write half of a connection: the monotonic sequence counter. The
/// caller owns the socket and writes each returned frame atomically
/// under its lock.
#[derive(Debug, PartialEq, Eq, Structural)]
pub struct PipewireWriter {
    pub seq: u32,
}

impl PipewireWriter {
    /// A writer whose next method carries sequence number 0.
    pub fn new() -> (r: PipewireWriter)
        ensures
            r.seq == 0,
    {
        PipewireWriter { seq: 0 }
    }

    /// Frames one method call: serializes the payload, stamps the header
    /// with the current sequence number, and increments the counter. Two
    /// calls in a row thus carry strictly increasing sequence numbers.
    pub fn call_method(&mut self, id: i32, opcode: u32, payload: &crate::value::Value) -> (r:
        Result<Vec<u8>, crate::error::PodError>)
        requires
            opcode < 256,
            old(self).seq < 0xffff_ffff,
        ensures
            match r {
                Ok(frame) => frameable(payload@) && frame@ == method_frame(
                    id,
                    opcode,
                    old(self).seq,
                    payload@,
                ) && final(self).seq == old(self).seq + 1,
                Err(_) => !frameable(payload@) && *final(self) == *old(self),
            },
            frameable(payload@) ==> r is Ok,
    {
        let body = match crate::serialize::serialize_pod(payload) {
            Ok(b) => b,
            Err(e) => {
                return Err(e);
            },
        };
        if body.len() >= 0x100_0000 {
            return Err(crate::error::PodError::ParseError);
        }
        proof {
            crate::codec::lemma_fd_count_bound(payload@);
        }
        let n_fds = count_fds(payload);
        let h = Header::new(id, opcode, body.len() as u32, self.seq, n_fds);
        let mut frame: Vec<u8> = Vec::new();
        write_header(&mut frame, &h);
        let mut b = body;
        frame.append(&mut b);
        self.seq = self.seq + 1;
        assert(frame@ =~= method_frame(id, opcode, old(self).seq, payload@));
        Ok(frame)
    }
}

/// Frames decoded from consecutive writer states carry strictly
/// increasing sequence numbers on the wire.
pub proof fn lemma_seq_strictly_increasing(
    id1: i32,
    op1: u32,
    seq1: u32,
    p1: crate::value::PodView,
    id2: i32,
    op2: u32,
    seq2: u32,
    p2: crate::value::PodView,
)
    requires
        seq1 < seq2,
    ensures
        header_of(method_frame(id1, op1, seq1, p1), 0).seq < header_of(
            method_frame(id2, op2, seq2, p2),
            0,
        ).seq,
{
    broadcast use crate::codec::lemma_w32_len;

    let h1 = Header {
        id: id1,
        opcode_size: pack_opcode_size(op1, crate::codec::enc_pod(p1).len() as u32),
        seq: seq1,
        n_fds: crate::codec::pod_fd_count(p1) as u32,
    };
    let h2 = Header {
        id: id2,
        opcode_size: pack_opcode_size(op2, crate::codec::enc_pod(p2).len() as u32),
        seq: seq2,
        n_fds: crate::codec::pod_fd_count(p2) as u32,
    };
    let f1 = method_frame(id1, op1, seq1, p1);
    let f2 = method_frame(id2, op2, seq2, p2);
    assert(f1.subrange(0, 16) =~= header_bytes(h1));
    assert(f2.subrange(0, 16) =~= header_bytes(h2));
    lemma_header_round_trip(h1, f1, 0);
    lemma_header_round_trip(h2, f2, 0);
}

// ---------------------------------------------------------------------------
// The proxy registry
// ---------------------------------------------------------------------------

/// The kind of object a proxy id stands for.
#[derive(Debug, Copy, Clone, PartialEq, Eq, Structural)]
pub enum ProxyKind {
    Core,
    Client,
    Registry,
    Device,
    Node,
    Port,
    Link,
    Module,
    Factory,
    Metadata,
    Profiler,
    ClientNode,
}

/// The collection of proxies currently active on a connection: the id
/// counter, whether the two implicit proxies still listen, and one id
/// table per interface kind, so that dispatch stays type-safe.
#[derive(Debug, PartialEq, Eq)]
pub struct Proxies {
    /// Incremented each time a new proxy id is allocated; ids are never
    /// reused within a connection's lifetime.
    pub id_counter: i32,
    pub core_present: bool,
    pub client_present: bool,
    pub registry_ids: Vec<i32>,
    pub device_ids: Vec<i32>,
    pub node_ids: Vec<i32>,
    pub port_ids: Vec<i32>,
    pub link_ids: Vec<i32>,
    pub module_ids: Vec<i32>,
    pub factory_ids: Vec<i32>,
    pub metadata_ids: Vec<i32>,
    pub profiler_ids: Vec<i32>,
    pub client_node_ids: Vec<i32>,
}

impl Proxies {
    /// The id table of one allocatable kind (empty for Core and Client,
    /// whose ids are fixed).
    pub open spec fn sub_ids(self, k: ProxyKind) -> Seq<i32> {
        match k {
            ProxyKind::Core => Seq::empty(),
            ProxyKind::Client => Seq::empty(),
            ProxyKind::Registry => self.registry_ids@,
            ProxyKind::Device => self.device_ids@,
            ProxyKind::Node => self.node_ids@,
            ProxyKind::Port => self.port_ids@,
            ProxyKind::Link => self.link_ids@,
            ProxyKind::Module => self.module_ids@,
            ProxyKind::Factory => self.factory_ids@,
            ProxyKind::Metadata => self.metadata_ids@,
            ProxyKind::Profiler => self.profiler_ids@,
            ProxyKind::ClientNode => self.client_node_ids@,
        }
    }

    /// Whether `id` stands in the table of kind `k`.
    pub open spec fn in_sub(self, k: ProxyKind, id: i32) -> bool {
        self.sub_ids(k).contains(id)
    }

    /// Every allocated id is at least 2, every table holds an id at most
    /// once, and no id stands in two tables: every inbound id resolves to
    /// at most one kind.
    pub open spec fn wf(self) -> bool {
        &&& forall|k: ProxyKind, id: i32| #[trigger] self.in_sub(k, id) ==> id >= 2
        &&& forall|k: ProxyKind, i: int, j: int|
            0 <= i < self.sub_ids(k).len() && 0 <= j < self.sub_ids(k).len() && #[trigger] self
                .sub_ids(k)[i] == #[trigger] self.sub_ids(k)[j] ==> i == j
        &&& forall|ka: ProxyKind, kb: ProxyKind, id: i32|
            #[trigger] self.in_sub(ka, id) && #[trigger] self.in_sub(kb, id) ==> ka == kb
    }

    /// The kind the id tables resolve `id` to, if any.
    pub open spec fn route_sub(self, id: i32) -> Option<ProxyKind> {
        if self.in_sub(ProxyKind::Registry, id) {
            Some(ProxyKind::Registry)
        } else if self.in_sub(ProxyKind::Device, id) {
            Some(ProxyKind::Device)
        } else if self.in_sub(ProxyKind::Node, id) {
            Some(ProxyKind::Node)
        } else if self.in_sub(ProxyKind::Port, id) {
            Some(ProxyKind::Port)
        } else if self.in_sub(ProxyKind::Link, id) {
            Some(ProxyKind::Link)
        } else if self.in_sub(ProxyKind::Module, id) {
            Some(ProxyKind::Module)
        } else if self.in_sub(ProxyKind::Factory, id) {
            Some(ProxyKind::Factory)
        } else if self.in_sub(ProxyKind::Metadata, id) {
            Some(ProxyKind::Metadata)
        } else if self.in_sub(ProxyKind::Profiler, id) {
            Some(ProxyKind::Profiler)
        } else if self.in_sub(ProxyKind::ClientNode, id) {
            Some(ProxyKind::ClientNode)
        } else {
            None
        }
    }

    /// Where a `Done` event with this echoed id fans out: the client
    /// mailbox for id 1, else whichever table holds the id.
    pub open spec fn fanout_kind(self, id: i32) -> Option<ProxyKind> {
        if id == crate::client::CLIENT_ID && self.client_present {
            Some(ProxyKind::Client)
        } else {
            self.route_sub(id)
        }
    }

    /// A registry with no proxies: the counter starts past the two
    /// implicit ids (Core 0, Client 1).
    pub fn new() -> (r: Proxies)
        ensures
            r.id_counter == 1,
            !r.core_present,
            !r.client_present,
            forall|k: ProxyKind, id: i32| !r.in_sub(k, id),
            r.wf(),
    {
        let r = Proxies {
            id_counter: 1,
            core_present: false,
            client_present: false,
            registry_ids: Vec::new(),
            device_ids: Vec::new(),
            node_ids: Vec::new(),
            port_ids: Vec::new(),
            link_ids: Vec::new(),
            module_ids: Vec::new(),
            factory_ids: Vec::new(),
            metadata_ids: Vec::new(),
            profiler_ids: Vec::new(),
            client_node_ids: Vec::new(),
        };
        proof {
            assert forall|k: ProxyKind, id: i32| !r.in_sub(k, id) by {
                assert(r.sub_ids(k).len() == 0) by {
                    match k {
                        _ => {},
                    }
                }
            }
        }
        r
    }

    /// Allocates the next free proxy id.
    pub fn alloc_id(&mut self) -> (id: i32)
        requires
            old(self).id_counter < 0x7fff_ffff,
        ensures
            final(self).id_counter == old(self).id_counter + 1,
            id == final(self).id_counter,
            final(self).core_present == old(self).core_present,
            final(self).client_present == old(self).client_present,
            forall|k: ProxyKind| final(self).sub_ids(k) == old(self).sub_ids(k),
    {
        self.id_counter = self.id_counter + 1;
        self.id_counter
    }

    /// Whether an id stands in the table of kind `k` (false for the fixed
    /// kinds Core and Client).
    pub fn contains(&self, k: ProxyKind, id: i32) -> (r: bool)
        ensures
            r == self.in_sub(k, id),
    {
        match k {
            ProxyKind::Core => false,
            ProxyKind::Client => false,
            ProxyKind::Registry => contains_id(&self.registry_ids, id),
            ProxyKind::Device => contains_id(&self.device_ids, id),
            ProxyKind::Node => contains_id(&self.node_ids, id),
            ProxyKind::Port => contains_id(&self.port_ids, id),
            ProxyKind::Link => contains_id(&self.link_ids, id),
            ProxyKind::Module => contains_id(&self.module_ids, id),
            ProxyKind::Factory => contains_id(&self.factory_ids, id),
            ProxyKind::Metadata => contains_id(&self.metadata_ids, id),
            ProxyKind::Profiler => contains_id(&self.profiler_ids, id),
            ProxyKind::ClientNode => contains_id(&self.client_node_ids, id),
        }
    }

    /// Inserts `id` into the table of kind `k`. Returns false, changing
    /// nothing, if the id is below 2, already present somewhere, or the
    /// kind is one of the two fixed ones.
    pub fn register(&mut self, k: ProxyKind, id: i32) -> (r: bool)
        requires
            old(self).wf(),
        ensures
            final(self).wf(),
            final(self).id_counter == old(self).id_counter,
            final(self).core_present == old(self).core_present,
            final(self).client_present == old(self).client_present,
            r ==> id >= 2 && (forall|kb: ProxyKind| !old(self).in_sub(kb, id)) && (forall|
                kb: ProxyKind,
                id2: i32,
            |
                final(self).in_sub(kb, id2) == (old(self).in_sub(kb, id2) || (kb == k && id2
                    == id))),
            !r ==> *final(self) == *old(self) && (id < 2 || k == ProxyKind::Core || k
                == ProxyKind::Client || (exists|kb: ProxyKind| old(self).in_sub(kb, id))),
    {
        if id < 2 {
            return false;
        }
        match k {
            ProxyKind::Core => false,
            ProxyKind::Client => false,
            _ => {
                if self.lookup_any(id) {
                    return false;
                }
                let ghost prev = *self;
                match k {
                    ProxyKind::Registry => self.registry_ids.push(id),
                    ProxyKind::Device => self.device_ids.push(id),
                    ProxyKind::Node => self.node_ids.push(id),
                    ProxyKind::Port => self.port_ids.push(id),
                    ProxyKind::Link => self.link_ids.push(id),
                    ProxyKind::Module => self.module_ids.push(id),
                    ProxyKind::Factory => self.factory_ids.push(id),
                    ProxyKind::Metadata => self.metadata_ids.push(id),
                    ProxyKind::Profiler => self.profiler_ids.push(id),
                    ProxyKind::ClientNode => self.client_node_ids.push(id),
                    _ => {},
                }
                proof {
                    assert(self.sub_ids(k) == prev.sub_ids(k).push(id));
                    assert forall|kb: ProxyKind| kb != k implies self.sub_ids(kb) == prev.sub_ids(
                        kb,
                    ) by {}
                    assert forall|kb: ProxyKind, id2: i32|
                        self.in_sub(kb, id2) == (prev.in_sub(kb, id2) || (kb == k && id2
                            == id)) by {
                        if kb == k {
                            let sq = prev.sub_ids(k);
                            assert(self.sub_ids(k) == sq.push(id));
                            if prev.in_sub(kb, id2) {
                                let wi = choose|wi: int|
                                    0 <= wi < sq.len() && sq[wi] == id2;
                                assert(sq.push(id)[wi] == id2);
                                assert(self.in_sub(kb, id2));
                            }
                            if id2 == id {
                                assert(sq.push(id)[sq.len() as int] == id);
                                assert(self.in_sub(kb, id2));
                            }
                            if self.in_sub(kb, id2) && id2 != id {
                                let wi = choose|wi: int|
                                    0 <= wi < sq.push(id).len() && sq.push(id)[wi] == id2;
                                assert(wi < sq.len());
                                assert(sq[wi] == id2);
                                assert(prev.in_sub(kb, id2));
                            }
                        } else {
                            assert(self.sub_ids(kb) == prev.sub_ids(kb));
                        }
                    }
                    assert(self.wf()) by {
                        assert forall|kb: ProxyKind, id2: i32| #[trigger]
                            self.in_sub(kb, id2) implies id2 >= 2 by {
                            if !(kb == k && id2 == id) {
                                assert(prev.in_sub(kb, id2));
                            }
                        }
                        assert forall|ka: ProxyKind, kb: ProxyKind, id2: i32|
                            #[trigger] self.in_sub(ka, id2) && #[trigger] self.in_sub(kb, id2)
                            implies ka == kb by {
                            if prev.in_sub(ka, id2) && prev.in_sub(kb, id2) {
                            } else if ka == k && id2 == id && prev.in_sub(kb, id2) {
                                assert(false);
                            } else if kb == k && id2 == id && prev.in_sub(ka, id2) {
                                assert(false);
                            }
                        }
                        assert forall|kb: ProxyKind, i: int, j: int|
                            0 <= i < self.sub_ids(kb).len() && 0 <= j < self.sub_ids(kb).len()
                                && #[trigger] self.sub_ids(kb)[i] == #[trigger] self.sub_ids(kb)[j]
                            implies i == j by {
                            if kb == k {
                                let sq = prev.sub_ids(k);
                                assert(self.sub_ids(kb) == sq.push(id));
                                if i < sq.len() && j < sq.len() {
                                    assert(sq[i] == sq[j]);
                                } else if i < sq.len() {
                                    assert(sq[i] == id);
                                    assert(prev.in_sub(k, id));
                                    assert(false);
                                } else if j < sq.len() {
                                    assert(sq[j] == id);
                                    assert(prev.in_sub(k, id));
                                    assert(false);
                                }
                            } else {
                                assert(self.sub_ids(kb) == prev.sub_ids(kb));
                            }
                        }
                    }
                }
                true
            },
        }
    }

    /// Whether any table holds `id`.
    fn lookup_any(&self, id: i32) -> (r: bool)
        ensures
            r == exists|kb: ProxyKind| #[trigger] self.in_sub(kb, id),
    {
        let r = contains_id(&self.registry_ids, id) || contains_id(&self.device_ids, id)
            || contains_id(&self.node_ids, id)
            || contains_id(&self.port_ids, id) || contains_id(&self.link_ids, id) || contains_id(
            &self.module_ids,
            id,
        ) || contains_id(&self.factory_ids, id) || contains_id(&self.metadata_ids, id)
            || contains_id(&self.profiler_ids, id) || contains_id(&self.client_node_ids, id);
        proof {
            if r {
                assert(exists|kb: ProxyKind| #[trigger] self.in_sub(kb, id)) by {
                    if self.in_sub(ProxyKind::Registry, id) {
                    } else if self.in_sub(ProxyKind::Device, id) {
                    } else if self.in_sub(ProxyKind::Node, id) {
                    } else if self.in_sub(ProxyKind::Port, id) {
                    } else if self.in_sub(ProxyKind::Link, id) {
                    } else if self.in_sub(ProxyKind::Module, id) {
                    } else if self.in_sub(ProxyKind::Factory, id) {
                    } else if self.in_sub(ProxyKind::Metadata, id) {
                    } else if self.in_sub(ProxyKind::Profiler, id) {
                    } else {
                        assert(self.in_sub(ProxyKind::ClientNode, id));
                    }
                }
            } else {
                assert forall|kb: ProxyKind| !(#[trigger] self.in_sub(kb, id)) by {
                    match kb {
                        _ => {},
                    }
                }
            }
        }
        r
    }

    /// Removes `id` from the table of kind `k` (a mailbox went away).
    /// Returns whether it was present.
    pub fn remove(&mut self, k: ProxyKind, id: i32) -> (r: bool)
        requires
            old(self).wf(),
        ensures
            final(self).wf(),
            final(self).id_counter == old(self).id_counter,
            final(self).core_present == old(self).core_present,
            final(self).client_present == old(self).client_present,
            r == old(self).in_sub(k, id),
            forall|kb: ProxyKind, id2: i32|
                final(self).in_sub(kb, id2) == (old(self).in_sub(kb, id2) && !(kb == k && id2
                    == id)),
    {
        let ghost prev = *self;
        proof {
            assert forall|i: int, j: int|
                0 <= i < old(self).registry_ids@.len() && 0 <= j < old(self).registry_ids@.len() && old(
                    self,
                ).registry_ids@[i] == old(self).registry_ids@[j] implies i == j by {
                assert(old(self).sub_ids(ProxyKind::Registry)[i] == old(self).sub_ids(
                    ProxyKind::Registry,
                )[j]);
            }
            assert forall|i: int, j: int|
                0 <= i < old(self).device_ids@.len() && 0 <= j < old(self).device_ids@.len() && old(
                    self,
                ).device_ids@[i] == old(self).device_ids@[j] implies i == j by {
                assert(old(self).sub_ids(ProxyKind::Device)[i] == old(self).sub_ids(
                    ProxyKind::Device,
                )[j]);
            }
            assert forall|i: int, j: int|
                0 <= i < old(self).node_ids@.len() && 0 <= j < old(self).node_ids@.len() && old(
                    self,
                ).node_ids@[i] == old(self).node_ids@[j] implies i == j by {
                assert(old(self).sub_ids(ProxyKind::Node)[i] == old(self).sub_ids(
                    ProxyKind::Node,
                )[j]);
            }
            assert forall|i: int, j: int|
                0 <= i < old(self).port_ids@.len() && 0 <= j < old(self).port_ids@.len() && old(
                    self,
                ).port_ids@[i] == old(self).port_ids@[j] implies i == j by {
                assert(old(self).sub_ids(ProxyKind::Port)[i] == old(self).sub_ids(
                    ProxyKind::Port,
                )[j]);
            }
            assert forall|i: int, j: int|
                0 <= i < old(self).link_ids@.len() && 0 <= j < old(self).link_ids@.len() && old(
                    self,
                ).link_ids@[i] == old(self).link_ids@[j] implies i == j by {
                assert(old(self).sub_ids(ProxyKind::Link)[i] == old(self).sub_ids(
                    ProxyKind::Link,
                )[j]);
            }
            assert forall|i: int, j: int|
                0 <= i < old(self).module_ids@.len() && 0 <= j < old(self).module_ids@.len() && old(
                    self,
                ).module_ids@[i] == old(self).module_ids@[j] implies i == j by {
                assert(old(self).sub_ids(ProxyKind::Module)[i] == old(self).sub_ids(
                    ProxyKind::Module,
                )[j]);
            }
            assert forall|i: int, j: int|
                0 <= i < old(self).factory_ids@.len() && 0 <= j < old(self).factory_ids@.len() && old(
                    self,
                ).factory_ids@[i] == old(self).factory_ids@[j] implies i == j by {
                assert(old(self).sub_ids(ProxyKind::Factory)[i] == old(self).sub_ids(
                    ProxyKind::Factory,
                )[j]);
            }
            assert forall|i: int, j: int|
                0 <= i < old(self).metadata_ids@.len() && 0 <= j < old(self).metadata_ids@.len() && old(
                    self,
                ).metadata_ids@[i] == old(self).metadata_ids@[j] implies i == j by {
                assert(old(self).sub_ids(ProxyKind::Metadata)[i] == old(self).sub_ids(
                    ProxyKind::Metadata,
                )[j]);
            }
            assert forall|i: int, j: int|
                0 <= i < old(self).profiler_ids@.len() && 0 <= j < old(self).profiler_ids@.len() && old(
                    self,
                ).profiler_ids@[i] == old(self).profiler_ids@[j] implies i == j by {
                assert(old(self).sub_ids(ProxyKind::Profiler)[i] == old(self).sub_ids(
                    ProxyKind::Profiler,
                )[j]);
            }
            assert forall|i: int, j: int|
                0 <= i < old(self).client_node_ids@.len() && 0 <= j < old(self).client_node_ids@.len() && old(
                    self,
                ).client_node_ids@[i] == old(self).client_node_ids@[j] implies i == j by {
                assert(old(self).sub_ids(ProxyKind::ClientNode)[i] == old(self).sub_ids(
                    ProxyKind::ClientNode,
                )[j]);
            }
        }
        let r = match k {
            ProxyKind::Core => false,
            ProxyKind::Client => false,
            ProxyKind::Registry => remove_id(&mut self.registry_ids, id),
            ProxyKind::Device => remove_id(&mut self.device_ids, id),
            ProxyKind::Node => remove_id(&mut self.node_ids, id),
            ProxyKind::Port => remove_id(&mut self.port_ids, id),
            ProxyKind::Link => remove_id(&mut self.link_ids, id),
            ProxyKind::Module => remove_id(&mut self.module_ids, id),
            ProxyKind::Factory => remove_id(&mut self.factory_ids, id),
            ProxyKind::Metadata => remove_id(&mut self.metadata_ids, id),
            ProxyKind::Profiler => remove_id(&mut self.profiler_ids, id),
            ProxyKind::ClientNode => remove_id(&mut self.client_node_ids, id),
        };
        proof {
            assert forall|i: int, j: int|
                0 <= i < self.sub_ids(k).len() && 0 <= j < self.sub_ids(k).len() && #[trigger] self
                    .sub_ids(k)[i] == #[trigger] self.sub_ids(k)[j] implies i == j by {
                match k {
                    ProxyKind::Registry => {
                        assert(self.sub_ids(k)[i] == self.registry_ids@[i] && self.sub_ids(k)[j]
                            == self.registry_ids@[j]);
                    },
                    ProxyKind::Device => {
                        assert(self.sub_ids(k)[i] == self.device_ids@[i] && self.sub_ids(k)[j]
                            == self.device_ids@[j]);
                    },
                    ProxyKind::Node => {
                        assert(self.sub_ids(k)[i] == self.node_ids@[i] && self.sub_ids(k)[j]
                            == self.node_ids@[j]);
                    },
                    ProxyKind::Port => {
                        assert(self.sub_ids(k)[i] == self.port_ids@[i] && self.sub_ids(k)[j]
                            == self.port_ids@[j]);
                    },
                    ProxyKind::Link => {
                        assert(self.sub_ids(k)[i] == self.link_ids@[i] && self.sub_ids(k)[j]
                            == self.link_ids@[j]);
                    },
                    ProxyKind::Module => {
                        assert(self.sub_ids(k)[i] == self.module_ids@[i] && self.sub_ids(k)[j]
                            == self.module_ids@[j]);
                    },
                    ProxyKind::Factory => {
                        assert(self.sub_ids(k)[i] == self.factory_ids@[i] && self.sub_ids(k)[j]
                            == self.factory_ids@[j]);
                    },
                    ProxyKind::Metadata => {
                        assert(self.sub_ids(k)[i] == self.metadata_ids@[i] && self.sub_ids(k)[j]
                            == self.metadata_ids@[j]);
                    },
                    ProxyKind::Profiler => {
                        assert(self.sub_ids(k)[i] == self.profiler_ids@[i] && self.sub_ids(k)[j]
                            == self.profiler_ids@[j]);
                    },
                    ProxyKind::ClientNode => {
                        assert(self.sub_ids(k)[i] == self.client_node_ids@[i] && self.sub_ids(k)[j]
                            == self.client_node_ids@[j]);
                    },
                    _ => {},
                }
            }
            assert forall|kb: ProxyKind| kb != k implies self.sub_ids(kb) == prev.sub_ids(kb) by {}
            assert forall|kb: ProxyKind, id2: i32|
                self.in_sub(kb, id2) == (prev.in_sub(kb, id2) && !(kb == k && id2 == id)) by {
                if kb != k {
                    assert(self.sub_ids(kb) == prev.sub_ids(kb));
                }
            }
            assert(self.wf()) by {
                assert forall|kb: ProxyKind, i: int, j: int|
                    0 <= i < self.sub_ids(kb).len() && 0 <= j < self.sub_ids(kb).len()
                        && #[trigger] self.sub_ids(kb)[i] == #[trigger] self.sub_ids(kb)[j]
                    implies i == j by {
                    if kb != k {
                        assert(self.sub_ids(kb) == prev.sub_ids(kb));
                    }
                }
                assert forall|kb: ProxyKind, id2: i32| #[trigger]
                    self.in_sub(kb, id2) implies id2 >= 2 by {
                    assert(prev.in_sub(kb, id2));
                }
                assert forall|ka: ProxyKind, kb: ProxyKind, id2: i32|
                    #[trigger] self.in_sub(ka, id2) && #[trigger] self.in_sub(kb, id2)
                    implies ka == kb by {
                    assert(prev.in_sub(ka, id2) && prev.in_sub(kb, id2));
                }
            }
        }
        r
    }
}

/// Whether a vector of ids holds `id`.
fn contains_id(v: &Vec<i32>, id: i32) -> (r: bool)
    ensures
        r == v@.contains(id),
{
    let mut i: usize = 0;
    while i < v.len()
        invariant
            i <= v@.len(),
            forall|j: int| 0 <= j < i ==> v@[j] != id,
        decreases v@.len() - i,
    {
        if v[i] == id {
            return true;
        }
        i = i + 1;
    }
    false
}

/// Removes every occurrence of `id`; under the registry's invariant
/// there is at most one. Keeps the order of the rest and removes nothing
/// else.
fn remove_id(v: &mut Vec<i32>, id: i32) -> (r: bool)
    requires
        forall|i: int, j: int|
            0 <= i < old(v)@.len() && 0 <= j < old(v)@.len() && old(v)@[i] == old(v)@[j] ==> i == j,
    ensures
        r == old(v)@.contains(id),
        forall|x: i32| final(v)@.contains(x) == (old(v)@.contains(x) && x != id),
        forall|i: int, j: int|
            0 <= i < final(v)@.len() && 0 <= j < final(v)@.len() && final(v)@[i] == final(v)@[j]
                ==> i == j,
{
    let mut i: usize = 0;
    while i < v.len()
        invariant
            i <= v@.len(),
            v@ == old(v)@,
            forall|j: int| 0 <= j < i ==> v@[j] != id,
            forall|a: int, b: int|
                0 <= a < v@.len() && 0 <= b < v@.len() && v@[a] == v@[b] ==> a == b,
        decreases v@.len() - i,
    {
        if v[i] == id {
            let ghost prev = v@;
            v.remove(i);
            proof {
                assert(v@ =~= prev.subrange(0, i as int) + prev.subrange(
                    i + 1,
                    prev.len() as int,
                ));
                assert forall|j: int| 0 <= j < v@.len() implies v@[j] == (if j < i {
                    prev[j]
                } else {
                    prev[j + 1]
                }) by {}
                assert forall|x: i32| v@.contains(x) == (prev.contains(x) && x != id) by {
                    if v@.contains(x) {
                        let wi = choose|wi: int| 0 <= wi < v@.len() && v@[wi] == x;
                        if wi < i {
                            assert(prev[wi] == x);
                        } else {
                            assert(prev[wi + 1] == x);
                        }
                        assert(prev.contains(x));
                        if x == id {
                            if wi < i {
                                assert(prev[wi] == id && prev[i as int] == id);
                            } else {
                                assert(prev[wi + 1] == id && prev[i as int] == id);
                            }
                        }
                    }
                    if prev.contains(x) && x != id {
                        let wi = choose|wi: int| 0 <= wi < prev.len() && prev[wi] == x;
                        if wi < i {
                            assert(v@[wi] == x);
                        } else {
                            assert(wi != i);
                            assert(v@[wi - 1] == x);
                        }
                    }
                }
                assert(prev.contains(id));
                assert forall|a: int, b: int|
                    0 <= a < v@.len() && 0 <= b < v@.len() && v@[a] == v@[b] implies a == b by {
                    let pa: int = if a < i { a } else { a + 1 };
                    let pb: int = if b < i { b } else { b + 1 };
                    assert(prev[pa] == v@[a] && prev[pb] == v@[b]);
                }
            }
            return true;
        }
        i = i + 1;
    }
    proof {
        if v@.contains(id) {
            let wi = choose|wi: int| 0 <= wi < v@.len() && v@[wi] == id;
            assert(false);
        }
    }
    false
}

// ---------------------------------------------------------------------------
// Event routing
// ---------------------------------------------------------------------------

/// A connection-level event from one of the first interfaces.
#[derive(Debug, PartialEq)]
pub enum Event {
    Core(crate::core_proxy::CoreEvent),
    Registry(crate::registry::RegistryEvent),
    Client(crate::client::ClientEvent),
}

/// One event to hand to one mailbox, in order.
#[derive(Debug, PartialEq)]
pub enum Delivery {
    Core(crate::core_proxy::CoreEvent),
    Client(crate::client::ClientEvent),
    Registry(i32, crate::registry::RegistryEvent),
    Device(i32, crate::device::DeviceEvent),
    Node(i32, crate::node::NodeEvent),
    Port(i32, crate::port::PortEvent),
    Link(i32, crate::link::LinkEvent),
    Module(i32, crate::module::ModuleEvent),
    Factory(i32, crate::factory::FactoryEvent),
    Metadata(i32, crate::metadata::MetadataEvent),
    Profiler(i32, crate::profiler::ProfilerEvent),
    ClientNode(i32, crate::client_node::ClientNodeEvent),
}

impl Proxies {
    /// The kind an inbound id resolves to: the two reserved ids, else
    /// whichever table holds it.
    pub open spec fn route(self, id: i32) -> Option<ProxyKind> {
        if id == crate::core_proxy::CORE_ID {
            Some(ProxyKind::Core)
        } else if id == crate::client::CLIENT_ID {
            Some(ProxyKind::Client)
        } else {
            self.route_sub(id)
        }
    }
}

/// The mailbox id a delivery goes to.
pub open spec fn delivery_id(d: Delivery) -> i32 {
    match d {
        Delivery::Core(_) => crate::core_proxy::CORE_ID,
        Delivery::Client(_) => crate::client::CLIENT_ID,
        Delivery::Registry(i, _) => i,
        Delivery::Device(i, _) => i,
        Delivery::Node(i, _) => i,
        Delivery::Port(i, _) => i,
        Delivery::Link(i, _) => i,
        Delivery::Module(i, _) => i,
        Delivery::Factory(i, _) => i,
        Delivery::Metadata(i, _) => i,
        Delivery::Profiler(i, _) => i,
        Delivery::ClientNode(i, _) => i,
    }
}

/// Whether a delivery's mailbox is registered, under the matching kind.
pub open spec fn delivery_registered(p: Proxies, d: Delivery) -> bool {
    match d {
        Delivery::Core(_) => p.core_present,
        Delivery::Client(_) => p.client_present,
        Delivery::Registry(i, _) => p.in_sub(ProxyKind::Registry, i),
        Delivery::Device(i, _) => p.in_sub(ProxyKind::Device, i),
        Delivery::Node(i, _) => p.in_sub(ProxyKind::Node, i),
        Delivery::Port(i, _) => p.in_sub(ProxyKind::Port, i),
        Delivery::Link(i, _) => p.in_sub(ProxyKind::Link, i),
        Delivery::Module(i, _) => p.in_sub(ProxyKind::Module, i),
        Delivery::Factory(i, _) => p.in_sub(ProxyKind::Factory, i),
        Delivery::Metadata(i, _) => p.in_sub(ProxyKind::Metadata, i),
        Delivery::Profiler(i, _) => p.in_sub(ProxyKind::Profiler, i),
        Delivery::ClientNode(i, _) => p.in_sub(ProxyKind::ClientNode, i),
    }
}

/// Whether `d` is the kind-specific `Done` fan-out of the core barrier `dn`.
pub open spec fn done_fanout_ok(d: Delivery, dn: crate::core_proxy::Done) -> bool {
    match d {
        Delivery::Core(_) => false,
        Delivery::Client(e) => e matches crate::client::ClientEvent::Done(x) && x == dn && dn.id
            == crate::client::CLIENT_ID,
        Delivery::Registry(i, e) => e matches crate::registry::RegistryEvent::Done(x) && x == dn
            && i == dn.id,
        Delivery::Device(i, e) => e matches crate::device::DeviceEvent::Done(x) && x == dn && i
            == dn.id,
        Delivery::Node(i, e) => e matches crate::node::NodeEvent::Done(x) && x == dn && i == dn.id,
        Delivery::Port(i, e) => e matches crate::port::PortEvent::Done(x) && x == dn && i == dn.id,
        Delivery::Link(i, e) => e matches crate::link::LinkEvent::Done(x) && x == dn && i == dn.id,
        Delivery::Module(i, e) => e matches crate::module::ModuleEvent::Done(x) && x == dn && i
            == dn.id,
        Delivery::Factory(i, e) => e matches crate::factory::FactoryEvent::Done(x) && x == dn && i
            == dn.id,
        Delivery::Metadata(i, e) => e matches crate::metadata::MetadataEvent::Done(x) && x == dn
            && i == dn.id,
        Delivery::Profiler(i, e) => e matches crate::profiler::ProfilerEvent::Done(x) && x == dn
            && i == dn.id,
        Delivery::ClientNode(i, e) => e matches crate::client_node::ClientNodeEvent::Done(x) && x
            == dn && i == dn.id,
    }
}

/// Whether a delivery is justified by the frame: either it carries the
/// event the frame's opcode and body decode to for its own mailbox, or it
/// is the `Done` fan-out of a core barrier.
pub open spec fn delivery_sound(
    p: Proxies,
    h: Header,
    fs: Seq<crate::value::PodView>,
    d: Delivery,
) -> bool {
    let fanned = h.id == crate::core_proxy::CORE_ID && exists|dn: crate::core_proxy::Done|
        #[trigger] done_fanout_ok(d, dn) && crate::core_proxy::CoreEvent::event_parses(
            h.spec_opcode(),
            fs,
            crate::core_proxy::CoreEvent::Done(dn),
        );
    match d {
        Delivery::Core(e) => h.id == crate::core_proxy::CORE_ID
            && crate::core_proxy::CoreEvent::event_parses(h.spec_opcode(), fs, e),
        Delivery::Client(e) => (h.id == crate::client::CLIENT_ID
            && crate::client::ClientEvent::event_parses(h.spec_opcode(), fs, e)) || fanned,
        Delivery::Registry(i, e) => (h.id == i && crate::registry::RegistryEvent::event_parses(
            h.spec_opcode(),
            fs,
            e,
        )) || fanned,
        Delivery::Device(i, e) => (h.id == i && crate::device::DeviceEvent::event_parses(
            h.spec_opcode(),
            fs,
            e,
        )) || fanned,
        Delivery::Node(i, e) => (h.id == i && crate::node::NodeEvent::event_parses(
            h.spec_opcode(),
            fs,
            e,
        )) || fanned,
        Delivery::Port(i, e) => (h.id == i && crate::port::PortEvent::event_parses(
            h.spec_opcode(),
            fs,
            e,
        )) || fanned,
        Delivery::Link(i, e) => (h.id == i && crate::link::LinkEvent::event_parses(
            h.spec_opcode(),
            fs,
            e,
        )) || fanned,
        Delivery::Module(i, e) => (h.id == i && crate::module::ModuleEvent::event_parses(
            h.spec_opcode(),
            fs,
            e,
        )) || fanned,
        Delivery::Factory(i, e) => (h.id == i && crate::factory::FactoryEvent::event_parses(
            h.spec_opcode(),
            fs,
            e,
        )) || fanned,
        Delivery::Metadata(i, e) => (h.id == i && crate::metadata::MetadataEvent::event_parses(
            h.spec_opcode(),
            fs,
            e,
        )) || fanned,
        Delivery::Profiler(i, e) => (h.id == i && crate::profiler::ProfilerEvent::event_parses(
            h.spec_opcode(),
            fs,
            e,
        )) || fanned,
        Delivery::ClientNode(i, e) => (h.id == i
            && crate::client_node::ClientNodeEvent::event_parses(h.spec_opcode(), fs, e))
            || fanned,
    }
}

/// The event table of a kind, as a shape test on the decoded body fields.
pub open spec fn kind_event_shape(
    k: ProxyKind,
    opcode: u32,
    fs: Seq<crate::value::PodView>,
) -> bool {
    match k {
        ProxyKind::Core => crate::core_proxy::CoreEvent::event_shape(opcode, fs),
        ProxyKind::Client => crate::client::ClientEvent::event_shape(opcode, fs),
        ProxyKind::Registry => crate::registry::RegistryEvent::event_shape(opcode, fs),
        ProxyKind::Device => crate::device::DeviceEvent::event_shape(opcode, fs),
        ProxyKind::Node => crate::node::NodeEvent::event_shape(opcode, fs),
        ProxyKind::Port => crate::port::PortEvent::event_shape(opcode, fs),
        ProxyKind::Link => crate::link::LinkEvent::event_shape(opcode, fs),
        ProxyKind::Module => crate::module::ModuleEvent::event_shape(opcode, fs),
        ProxyKind::Factory => crate::factory::FactoryEvent::event_shape(opcode, fs),
        ProxyKind::Metadata => crate::metadata::MetadataEvent::event_shape(opcode, fs),
        ProxyKind::Profiler => crate::profiler::ProfilerEvent::event_shape(opcode, fs),
        ProxyKind::ClientNode => crate::client_node::ClientNodeEvent::event_shape(opcode, fs),
    }
}

/// Why a frame produced no deliveries.
pub open spec fn dispatch_err(p: Proxies, fr: Seq<u8>, e: crate::error::ConnectionError) -> bool {
    match e {
        crate::error::ConnectionError::Unknown => fr.len() < 16,
        crate::error::ConnectionError::ProxyNotPresentError(i) => {
            &&& fr.len() >= 16
            &&& i == header_of(fr, 0).id
            &&& i != crate::core_proxy::CORE_ID
            &&& i != crate::client::CLIENT_ID
            &&& p.route_sub(i) is None
        },
        crate::error::ConnectionError::DeserializeError(pe) => {
            &&& fr.len() >= 16
            &&& (crate::codec::parse_pod(fr, 16, fr.len() as int) == Err::<
                (crate::value::PodView, int),
                crate::error::PodError,
            >(pe) || {
                let h = header_of(fr, 0);
                &&& crate::codec::parse_pod(fr, 16, fr.len() as int) matches Ok(pr)
                &&& p.route(h.id) is Some
                &&& !(pr.0 matches crate::value::PodView::Struct(fs) && kind_event_shape(
                    p.route(h.id)->Some_0,
                    h.spec_opcode(),
                    fs,
                ))
            })
        },
    }
}

/// Builds the fan-out delivery for a core barrier, if its echoed id has
/// a mailbox.
fn fanout_delivery(p: &Proxies, dn: &crate::core_proxy::Done) -> (r: Option<Delivery>)
    ensures
        match r {
            Some(d) => p.fanout_kind(dn.id) is Some && delivery_id(d) == dn.id
                && delivery_registered(*p, d) && !(d is Core) && done_fanout_ok(d, *dn),
            None => p.fanout_kind(dn.id) is None,
        },
{
    let copy = crate::core_proxy::Done { id: dn.id, seq: dn.seq };
    if dn.id == crate::client::CLIENT_ID && p.client_present {
        Some(Delivery::Client(crate::client::ClientEvent::Done(copy)))
    } else if contains_id(&p.registry_ids, dn.id) {
        Some(Delivery::Registry(dn.id, crate::registry::RegistryEvent::Done(copy)))
    } else if contains_id(&p.device_ids, dn.id) {
        Some(Delivery::Device(dn.id, crate::device::DeviceEvent::Done(copy)))
    } else if contains_id(&p.node_ids, dn.id) {
        Some(Delivery::Node(dn.id, crate::node::NodeEvent::Done(copy)))
    } else if contains_id(&p.port_ids, dn.id) {
        Some(Delivery::Port(dn.id, crate::port::PortEvent::Done(copy)))
    } else if contains_id(&p.link_ids, dn.id) {
        Some(Delivery::Link(dn.id, crate::link::LinkEvent::Done(copy)))
    } else if contains_id(&p.module_ids, dn.id) {
        Some(Delivery::Module(dn.id, crate::module::ModuleEvent::Done(copy)))
    } else if contains_id(&p.factory_ids, dn.id) {
        Some(Delivery::Factory(dn.id, crate::factory::FactoryEvent::Done(copy)))
    } else if contains_id(&p.metadata_ids, dn.id) {
        Some(Delivery::Metadata(dn.id, crate::metadata::MetadataEvent::Done(copy)))
    } else if contains_id(&p.profiler_ids, dn.id) {
        Some(Delivery::Profiler(dn.id, crate::profiler::ProfilerEvent::Done(copy)))
    } else if contains_id(&p.client_node_ids, dn.id) {
        Some(Delivery::ClientNode(dn.id, crate::client_node::ClientNodeEvent::Done(copy)))
    } else {
        None
    }
}

/// Routes one complete frame to its mailboxes. The result lists the
/// deliveries in order; the caller performs the sends and drops the
/// mailboxes whose receivers are gone.
///
/// Every inbound id resolves to at most one mailbox (the tables are
/// disjoint), every listed delivery goes to a mailbox registered at
/// decode time, no mailbox is listed twice, and a core `Done { id }`
/// whose id has a mailbox is fanned out to it, as that kind's `Done`
/// variant, before the core mailbox sees the event.
#[verifier::rlimit(100)]
pub fn dispatch_frame(p: &Proxies, frame: &Vec<u8>) -> (r: Result<
    Vec<Delivery>,
    crate::error::ConnectionError,
>)
    requires
        p.wf(),
    ensures
        ({
            let h = header_of(frame@, 0);
            match r {
                Ok(ds) => {
                    &&& frame@.len() >= 16
                    &&& crate::codec::parse_pod(frame@, 16, frame@.len() as int) matches Ok(pr)
                    &&& pr.0 matches crate::value::PodView::Struct(fs)
                    &&& forall|i: int|
                        0 <= i < ds@.len() ==> delivery_registered(*p, #[trigger] ds@[i])
                    &&& forall|i: int|
                        0 <= i < ds@.len() ==> delivery_sound(*p, h, fs, #[trigger] ds@[i])
                    &&& forall|i: int, j: int|
                        0 <= i < ds@.len() && 0 <= j < ds@.len() && i != j ==> delivery_id(
                            #[trigger] ds@[i],
                        ) != delivery_id(#[trigger] ds@[j])
                    &&& (h.id != crate::core_proxy::CORE_ID && h.id != crate::client::CLIENT_ID
                        ==> ds@.len() == 1 && delivery_id(ds@[0]) == h.id)
                    &&& (h.id == crate::client::CLIENT_ID ==> (p.client_present ==> ds@.len() == 1
                        && delivery_id(ds@[0]) == crate::client::CLIENT_ID) && (!p.client_present
                        ==> ds@.len() == 0))
                    &&& (h.id == crate::core_proxy::CORE_ID ==> {
                        &&& (p.core_present ==> ds@.len() >= 1 && (ds@.last() matches
                            Delivery::Core(e) && crate::core_proxy::CoreEvent::event_parses(
                            h.spec_opcode(),
                            fs,
                            e,
                        )))
                        &&& (!p.core_present ==> forall|i: int|
                            0 <= i < ds@.len() ==> !(#[trigger] ds@[i] is Core))
                        &&& forall|dn: crate::core_proxy::Done|
                            crate::core_proxy::CoreEvent::event_parses(
                                h.spec_opcode(),
                                fs,
                                crate::core_proxy::CoreEvent::Done(dn),
                            ) && #[trigger] p.fanout_kind(dn.id) is Some ==> ds@.len() >= 1
                                && delivery_id(ds@[0]) == dn.id && !(ds@[0] is Core)
                        &&& ds@.len() <= 2
                    })
                },
                Err(e) => dispatch_err(*p, frame@, e),
            }
        }),
        ({
            let h = header_of(frame@, 0);
            (frame@.len() >= 16 && (crate::codec::parse_pod(frame@, 16, frame@.len() as int)
                matches Ok(pr) && pr.0 matches crate::value::PodView::Struct(fs) && p.route(h.id)
                matches Some(k) && kind_event_shape(k, h.spec_opcode(), fs)) ==> r is Ok)
        }),
{
    if frame.len() < 16 {
        return Err(crate::error::ConnectionError::Unknown);
    }
    let h = read_header(frame, 0);
    let (body, _np) = match crate::deserialize::de_pod(frame, 16, frame.len()) {
        Ok(t) => t,
        Err(e) => {
            return Err(crate::error::ConnectionError::DeserializeError(e));
        },
    };
    let opcode = h.opcode();
    if h.id == crate::core_proxy::CORE_ID {
        match crate::core_proxy::CoreEvent::from_body(opcode, &body) {
            Err(e) => Err(crate::error::ConnectionError::DeserializeError(e)),
            Ok(e) => {
                let mut ds: Vec<Delivery> = Vec::new();
                match &e {
                    crate::core_proxy::CoreEvent::Done(dn) => {
                        match fanout_delivery(p, dn) {
                            Some(d) => {
                                ds.push(d);
                            },
                            None => {},
                        }
                    },
                    _ => {},
                }
                if p.core_present {
                    ds.push(Delivery::Core(e));
                }
                proof {
                    assert forall|dn2: crate::core_proxy::Done|
                        crate::core_proxy::CoreEvent::event_parses(
                            h.spec_opcode(),
                            crate::value::pod_views(body->Struct_0@),
                            crate::core_proxy::CoreEvent::Done(dn2),
                        ) && #[trigger] p.fanout_kind(dn2.id) is Some implies ds@.len() >= 1
                        && delivery_id(ds@[0]) == dn2.id && !(ds@[0] is Core) by {}
                }
                Ok(ds)
            },
        }
    } else if h.id == crate::client::CLIENT_ID {
        match crate::client::ClientEvent::from_body(opcode, &body) {
            Err(e) => Err(crate::error::ConnectionError::DeserializeError(e)),
            Ok(e) => {
                let mut ds: Vec<Delivery> = Vec::new();
                if p.client_present {
                    ds.push(Delivery::Client(e));
                }
                Ok(ds)
            },
        }
    } else {
        let id = h.id;
        if contains_id(&p.registry_ids, id) {
            match crate::registry::RegistryEvent::from_body(opcode, &body) {
                Err(e) => Err(crate::error::ConnectionError::DeserializeError(e)),
                Ok(e) => {
                    let mut ds: Vec<Delivery> = Vec::new();
                    ds.push(Delivery::Registry(id, e));
                    Ok(ds)
                },
            }
        } else if contains_id(&p.device_ids, id) {
            match crate::device::DeviceEvent::from_body(opcode, &body) {
                Err(e) => Err(crate::error::ConnectionError::DeserializeError(e)),
                Ok(e) => {
                    let mut ds: Vec<Delivery> = Vec::new();
                    ds.push(Delivery::Device(id, e));
                    Ok(ds)
                },
            }
        } else if contains_id(&p.node_ids, id) {
            match crate::node::NodeEvent::from_body(opcode, &body) {
                Err(e) => Err(crate::error::ConnectionError::DeserializeError(e)),
                Ok(e) => {
                    let mut ds: Vec<Delivery> = Vec::new();
                    ds.push(Delivery::Node(id, e));
                    Ok(ds)
                },
            }
        } else if contains_id(&p.port_ids, id) {
            match crate::port::PortEvent::from_body(opcode, &body) {
                Err(e) => Err(crate::error::ConnectionError::DeserializeError(e)),
                Ok(e) => {
                    let mut ds: Vec<Delivery> = Vec::new();
                    ds.push(Delivery::Port(id, e));
                    Ok(ds)
                },
            }
        } else if contains_id(&p.link_ids, id) {
            match crate::link::LinkEvent::from_body(opcode, &body) {
                Err(e) => Err(crate::error::ConnectionError::DeserializeError(e)),
                Ok(e) => {
                    let mut ds: Vec<Delivery> = Vec::new();
                    ds.push(Delivery::Link(id, e));
                    Ok(ds)
                },
            }
        } else if contains_id(&p.module_ids, id) {
            match crate::module::ModuleEvent::from_body(opcode, &body) {
                Err(e) => Err(crate::error::ConnectionError::DeserializeError(e)),
                Ok(e) => {
                    let mut ds: Vec<Delivery> = Vec::new();
                    ds.push(Delivery::Module(id, e));
                    Ok(ds)
                },
            }
        } else if contains_id(&p.factory_ids, id) {
            match crate::factory::FactoryEvent::from_body(opcode, &body) {
                Err(e) => Err(crate::error::ConnectionError::DeserializeError(e)),
                Ok(e) => {
                    let mut ds: Vec<Delivery> = Vec::new();
                    ds.push(Delivery::Factory(id, e));
                    Ok(ds)
                },
            }
        } else if contains_id(&p.metadata_ids, id) {
            match crate::metadata::MetadataEvent::from_body(opcode, &body) {
                Err(e) => Err(crate::error::ConnectionError::DeserializeError(e)),
                Ok(e) => {
                    let mut ds: Vec<Delivery> = Vec::new();
                    ds.push(Delivery::Metadata(id, e));
                    Ok(ds)
                },
            }
        } else if contains_id(&p.profiler_ids, id) {
            match crate::profiler::ProfilerEvent::from_body(opcode, &body) {
                Err(e) => Err(crate::error::ConnectionError::DeserializeError(e)),
                Ok(e) => {
                    let mut ds: Vec<Delivery> = Vec::new();
                    ds.push(Delivery::Profiler(id, e));
                    Ok(ds)
                },
            }
        } else if contains_id(&p.client_node_ids, id) {
            match crate::client_node::ClientNodeEvent::from_body(opcode, &body) {
                Err(e) => Err(crate::error::ConnectionError::DeserializeError(e)),
                Ok(e) => {
                    let mut ds: Vec<Delivery> = Vec::new();
                    ds.push(Delivery::ClientNode(id, e));
                    Ok(ds)
                },
            }
        } else {
            Err(crate::error::ConnectionError::ProxyNotPresentError(id))
        }
    }
}

} // verus!
