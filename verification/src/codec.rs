//! The POD wire format, stated mathematically: the canonical encoding of
//! every pod value, the well-formedness bound that makes a value encodable,
//! and the parser that inverts the encoding.
//!
//! Every pod is a little-endian `(size, type)` header of 8 bytes, `size`
//! bytes of body, and zero padding up to a multiple of 8. The executable
//! serializer and deserializer are specified exactly against `enc_pod` and
//! `parse_pod`.

use vstd::bytes::*;
use vstd::prelude::*;

use crate::error::PodError;
use crate::value::{cev_map, ArrayView, ChoiceEnumView, ChoiceView, ObjectView, PodView, PropertyView};

verus! {

pub const TYPE_NONE: u32 = 1;

pub const TYPE_BOOL: u32 = 2;

pub const TYPE_ID: u32 = 3;

pub const TYPE_INT: u32 = 4;

pub const TYPE_LONG: u32 = 5;

pub const TYPE_FLOAT: u32 = 6;

pub const TYPE_DOUBLE: u32 = 7;

pub const TYPE_STRING: u32 = 8;

pub const TYPE_BYTES: u32 = 9;

pub const TYPE_RECTANGLE: u32 = 10;

pub const TYPE_FRACTION: u32 = 11;

pub const TYPE_BITMAP: u32 = 12;

pub const TYPE_ARRAY: u32 = 13;

pub const TYPE_STRUCT: u32 = 14;

pub const TYPE_OBJECT: u32 = 15;

pub const TYPE_SEQUENCE: u32 = 16;

pub const TYPE_POINTER: u32 = 17;

pub const TYPE_FD: u32 = 18;

pub const TYPE_CHOICE: u32 = 19;

pub const TYPE_POD: u32 = 20;

/// Choice kinds.
pub const CHOICE_NONE: u32 = 0;

pub const CHOICE_RANGE: u32 = 1;

pub const CHOICE_STEP: u32 = 2;

pub const CHOICE_ENUM: u32 = 3;

pub const CHOICE_FLAGS: u32 = 4;

// ---------------------------------------------------------------------------
// Words and two's-complement conversions
// ---------------------------------------------------------------------------

/// The little-endian bytes of a 32-bit word.
pub open spec fn w32(x: u32) -> Seq<u8> {
    spec_u32_to_le_bytes(x)
}

/// The little-endian bytes of a 64-bit word.
pub open spec fn w64(x: u64) -> Seq<u8> {
    spec_u64_to_le_bytes(x)
}

/// The 32-bit word at byte offset `i`.
pub open spec fn r32(s: Seq<u8>, i: int) -> u32 {
    spec_u32_from_le_bytes(s.subrange(i, i + 4))
}

/// The 64-bit word at byte offset `i`.
pub open spec fn r64(s: Seq<u8>, i: int) -> u64 {
    spec_u64_from_le_bytes(s.subrange(i, i + 8))
}

/// The two's-complement 32-bit pattern of a signed value.
pub open spec fn u32_of_i32(x: i32) -> u32 {
    if x >= 0 {
        x as u32
    } else {
        (x + 0x1_0000_0000) as u32
    }
}

/// The signed value of a two's-complement 32-bit pattern.
pub open spec fn i32_of_u32(x: u32) -> i32 {
    if x < 0x8000_0000 {
        x as i32
    } else {
        (x - 0x1_0000_0000) as i32
    }
}

/// The two's-complement 64-bit pattern of a signed value.
pub open spec fn u64_of_i64(x: i64) -> u64 {
    if x >= 0 {
        x as u64
    } else {
        (x + 0x1_0000_0000_0000_0000) as u64
    }
}

/// The signed value of a two's-complement 64-bit pattern.
pub open spec fn i64_of_u64(x: u64) -> i64 {
    if x < 0x8000_0000_0000_0000 {
        x as i64
    } else {
        (x - 0x1_0000_0000_0000_0000) as i64
    }
}

pub proof fn lemma_i32_roundtrip(x: i32)
    ensures
        i32_of_u32(u32_of_i32(x)) == x,
{
}

/// Reading a 32-bit word back from where its encoding was written.
pub proof fn lemma_r32_w32(s: Seq<u8>, i: int, x: u32)
    requires
        0 <= i,
        i + 4 <= s.len(),
        s.subrange(i, i + 4) == w32(x),
    ensures
        r32(s, i) == x,
{
    lemma_auto_spec_u32_to_from_le_bytes();
    assert(spec_u32_to_le_bytes(x).len() == 4);
    assert(spec_u32_from_le_bytes(spec_u32_to_le_bytes(x)) == x);
    assert(r32(s, i) == spec_u32_from_le_bytes(s.subrange(i, i + 4)));
}

/// Reading a 64-bit word back from where its encoding was written.
pub proof fn lemma_r64_w64(s: Seq<u8>, i: int, x: u64)
    requires
        0 <= i,
        i + 8 <= s.len(),
        s.subrange(i, i + 8) == w64(x),
    ensures
        r64(s, i) == x,
{
    lemma_auto_spec_u64_to_from_le_bytes();
    assert(spec_u64_to_le_bytes(x).len() == 8);
    assert(spec_u64_from_le_bytes(spec_u64_to_le_bytes(x)) == x);
    assert(r64(s, i) == spec_u64_from_le_bytes(s.subrange(i, i + 8)));
}

// ---------------------------------------------------------------------------
// Padding
// ---------------------------------------------------------------------------

/// The zero bytes needed after a body of `n` bytes to reach a multiple of 8.
pub open spec fn pad8(n: int) -> int {
    if n % 8 == 0 {
        0
    } else {
        8 - (n % 8)
    }
}

/// A run of zero bytes.
pub open spec fn zeros(n: int) -> Seq<u8> {
    Seq::new(n as nat, |i: int| 0u8)
}

// ---------------------------------------------------------------------------
// Fixed-size element encodings (array and choice payloads)
// ---------------------------------------------------------------------------

pub open spec fn enc_bool(b: bool) -> Seq<u8> {
    w32(if b {
        1u32
    } else {
        0u32
    })
}

pub open spec fn enc_i32v(x: i32) -> Seq<u8> {
    w32(u32_of_i32(x))
}

pub open spec fn enc_i64v(x: i64) -> Seq<u8> {
    w64(u64_of_i64(x))
}

pub open spec fn enc_pair(p: (u32, u32)) -> Seq<u8> {
    w32(p.0) + w32(p.1)
}

/// Element encoders and decoders, named so that the parser and the
/// round-trip lemmas speak of the same function values.
pub open spec fn fenc_bool() -> spec_fn(bool) -> Seq<u8> {
    |b: bool| enc_bool(b)
}

pub open spec fn fenc_u32() -> spec_fn(u32) -> Seq<u8> {
    |x: u32| w32(x)
}

pub open spec fn fenc_u64() -> spec_fn(u64) -> Seq<u8> {
    |x: u64| w64(x)
}

pub open spec fn fenc_i32() -> spec_fn(i32) -> Seq<u8> {
    |x: i32| enc_i32v(x)
}

pub open spec fn fenc_i64() -> spec_fn(i64) -> Seq<u8> {
    |x: i64| enc_i64v(x)
}

pub open spec fn fenc_pair() -> spec_fn((u32, u32)) -> Seq<u8> {
    |p: (u32, u32)| enc_pair(p)
}

pub open spec fn fdec_bool() -> spec_fn(Seq<u8>, int) -> bool {
    |s: Seq<u8>, i: int| r32(s, i) != 0
}

pub open spec fn fdec_u32() -> spec_fn(Seq<u8>, int) -> u32 {
    |s: Seq<u8>, i: int| r32(s, i)
}

pub open spec fn fdec_u64() -> spec_fn(Seq<u8>, int) -> u64 {
    |s: Seq<u8>, i: int| r64(s, i)
}

pub open spec fn fdec_i32() -> spec_fn(Seq<u8>, int) -> i32 {
    |s: Seq<u8>, i: int| i32_of_u32(r32(s, i))
}

pub open spec fn fdec_i64() -> spec_fn(Seq<u8>, int) -> i64 {
    |s: Seq<u8>, i: int| i64_of_u64(r64(s, i))
}

pub open spec fn fdec_pair() -> spec_fn(Seq<u8>, int) -> (u32, u32) {
    |s: Seq<u8>, i: int| (r32(s, i), r32(s, i + 4))
}

/// The concatenated encodings of a run of same-type elements.
pub open spec fn enc_elems<T>(l: Seq<T>, f: spec_fn(T) -> Seq<u8>) -> Seq<u8>
    decreases l.len(),
{
    if l.len() <= 0 {
        Seq::empty()
    } else {
        f(l[0]) + enc_elems(l.drop_first(), f)
    }
}

/// The elements read from a run of `n` packed fixed-size bodies.
pub open spec fn parse_elems<T>(
    s: Seq<u8>,
    pos: int,
    n: int,
    esz: int,
    g: spec_fn(Seq<u8>, int) -> T,
) -> Seq<T>
    decreases n,
{
    if n <= 0 {
        Seq::empty()
    } else {
        seq![g(s, pos)] + parse_elems(s, pos + esz, n - 1, esz, g)
    }
}

// ---------------------------------------------------------------------------
// Arrays
// ---------------------------------------------------------------------------

/// The type code of an array's elements.
pub open spec fn array_elem_code(a: ArrayView) -> u32 {
    match a {
        ArrayView::Null(_) => TYPE_NONE,
        ArrayView::Bool(_) => TYPE_BOOL,
        ArrayView::Id(_) => TYPE_ID,
        ArrayView::Int(_) => TYPE_INT,
        ArrayView::Long(_) => TYPE_LONG,
        ArrayView::Float(_) => TYPE_FLOAT,
        ArrayView::Double(_) => TYPE_DOUBLE,
        ArrayView::Rectangle(_) => TYPE_RECTANGLE,
        ArrayView::Fraction(_) => TYPE_FRACTION,
        ArrayView::Fd(_) => TYPE_FD,
    }
}

/// The body size of one array element.
pub open spec fn array_elem_size(a: ArrayView) -> int {
    match a {
        ArrayView::Null(_) => 0,
        ArrayView::Bool(_) => 4,
        ArrayView::Id(_) => 4,
        ArrayView::Int(_) => 4,
        ArrayView::Long(_) => 8,
        ArrayView::Float(_) => 4,
        ArrayView::Double(_) => 8,
        ArrayView::Rectangle(_) => 8,
        ArrayView::Fraction(_) => 8,
        ArrayView::Fd(_) => 8,
    }
}

/// The number of elements in an array.
pub open spec fn array_len(a: ArrayView) -> int {
    match a {
        ArrayView::Null(l) => l.len() as int,
        ArrayView::Bool(l) => l.len() as int,
        ArrayView::Id(l) => l.len() as int,
        ArrayView::Int(l) => l.len() as int,
        ArrayView::Long(l) => l.len() as int,
        ArrayView::Float(l) => l.len() as int,
        ArrayView::Double(l) => l.len() as int,
        ArrayView::Rectangle(l) => l.len() as int,
        ArrayView::Fraction(l) => l.len() as int,
        ArrayView::Fd(l) => l.len() as int,
    }
}

/// The packed element bodies of an array.
pub open spec fn array_elems_bytes(a: ArrayView) -> Seq<u8> {
    match a {
        ArrayView::Null(l) => Seq::empty(),
        ArrayView::Bool(l) => enc_elems(l, fenc_bool()),
        ArrayView::Id(l) => enc_elems(l, fenc_u32()),
        ArrayView::Int(l) => enc_elems(l, fenc_i32()),
        ArrayView::Long(l) => enc_elems(l, fenc_i64()),
        ArrayView::Float(l) => enc_elems(l, fenc_u32()),
        ArrayView::Double(l) => enc_elems(l, fenc_u64()),
        ArrayView::Rectangle(l) => enc_elems(l, fenc_pair()),
        ArrayView::Fraction(l) => enc_elems(l, fenc_pair()),
        ArrayView::Fd(l) => enc_elems(l, fenc_i64()),
    }
}

// ---------------------------------------------------------------------------
// Choices
// ---------------------------------------------------------------------------

/// The choice-kind code of a choice body.
pub open spec fn ce_kind<T>(ce: ChoiceEnumView<T>) -> u32 {
    match ce {
        ChoiceEnumView::Fixed(_) => CHOICE_NONE,
        ChoiceEnumView::Range { .. } => CHOICE_RANGE,
        ChoiceEnumView::Step { .. } => CHOICE_STEP,
        ChoiceEnumView::Enum { .. } => CHOICE_ENUM,
        ChoiceEnumView::Flags { .. } => CHOICE_FLAGS,
    }
}

/// The elements a choice writes, default first.
pub open spec fn ce_elems<T>(ce: ChoiceEnumView<T>) -> Seq<T> {
    match ce {
        ChoiceEnumView::Fixed(d) => seq![d],
        ChoiceEnumView::Range { default, min, max } => seq![default, min, max],
        ChoiceEnumView::Step { default, min, max, step } => seq![default, min, max, step],
        ChoiceEnumView::Enum { default, alternatives } => seq![default] + alternatives,
        ChoiceEnumView::Flags { default, flags } => seq![default] + flags,
    }
}

/// The choice body rebuilt from a kind code and the elements read.
pub open spec fn ce_of<T>(ctype: u32, elems: Seq<T>) -> Result<ChoiceEnumView<T>, PodError> {
    if ctype == CHOICE_NONE {
        if elems.len() >= 1 {
            Ok(ChoiceEnumView::Fixed(elems[0]))
        } else {
            Err(PodError::MissingChoiceValues)
        }
    } else if ctype == CHOICE_RANGE {
        if elems.len() >= 3 {
            Ok(ChoiceEnumView::Range { default: elems[0], min: elems[1], max: elems[2] })
        } else {
            Err(PodError::MissingChoiceValues)
        }
    } else if ctype == CHOICE_STEP {
        if elems.len() >= 4 {
            Ok(
                ChoiceEnumView::Step {
                    default: elems[0],
                    min: elems[1],
                    max: elems[2],
                    step: elems[3],
                },
            )
        } else {
            Err(PodError::MissingChoiceValues)
        }
    } else if ctype == CHOICE_ENUM {
        if elems.len() >= 1 {
            Ok(ChoiceEnumView::Enum { default: elems[0], alternatives: elems.drop_first() })
        } else {
            Err(PodError::MissingChoiceValues)
        }
    } else if ctype == CHOICE_FLAGS {
        if elems.len() >= 1 {
            Ok(ChoiceEnumView::Flags { default: elems[0], flags: elems.drop_first() })
        } else {
            Err(PodError::MissingChoiceValues)
        }
    } else {
        Err(PodError::InvalidChoiceType)
    }
}

/// The kind code a typed choice writes.
pub open spec fn choice_kind(c: ChoiceView) -> u32 {
    match c {
        ChoiceView::Bool(_, ce) => ce_kind(ce),
        ChoiceView::Int(_, ce) => ce_kind(ce),
        ChoiceView::Long(_, ce) => ce_kind(ce),
        ChoiceView::Float(_, ce) => ce_kind(ce),
        ChoiceView::Double(_, ce) => ce_kind(ce),
        ChoiceView::Id(_, ce) => ce_kind(ce),
        ChoiceView::Rectangle(_, ce) => ce_kind(ce),
        ChoiceView::Fraction(_, ce) => ce_kind(ce),
        ChoiceView::Fd(_, ce) => ce_kind(ce),
    }
}

/// The flags word of a typed choice.
pub open spec fn choice_flags(c: ChoiceView) -> u32 {
    match c {
        ChoiceView::Bool(fl, _) => fl,
        ChoiceView::Int(fl, _) => fl,
        ChoiceView::Long(fl, _) => fl,
        ChoiceView::Float(fl, _) => fl,
        ChoiceView::Double(fl, _) => fl,
        ChoiceView::Id(fl, _) => fl,
        ChoiceView::Rectangle(fl, _) => fl,
        ChoiceView::Fraction(fl, _) => fl,
        ChoiceView::Fd(fl, _) => fl,
    }
}

/// The type code of a choice's elements.
pub open spec fn choice_elem_code(c: ChoiceView) -> u32 {
    match c {
        ChoiceView::Bool(_, _) => TYPE_BOOL,
        ChoiceView::Int(_, _) => TYPE_INT,
        ChoiceView::Long(_, _) => TYPE_LONG,
        ChoiceView::Float(_, _) => TYPE_FLOAT,
        ChoiceView::Double(_, _) => TYPE_DOUBLE,
        ChoiceView::Id(_, _) => TYPE_ID,
        ChoiceView::Rectangle(_, _) => TYPE_RECTANGLE,
        ChoiceView::Fraction(_, _) => TYPE_FRACTION,
        ChoiceView::Fd(_, _) => TYPE_FD,
    }
}

/// The body size of one choice element.
pub open spec fn choice_elem_size(c: ChoiceView) -> int {
    match c {
        ChoiceView::Bool(_, _) => 4,
        ChoiceView::Int(_, _) => 4,
        ChoiceView::Long(_, _) => 8,
        ChoiceView::Float(_, _) => 4,
        ChoiceView::Double(_, _) => 8,
        ChoiceView::Id(_, _) => 4,
        ChoiceView::Rectangle(_, _) => 8,
        ChoiceView::Fraction(_, _) => 8,
        ChoiceView::Fd(_, _) => 8,
    }
}

/// The number of elements a typed choice writes.
pub open spec fn choice_len(c: ChoiceView) -> int {
    match c {
        ChoiceView::Bool(_, ce) => ce_elems(ce).len() as int,
        ChoiceView::Int(_, ce) => ce_elems(ce).len() as int,
        ChoiceView::Long(_, ce) => ce_elems(ce).len() as int,
        ChoiceView::Float(_, ce) => ce_elems(ce).len() as int,
        ChoiceView::Double(_, ce) => ce_elems(ce).len() as int,
        ChoiceView::Id(_, ce) => ce_elems(ce).len() as int,
        ChoiceView::Rectangle(_, ce) => ce_elems(ce).len() as int,
        ChoiceView::Fraction(_, ce) => ce_elems(ce).len() as int,
        ChoiceView::Fd(_, ce) => ce_elems(ce).len() as int,
    }
}

/// The packed element bodies of a typed choice.
pub open spec fn choice_elems_bytes(c: ChoiceView) -> Seq<u8> {
    match c {
        ChoiceView::Bool(_, ce) => enc_elems(ce_elems(ce), fenc_bool()),
        ChoiceView::Int(_, ce) => enc_elems(ce_elems(ce), fenc_i32()),
        ChoiceView::Long(_, ce) => enc_elems(ce_elems(ce), fenc_i64()),
        ChoiceView::Float(_, ce) => enc_elems(ce_elems(ce), fenc_u32()),
        ChoiceView::Double(_, ce) => enc_elems(ce_elems(ce), fenc_u64()),
        ChoiceView::Id(_, ce) => enc_elems(ce_elems(ce), fenc_u32()),
        ChoiceView::Rectangle(_, ce) => enc_elems(ce_elems(ce), fenc_pair()),
        ChoiceView::Fraction(_, ce) => enc_elems(ce_elems(ce), fenc_pair()),
        ChoiceView::Fd(_, ce) => enc_elems(ce_elems(ce), fenc_i64()),
    }
}

// ---------------------------------------------------------------------------
// The encoding
// ---------------------------------------------------------------------------

/// The outer type code of a pod value.
pub open spec fn pod_type_code(v: PodView) -> u32 {
    match v {
        PodView::Null => TYPE_NONE,
        PodView::Bool(_) => TYPE_BOOL,
        PodView::Id(_) => TYPE_ID,
        PodView::Int(_) => TYPE_INT,
        PodView::Long(_) => TYPE_LONG,
        PodView::Float(_) => TYPE_FLOAT,
        PodView::Double(_) => TYPE_DOUBLE,
        PodView::String(_) => TYPE_STRING,
        PodView::Bytes(_) => TYPE_BYTES,
        PodView::Rectangle(_, _) => TYPE_RECTANGLE,
        PodView::Fraction(_, _) => TYPE_FRACTION,
        PodView::Fd(_) => TYPE_FD,
        PodView::ValueArray(_) => TYPE_ARRAY,
        PodView::Struct(_) => TYPE_STRUCT,
        PodView::Object(_) => TYPE_OBJECT,
        PodView::Choice(_) => TYPE_CHOICE,
        PodView::Pointer(_, _) => TYPE_POINTER,
    }
}

/// The body bytes of a pod value, without header or padding.
pub open spec fn pod_body(v: PodView) -> Seq<u8>
    decreases v, 0int,
{
    match v {
        PodView::Null => Seq::empty(),
        PodView::Bool(b) => enc_bool(b),
        PodView::Id(x) => w32(x),
        PodView::Int(x) => enc_i32v(x),
        PodView::Long(x) => enc_i64v(x),
        PodView::Float(x) => w32(x),
        PodView::Double(x) => w64(x),
        PodView::String(s) => s + seq![0u8],
        PodView::Bytes(b) => b,
        PodView::Rectangle(w, h) => w32(w) + w32(h),
        PodView::Fraction(n, d) => w32(n) + w32(d),
        PodView::Fd(x) => enc_i64v(x),
        PodView::ValueArray(a) => w32(array_elem_size(a) as u32) + w32(array_elem_code(a))
            + array_elems_bytes(a),
        PodView::Struct(l) => enc_pods(l),
        PodView::Object(o) => w32(o.type_) + w32(o.id) + enc_props(o.properties),
        PodView::Choice(c) => w32(choice_kind(c)) + w32(choice_flags(c)) + w32(
            choice_elem_size(c) as u32,
        ) + w32(choice_elem_code(c)) + choice_elems_bytes(c),
        PodView::Pointer(ty, addr) => w32(ty) + w32(0) + w64(addr),
    }
}

/// The complete encoding of a pod: header, body, zero padding.
pub open spec fn enc_pod(v: PodView) -> Seq<u8>
    decreases v, 1int,
{
    w32(pod_body(v).len() as u32) + w32(pod_type_code(v)) + pod_body(v) + zeros(
        pad8(pod_body(v).len() as int),
    )
}

/// The concatenated encodings of a sequence of pods (a struct body).
pub open spec fn enc_pods(l: Seq<PodView>) -> Seq<u8>
    decreases l, 2int,
{
    if l.len() <= 0 {
        Seq::empty()
    } else {
        enc_pod(l[0]) + enc_pods(l.drop_first())
    }
}

/// The concatenated encodings of object properties: each is
/// `(key, flags)` followed by a complete pod.
pub open spec fn enc_props(ps: Seq<PropertyView>) -> Seq<u8>
    decreases ps, 2int,
{
    if ps.len() <= 0 {
        Seq::empty()
    } else {
        w32(ps[0].key) + w32(ps[0].flags) + enc_pod(ps[0].value) + enc_props(ps.drop_first())
    }
}

// ---------------------------------------------------------------------------
// Well-formedness: what the encoding's size fields can carry
// ---------------------------------------------------------------------------

/// A pod value every node of which has a body below 2^32 bytes, and whose
/// arrays of `Null` are empty (a zero-size element leaves no way to recover
/// a count from the wire).
pub open spec fn pod_wf(v: PodView) -> bool
    decreases v, 1int,
{
    &&& pod_body(v).len() < 0x1_0000_0000
    &&& match v {
        PodView::ValueArray(a) => a matches ArrayView::Null(l) ==> l.len() == 0,
        PodView::Struct(l) => wf_pods(l),
        PodView::Object(o) => wf_props(o.properties),
        _ => true,
    }
}

/// Well-formedness of every pod in a sequence.
pub open spec fn wf_pods(l: Seq<PodView>) -> bool
    decreases l, 2int,
{
    l.len() <= 0 || (pod_wf(l[0]) && wf_pods(l.drop_first()))
}

/// Well-formedness of every property value in a sequence.
pub open spec fn wf_props(ps: Seq<PropertyView>) -> bool
    decreases ps, 2int,
{
    ps.len() <= 0 || (pod_wf(ps[0].value) && wf_props(ps.drop_first()))
}

// ---------------------------------------------------------------------------
// The parser
// ---------------------------------------------------------------------------

/// Parses one pod in the window `[start, end)` of `s`. On success the
/// result carries the value and the position just past the pod's padding.
pub open spec fn parse_pod(s: Seq<u8>, start: int, end: int) -> Result<(PodView, int), PodError>
    decreases end - start, 0int,
{
    if end - start < 8 {
        Err(PodError::ParseError)
    } else {
        let size = r32(s, start) as int;
        let ty = r32(s, start + 4);
        let total = 8 + size + pad8(size);
        if end - start < total {
            Err(PodError::ParseError)
        } else {
            let b = start + 8;
            let np = start + total;
            if ty == TYPE_NONE {
                if size == 0 {
                    Ok((PodView::Null, np))
                } else {
                    Err(PodError::ParseError)
                }
            } else if ty == TYPE_BOOL {
                if size == 4 {
                    Ok((PodView::Bool(r32(s, b) != 0), np))
                } else {
                    Err(PodError::ParseError)
                }
            } else if ty == TYPE_ID {
                if size == 4 {
                    Ok((PodView::Id(r32(s, b)), np))
                } else {
                    Err(PodError::ParseError)
                }
            } else if ty == TYPE_INT {
                if size == 4 {
                    Ok((PodView::Int(i32_of_u32(r32(s, b))), np))
                } else {
                    Err(PodError::ParseError)
                }
            } else if ty == TYPE_LONG {
                if size == 8 {
                    Ok((PodView::Long(i64_of_u64(r64(s, b))), np))
                } else {
                    Err(PodError::ParseError)
                }
            } else if ty == TYPE_FLOAT {
                if size == 4 {
                    Ok((PodView::Float(r32(s, b)), np))
                } else {
                    Err(PodError::ParseError)
                }
            } else if ty == TYPE_DOUBLE {
                if size == 8 {
                    Ok((PodView::Double(r64(s, b)), np))
                } else {
                    Err(PodError::ParseError)
                }
            } else if ty == TYPE_STRING {
                if size >= 1 && s[b + size - 1] == 0 {
                    Ok((PodView::String(s.subrange(b, b + size - 1)), np))
                } else {
                    Err(PodError::ParseError)
                }
            } else if ty == TYPE_BYTES {
                Ok((PodView::Bytes(s.subrange(b, b + size)), np))
            } else if ty == TYPE_RECTANGLE {
                if size == 8 {
                    Ok((PodView::Rectangle(r32(s, b), r32(s, b + 4)), np))
                } else {
                    Err(PodError::ParseError)
                }
            } else if ty == TYPE_FRACTION {
                if size == 8 {
                    Ok((PodView::Fraction(r32(s, b), r32(s, b + 4)), np))
                } else {
                    Err(PodError::ParseError)
                }
            } else if ty == TYPE_FD {
                if size == 8 {
                    Ok((PodView::Fd(i64_of_u64(r64(s, b))), np))
                } else {
                    Err(PodError::ParseError)
                }
            } else if ty == TYPE_POINTER {
                if size == 16 {
                    Ok((PodView::Pointer(r32(s, b), r64(s, b + 8)), np))
                } else {
                    Err(PodError::ParseError)
                }
            } else if ty == TYPE_ARRAY {
                if size < 8 {
                    Err(PodError::ParseError)
                } else {
                    match parse_array(s, b, size) {
                        Ok(a) => Ok((PodView::ValueArray(a), np)),
                        Err(e) => Err(e),
                    }
                }
            } else if ty == TYPE_STRUCT {
                match parse_pods(s, b, b + size) {
                    Ok(l) => Ok((PodView::Struct(l), np)),
                    Err(e) => Err(e),
                }
            } else if ty == TYPE_OBJECT {
                if size < 8 {
                    Err(PodError::ParseError)
                } else {
                    match parse_props(s, b + 8, b + size) {
                        Ok(ps) => Ok(
                            (
                                PodView::Object(
                                    ObjectView {
                                        type_: r32(s, b),
                                        id: r32(s, b + 4),
                                        properties: ps,
                                    },
                                ),
                                np,
                            ),
                        ),
                        Err(e) => Err(e),
                    }
                }
            } else if ty == TYPE_CHOICE {
                if size < 16 {
                    Err(PodError::ParseError)
                } else {
                    match parse_choice(s, b, size) {
                        Ok(c) => Ok((PodView::Choice(c), np)),
                        Err(e) => Err(e),
                    }
                }
            } else {
                Err(PodError::UnsupportedType)
            }
        }
    }
}

/// Parses an array body of `size` bytes at `b`: the 8-byte element header,
/// then the packed element bodies.
pub open spec fn parse_array(s: Seq<u8>, b: int, size: int) -> Result<ArrayView, PodError> {
    let esz = r32(s, b) as int;
    let ecode = r32(s, b + 4);
    let eb = b + 8;
    let nb = size - 8;
    if ecode == TYPE_NONE {
        if esz == 0 && nb == 0 {
            Ok(ArrayView::Null(Seq::empty()))
        } else {
            Err(PodError::ParseError)
        }
    } else if ecode == TYPE_BOOL {
        if esz == 4 && nb % 4 == 0 {
            Ok(
                ArrayView::Bool(
                    parse_elems(s, eb, nb / 4, 4, fdec_bool()),
                ),
            )
        } else {
            Err(PodError::ParseError)
        }
    } else if ecode == TYPE_ID {
        if esz == 4 && nb % 4 == 0 {
            Ok(ArrayView::Id(parse_elems(s, eb, nb / 4, 4, fdec_u32())))
        } else {
            Err(PodError::ParseError)
        }
    } else if ecode == TYPE_INT {
        if esz == 4 && nb % 4 == 0 {
            Ok(
                ArrayView::Int(
                    parse_elems(s, eb, nb / 4, 4, fdec_i32()),
                ),
            )
        } else {
            Err(PodError::ParseError)
        }
    } else if ecode == TYPE_LONG {
        if esz == 8 && nb % 8 == 0 {
            Ok(
                ArrayView::Long(
                    parse_elems(s, eb, nb / 8, 8, fdec_i64()),
                ),
            )
        } else {
            Err(PodError::ParseError)
        }
    } else if ecode == TYPE_FLOAT {
        if esz == 4 && nb % 4 == 0 {
            Ok(ArrayView::Float(parse_elems(s, eb, nb / 4, 4, fdec_u32())))
        } else {
            Err(PodError::ParseError)
        }
    } else if ecode == TYPE_DOUBLE {
        if esz == 8 && nb % 8 == 0 {
            Ok(ArrayView::Double(parse_elems(s, eb, nb / 8, 8, fdec_u64())))
        } else {
            Err(PodError::ParseError)
        }
    } else if ecode == TYPE_RECTANGLE {
        if esz == 8 && nb % 8 == 0 {
            Ok(
                ArrayView::Rectangle(
                    parse_elems(s, eb, nb / 8, 8, fdec_pair()),
                ),
            )
        } else {
            Err(PodError::ParseError)
        }
    } else if ecode == TYPE_FRACTION {
        if esz == 8 && nb % 8 == 0 {
            Ok(
                ArrayView::Fraction(
                    parse_elems(s, eb, nb / 8, 8, fdec_pair()),
                ),
            )
        } else {
            Err(PodError::ParseError)
        }
    } else if ecode == TYPE_FD {
        if esz == 8 && nb % 8 == 0 {
            Ok(
                ArrayView::Fd(
                    parse_elems(s, eb, nb / 8, 8, fdec_i64()),
                ),
            )
        } else {
            Err(PodError::ParseError)
        }
    } else {
        Err(PodError::UnsupportedType)
    }
}

/// Parses a choice body of `size` bytes at `b`: kind, flags, the 8-byte
/// element header, then the packed element bodies, default first.
pub open spec fn parse_choice(s: Seq<u8>, b: int, size: int) -> Result<ChoiceView, PodError> {
    let ctype = r32(s, b);
    let cflags = r32(s, b + 4);
    let esz = r32(s, b + 8) as int;
    let ecode = r32(s, b + 12);
    let eb = b + 16;
    let nb = size - 16;
    if ctype > CHOICE_FLAGS {
        Err(PodError::InvalidChoiceType)
    } else if ecode == TYPE_BOOL {
        if esz == 4 && nb % 4 == 0 {
            match ce_of(ctype, parse_elems(s, eb, nb / 4, 4, fdec_bool())) {
                Ok(ce) => Ok(ChoiceView::Bool(cflags, ce)),
                Err(e) => Err(e),
            }
        } else {
            Err(PodError::ParseError)
        }
    } else if ecode == TYPE_INT {
        if esz == 4 && nb % 4 == 0 {
            match ce_of(
                ctype,
                parse_elems(s, eb, nb / 4, 4, fdec_i32()),
            ) {
                Ok(ce) => Ok(ChoiceView::Int(cflags, ce)),
                Err(e) => Err(e),
            }
        } else {
            Err(PodError::ParseError)
        }
    } else if ecode == TYPE_LONG {
        if esz == 8 && nb % 8 == 0 {
            match ce_of(
                ctype,
                parse_elems(s, eb, nb / 8, 8, fdec_i64()),
            ) {
                Ok(ce) => Ok(ChoiceView::Long(cflags, ce)),
                Err(e) => Err(e),
            }
        } else {
            Err(PodError::ParseError)
        }
    } else if ecode == TYPE_FLOAT {
        if esz == 4 && nb % 4 == 0 {
            match ce_of(ctype, parse_elems(s, eb, nb / 4, 4, fdec_u32())) {
                Ok(ce) => Ok(ChoiceView::Float(cflags, ce)),
                Err(e) => Err(e),
            }
        } else {
            Err(PodError::ParseError)
        }
    } else if ecode == TYPE_DOUBLE {
        if esz == 8 && nb % 8 == 0 {
            match ce_of(ctype, parse_elems(s, eb, nb / 8, 8, fdec_u64())) {
                Ok(ce) => Ok(ChoiceView::Double(cflags, ce)),
                Err(e) => Err(e),
            }
        } else {
            Err(PodError::ParseError)
        }
    } else if ecode == TYPE_ID {
        if esz == 4 && nb % 4 == 0 {
            match ce_of(ctype, parse_elems(s, eb, nb / 4, 4, fdec_u32())) {
                Ok(ce) => Ok(ChoiceView::Id(cflags, ce)),
                Err(e) => Err(e),
            }
        } else {
            Err(PodError::ParseError)
        }
    } else if ecode == TYPE_RECTANGLE {
        if esz == 8 && nb % 8 == 0 {
            match ce_of(
                ctype,
                parse_elems(s, eb, nb / 8, 8, fdec_pair()),
            ) {
                Ok(ce) => Ok(ChoiceView::Rectangle(cflags, ce)),
                Err(e) => Err(e),
            }
        } else {
            Err(PodError::ParseError)
        }
    } else if ecode == TYPE_FRACTION {
        if esz == 8 && nb % 8 == 0 {
            match ce_of(
                ctype,
                parse_elems(s, eb, nb / 8, 8, fdec_pair()),
            ) {
                Ok(ce) => Ok(ChoiceView::Fraction(cflags, ce)),
                Err(e) => Err(e),
            }
        } else {
            Err(PodError::ParseError)
        }
    } else if ecode == TYPE_FD {
        if esz == 8 && nb % 8 == 0 {
            match ce_of(
                ctype,
                parse_elems(s, eb, nb / 8, 8, fdec_i64()),
            ) {
                Ok(ce) => Ok(ChoiceView::Fd(cflags, ce)),
                Err(e) => Err(e),
            }
        } else {
            Err(PodError::ParseError)
        }
    } else {
        Err(PodError::UnsupportedType)
    }
}

/// Parses complete pods back to back until the window is exhausted.
pub open spec fn parse_pods(s: Seq<u8>, start: int, end: int) -> Result<Seq<PodView>, PodError>
    decreases end - start, 1int,
{
    if start == end {
        Ok(Seq::empty())
    } else if end - start < 8 {
        Err(PodError::ParseError)
    } else {
        let csize = r32(s, start) as int;
        let ct = 8 + csize + pad8(csize);
        if end - start < ct {
            Err(PodError::ParseError)
        } else {
            match parse_pod(s, start, start + ct) {
                Ok((v, _)) => match parse_pods(s, start + ct, end) {
                    Ok(rest) => Ok(seq![v] + rest),
                    Err(e) => Err(e),
                },
                Err(e) => Err(e),
            }
        }
    }
}

/// Parses `(key, flags, pod)` properties back to back until the window
/// is exhausted.
pub open spec fn parse_props(s: Seq<u8>, start: int, end: int) -> Result<
    Seq<PropertyView>,
    PodError,
>
    decreases end - start, 1int,
{
    if start == end {
        Ok(Seq::empty())
    } else if end - start < 16 {
        Err(PodError::ParseError)
    } else {
        let csize = r32(s, start + 8) as int;
        let ct = 8 + csize + pad8(csize);
        if end - (start + 8) < ct {
            Err(PodError::ParseError)
        } else {
            match parse_pod(s, start + 8, start + 8 + ct) {
                Ok((v, _)) => match parse_props(s, start + 8 + ct, end) {
                    Ok(rest) => Ok(
                        seq![
                            PropertyView { key: r32(s, start), flags: r32(s, start + 4), value: v },
                        ] + rest,
                    ),
                    Err(e) => Err(e),
                },
                Err(e) => Err(e),
            }
        }
    }
}

// ---------------------------------------------------------------------------
// Length facts
// ---------------------------------------------------------------------------

pub broadcast proof fn lemma_w32_len(x: u32)
    ensures
        (#[trigger] w32(x)).len() == 4,
{
    lemma_auto_spec_u32_to_from_le_bytes();
}

pub broadcast proof fn lemma_w64_len(x: u64)
    ensures
        (#[trigger] w64(x)).len() == 8,
{
    lemma_auto_spec_u64_to_from_le_bytes();
}

/// A run of same-size elements encodes to `count * size` bytes.
pub proof fn lemma_enc_elems_len<T>(l: Seq<T>, f: spec_fn(T) -> Seq<u8>, esz: int)
    requires
        forall|x: T| (#[trigger] f(x)).len() == esz,
    ensures
        enc_elems(l, f).len() == l.len() * esz,
    decreases l.len(),
{
    if l.len() > 0 {
        lemma_enc_elems_len(l.drop_first(), f, esz);
        assert(l.len() * esz == (l.len() - 1) * esz + esz) by (nonlinear_arith);
    }
}

/// The encoded length of a pod: header, body, padding; always a
/// positive multiple of 8.
pub proof fn lemma_enc_pod_len(v: PodView)
    ensures
        enc_pod(v).len() == 8 + pod_body(v).len() + pad8(pod_body(v).len() as int),
        enc_pod(v).len() % 8 == 0,
        8 <= enc_pod(v).len(),
        pad8(pod_body(v).len() as int) == enc_pod(v).len() - 8 - pod_body(v).len(),
{
    broadcast use lemma_w32_len;

    let n = pod_body(v).len() as int;
    assert(zeros(pad8(n)).len() == pad8(n));
    assert((8 + n + pad8(n)) % 8 == 0) by {
        if n % 8 != 0 {
            assert((8 + n + (8 - n % 8)) % 8 == 0) by (nonlinear_arith);
        }
    }
}

/// The serialized length of every pod is a multiple of 8.
pub proof fn lemma_pod_encoding_aligned(v: PodView)
    ensures
        enc_pod(v).len() % 8 == 0,
{
    lemma_enc_pod_len(v);
}

// ---------------------------------------------------------------------------
// Windows: a byte run standing at an offset of a larger sequence
// ---------------------------------------------------------------------------

/// `w` occupies `s[i .. i + w.len())`.
pub open spec fn holds_at(s: Seq<u8>, i: int, w: Seq<u8>) -> bool {
    &&& 0 <= i
    &&& i + w.len() <= s.len()
    &&& s.subrange(i, i + w.len() as int) == w
}

/// Each byte of a window can be read off `s` directly.
pub proof fn lemma_holds_at_index(s: Seq<u8>, i: int, w: Seq<u8>)
    requires
        holds_at(s, i, w),
    ensures
        forall|j: int| 0 <= j < w.len() ==> s[i + j] == w[j],
{
    assert forall|j: int| 0 <= j < w.len() implies s[i + j] == w[j] by {
        assert(s.subrange(i, i + w.len() as int)[j] == w[j]);
    }
}

/// A window over a concatenation splits into two windows.
pub proof fn lemma_holds_split(s: Seq<u8>, i: int, a: Seq<u8>, b: Seq<u8>)
    requires
        holds_at(s, i, a + b),
    ensures
        holds_at(s, i, a),
        holds_at(s, i + a.len(), b),
{
    lemma_holds_at_index(s, i, a + b);
    assert(s.subrange(i, i + a.len() as int) =~= a);
    assert forall|j: int| 0 <= j < b.len() implies s[i + a.len() + j] == b[j] by {
        assert(s[i + (a.len() + j)] == (a + b)[a.len() + j]);
    }
    assert(s.subrange(i + a.len(), i + a.len() + b.len() as int) =~= b);
}

/// Any inner range of a window is itself a window.
pub proof fn lemma_holds_sub(s: Seq<u8>, i: int, w: Seq<u8>, a: int, b: int)
    requires
        holds_at(s, i, w),
        0 <= a <= b <= w.len(),
    ensures
        holds_at(s, i + a, w.subrange(a, b)),
    decreases b - a,
{
    lemma_holds_at_index(s, i, w);
    assert(s.subrange(i + a, i + b) =~= w.subrange(a, b));
}

/// A 32-bit word read back from its window.
pub proof fn lemma_holds_r32(s: Seq<u8>, i: int, x: u32)
    requires
        holds_at(s, i, w32(x)),
    ensures
        r32(s, i) == x,
{
    broadcast use lemma_w32_len;

    lemma_r32_w32(s, i, x);
}

/// A 64-bit word read back from its window.
pub proof fn lemma_holds_r64(s: Seq<u8>, i: int, x: u64)
    requires
        holds_at(s, i, w64(x)),
    ensures
        r64(s, i) == x,
{
    broadcast use lemma_w64_len;

    lemma_r64_w64(s, i, x);
}

// ---------------------------------------------------------------------------
// Element runs round-trip
// ---------------------------------------------------------------------------

/// Parsing a run of fixed-size elements from where their encoding stands
/// yields the elements, provided the decoder inverts the encoder at every
/// offset of `s`.
pub proof fn lemma_parse_enc_elems<T>(
    s: Seq<u8>,
    pos: int,
    l: Seq<T>,
    f: spec_fn(T) -> Seq<u8>,
    g: spec_fn(Seq<u8>, int) -> T,
    esz: int,
)
    requires
        esz > 0,
        forall|x: T| (#[trigger] f(x)).len() == esz,
        forall|i2: int, x: T|
            0 <= i2 && i2 + esz <= s.len() && s.subrange(i2, i2 + esz) == #[trigger] f(x)
                ==> #[trigger] g(s, i2) == x,
        holds_at(s, pos, enc_elems(l, f)),
    ensures
        parse_elems(s, pos, l.len() as int, esz, g) == l,
    decreases l.len(),
{
    lemma_enc_elems_len(l, f, esz);
    if l.len() == 0 {
        assert(parse_elems(s, pos, 0, esz, g) =~= l);
    } else {
        lemma_holds_split(s, pos, f(l[0]), enc_elems(l.drop_first(), f));
        assert(g(s, pos) == l[0]);
        lemma_parse_enc_elems(s, pos + esz, l.drop_first(), f, g, esz);
        assert(parse_elems(s, pos, l.len() as int, esz, g) =~= l);
    }
}

/// The decoders invert the encoders for every element kind, at any offset.
pub proof fn lemma_dec_bool(s: Seq<u8>)
    ensures
        forall|i2: int, x: bool|
            0 <= i2 && i2 + 4 <= s.len() && s.subrange(i2, i2 + 4) == #[trigger] (fenc_bool())(x)
                ==> #[trigger] (fdec_bool())(s, i2) == x,
{
    assert forall|i2: int, x: bool|
        0 <= i2 && i2 + 4 <= s.len() && s.subrange(i2, i2 + 4) == #[trigger] (fenc_bool())(
            x,
        ) implies #[trigger] (fdec_bool())(s, i2) == x by {
        broadcast use lemma_w32_len;

        if x {
            lemma_r32_w32(s, i2, 1);
        } else {
            lemma_r32_w32(s, i2, 0);
        }
    }
}

pub proof fn lemma_dec_u32(s: Seq<u8>)
    ensures
        forall|i2: int, x: u32|
            0 <= i2 && i2 + 4 <= s.len() && s.subrange(i2, i2 + 4) == #[trigger] (fenc_u32())(x)
                ==> #[trigger] (fdec_u32())(s, i2) == x,
{
    assert forall|i2: int, x: u32|
        0 <= i2 && i2 + 4 <= s.len() && s.subrange(i2, i2 + 4) == #[trigger] (fenc_u32())(
            x,
        ) implies #[trigger] (fdec_u32())(s, i2) == x by {
        broadcast use lemma_w32_len;

        lemma_r32_w32(s, i2, x);
    }
}

pub proof fn lemma_dec_u64(s: Seq<u8>)
    ensures
        forall|i2: int, x: u64|
            0 <= i2 && i2 + 8 <= s.len() && s.subrange(i2, i2 + 8) == #[trigger] (fenc_u64())(x)
                ==> #[trigger] (fdec_u64())(s, i2) == x,
{
    assert forall|i2: int, x: u64|
        0 <= i2 && i2 + 8 <= s.len() && s.subrange(i2, i2 + 8) == #[trigger] (fenc_u64())(
            x,
        ) implies #[trigger] (fdec_u64())(s, i2) == x by {
        broadcast use lemma_w64_len;

        lemma_r64_w64(s, i2, x);
    }
}

pub proof fn lemma_dec_i32(s: Seq<u8>)
    ensures
        forall|i2: int, x: i32|
            0 <= i2 && i2 + 4 <= s.len() && s.subrange(i2, i2 + 4) == #[trigger] (fenc_i32())(x)
                ==> #[trigger] (fdec_i32())(s, i2) == x,
{
    assert forall|i2: int, x: i32|
        0 <= i2 && i2 + 4 <= s.len() && s.subrange(i2, i2 + 4) == #[trigger] (fenc_i32())(
            x,
        ) implies #[trigger] (fdec_i32())(s, i2) == x by {
        broadcast use lemma_w32_len;

        lemma_r32_w32(s, i2, u32_of_i32(x));
    }
}

pub proof fn lemma_dec_i64(s: Seq<u8>)
    ensures
        forall|i2: int, x: i64|
            0 <= i2 && i2 + 8 <= s.len() && s.subrange(i2, i2 + 8) == #[trigger] (fenc_i64())(x)
                ==> #[trigger] (fdec_i64())(s, i2) == x,
{
    assert forall|i2: int, x: i64|
        0 <= i2 && i2 + 8 <= s.len() && s.subrange(i2, i2 + 8) == #[trigger] (fenc_i64())(
            x,
        ) implies #[trigger] (fdec_i64())(s, i2) == x by {
        broadcast use lemma_w64_len;

        lemma_r64_w64(s, i2, u64_of_i64(x));
    }
}

pub proof fn lemma_dec_pair(s: Seq<u8>)
    ensures
        forall|i2: int, x: (u32, u32)|
            0 <= i2 && i2 + 8 <= s.len() && s.subrange(i2, i2 + 8) == #[trigger] (fenc_pair())(x)
                ==> #[trigger] (fdec_pair())(s, i2) == x,
{
    assert forall|i2: int, x: (u32, u32)|
        0 <= i2 && i2 + 8 <= s.len() && s.subrange(i2, i2 + 8) == #[trigger] (fenc_pair())(
            x,
        ) implies #[trigger] (fdec_pair())(s, i2) == x by {
        broadcast use lemma_w32_len;

        assert(holds_at(s, i2, w32(x.0) + w32(x.1)));
        lemma_holds_split(s, i2, w32(x.0), w32(x.1));
        lemma_r32_w32(s, i2, x.0);
        lemma_r32_w32(s, i2 + 4, x.1);
    }
}

/// The header words of an encoded pod read back, and its body stands
/// just after them.
pub proof fn lemma_enc_pod_parts(s: Seq<u8>, start: int, v: PodView)
    requires
        holds_at(s, start, enc_pod(v)),
        pod_body(v).len() < 0x1_0000_0000,
    ensures
        r32(s, start) == pod_body(v).len() as u32,
        r32(s, start + 4) == pod_type_code(v),
        holds_at(s, start + 8, pod_body(v)),
{
    broadcast use lemma_w32_len;

    let bl = pod_body(v).len() as u32;
    let hd = w32(bl) + w32(pod_type_code(v));
    let tail = pod_body(v) + zeros(pad8(pod_body(v).len() as int));
    assert(enc_pod(v) =~= hd + tail);
    lemma_holds_split(s, start, hd, tail);
    lemma_holds_split(s, start, w32(bl), w32(pod_type_code(v)));
    lemma_holds_split(s, start + 8, pod_body(v), zeros(pad8(pod_body(v).len() as int)));
    lemma_r32_w32(s, start, bl);
    lemma_r32_w32(s, start + 4, pod_type_code(v));
}

// ---------------------------------------------------------------------------
// Round-trip: parsing an encoding yields the encoded value
// ---------------------------------------------------------------------------

/// A choice body rebuilt from its own kind code and elements is itself.
pub proof fn lemma_ce_of_elems<T>(ce: ChoiceEnumView<T>)
    ensures
        ce_elems(ce).len() >= 1,
        ce_kind(ce) <= CHOICE_FLAGS,
        ce_of(ce_kind(ce), ce_elems(ce)) == Ok::<ChoiceEnumView<T>, PodError>(ce),
{
    match ce {
        ChoiceEnumView::Fixed(_) => {
        },
        ChoiceEnumView::Range { .. } => {
        },
        ChoiceEnumView::Step { .. } => {
        },
        ChoiceEnumView::Enum { default, alternatives } => {
            assert((seq![default] + alternatives).drop_first() =~= alternatives);
        },
        ChoiceEnumView::Flags { default, flags } => {
            assert((seq![default] + flags).drop_first() =~= flags);
        },
    }
}

/// Parsing an array body from where its encoding stands yields the array.
proof fn lemma_parse_array_enc(s: Seq<u8>, a: ArrayView, b: int, size: int)
    requires
        a matches ArrayView::Null(l) ==> l.len() == 0,
        size == pod_body(PodView::ValueArray(a)).len(),
        holds_at(s, b, pod_body(PodView::ValueArray(a))),
    ensures
        size >= 8,
        parse_array(s, b, size) == Ok::<ArrayView, PodError>(a),
{
    broadcast use lemma_w32_len, lemma_w64_len;

    let esz = array_elem_size(a);
    let code = array_elem_code(a);
    let elems = array_elems_bytes(a);
    let body = pod_body(PodView::ValueArray(a));
    assert(body =~= (w32(esz as u32) + w32(code)) + elems);
    lemma_holds_split(s, b, w32(esz as u32) + w32(code), elems);
    lemma_holds_split(s, b, w32(esz as u32), w32(code));
    lemma_holds_r32(s, b, esz as u32);
    lemma_holds_r32(s, b + 4, code);
    let nb = size - 8;
    match a {
        ArrayView::Null(l) => {
            assert(l =~= Seq::<()>::empty());
        },
        ArrayView::Bool(l) => {
            assert(forall|x: bool| (#[trigger] (fenc_bool())(x)).len() == 4);
            lemma_enc_elems_len(l, fenc_bool(), 4);
            assert(nb % 4 == 0 && nb / 4 == l.len() as int) by (nonlinear_arith)
                requires nb == l.len() * 4;
            lemma_dec_bool(s);
            lemma_parse_enc_elems(s, b + 8, l, fenc_bool(), fdec_bool(), 4);
        },
        ArrayView::Id(l) => {
            assert(forall|x: u32| (#[trigger] (fenc_u32())(x)).len() == 4);
            lemma_enc_elems_len(l, fenc_u32(), 4);
            assert(nb % 4 == 0 && nb / 4 == l.len() as int) by (nonlinear_arith)
                requires nb == l.len() * 4;
            lemma_dec_u32(s);
            lemma_parse_enc_elems(s, b + 8, l, fenc_u32(), fdec_u32(), 4);
        },
        ArrayView::Int(l) => {
            assert(forall|x: i32| (#[trigger] (fenc_i32())(x)).len() == 4);
            lemma_enc_elems_len(l, fenc_i32(), 4);
            assert(nb % 4 == 0 && nb / 4 == l.len() as int) by (nonlinear_arith)
                requires nb == l.len() * 4;
            lemma_dec_i32(s);
            lemma_parse_enc_elems(s, b + 8, l, fenc_i32(), fdec_i32(), 4);
        },
        ArrayView::Long(l) => {
            assert(forall|x: i64| (#[trigger] (fenc_i64())(x)).len() == 8);
            lemma_enc_elems_len(l, fenc_i64(), 8);
            assert(nb % 8 == 0 && nb / 8 == l.len() as int) by (nonlinear_arith)
                requires nb == l.len() * 8;
            lemma_dec_i64(s);
            lemma_parse_enc_elems(s, b + 8, l, fenc_i64(), fdec_i64(), 8);
        },
        ArrayView::Float(l) => {
            assert(forall|x: u32| (#[trigger] (fenc_u32())(x)).len() == 4);
            lemma_enc_elems_len(l, fenc_u32(), 4);
            assert(nb % 4 == 0 && nb / 4 == l.len() as int) by (nonlinear_arith)
                requires nb == l.len() * 4;
            lemma_dec_u32(s);
            lemma_parse_enc_elems(s, b + 8, l, fenc_u32(), fdec_u32(), 4);
        },
        ArrayView::Double(l) => {
            assert(forall|x: u64| (#[trigger] (fenc_u64())(x)).len() == 8);
            lemma_enc_elems_len(l, fenc_u64(), 8);
            assert(nb % 8 == 0 && nb / 8 == l.len() as int) by (nonlinear_arith)
                requires nb == l.len() * 8;
            lemma_dec_u64(s);
            lemma_parse_enc_elems(s, b + 8, l, fenc_u64(), fdec_u64(), 8);
        },
        ArrayView::Rectangle(l) => {
            assert(forall|x: (u32, u32)| (#[trigger] (fenc_pair())(x)).len() == 8);
            lemma_enc_elems_len(l, fenc_pair(), 8);
            assert(nb % 8 == 0 && nb / 8 == l.len() as int) by (nonlinear_arith)
                requires nb == l.len() * 8;
            lemma_dec_pair(s);
            lemma_parse_enc_elems(s, b + 8, l, fenc_pair(), fdec_pair(), 8);
        },
        ArrayView::Fraction(l) => {
            assert(forall|x: (u32, u32)| (#[trigger] (fenc_pair())(x)).len() == 8);
            lemma_enc_elems_len(l, fenc_pair(), 8);
            assert(nb % 8 == 0 && nb / 8 == l.len() as int) by (nonlinear_arith)
                requires nb == l.len() * 8;
            lemma_dec_pair(s);
            lemma_parse_enc_elems(s, b + 8, l, fenc_pair(), fdec_pair(), 8);
        },
        ArrayView::Fd(l) => {
            assert(forall|x: i64| (#[trigger] (fenc_i64())(x)).len() == 8);
            lemma_enc_elems_len(l, fenc_i64(), 8);
            assert(nb % 8 == 0 && nb / 8 == l.len() as int) by (nonlinear_arith)
                requires nb == l.len() * 8;
            lemma_dec_i64(s);
            lemma_parse_enc_elems(s, b + 8, l, fenc_i64(), fdec_i64(), 8);
        },
    }
}

/// Parsing a choice body from where its encoding stands yields the choice.
proof fn lemma_parse_choice_enc(s: Seq<u8>, c: ChoiceView, b: int, size: int)
    requires
        size == pod_body(PodView::Choice(c)).len(),
        holds_at(s, b, pod_body(PodView::Choice(c))),
    ensures
        size >= 16,
        parse_choice(s, b, size) == Ok::<ChoiceView, PodError>(c),
{
    broadcast use lemma_w32_len, lemma_w64_len;

    let kind = choice_kind(c);
    let fl = choice_flags(c);
    let esz = choice_elem_size(c);
    let code = choice_elem_code(c);
    let elems = choice_elems_bytes(c);
    let body = pod_body(PodView::Choice(c));
    assert(body =~= (w32(kind) + w32(fl) + w32(esz as u32) + w32(code)) + elems);
    lemma_holds_split(s, b, w32(kind) + w32(fl) + w32(esz as u32) + w32(code), elems);
    assert(w32(kind) + w32(fl) + w32(esz as u32) + w32(code) =~= (w32(kind) + w32(fl)) + (w32(
        esz as u32,
    ) + w32(code)));
    lemma_holds_split(s, b, w32(kind) + w32(fl), w32(esz as u32) + w32(code));
    lemma_holds_split(s, b, w32(kind), w32(fl));
    lemma_holds_split(s, b + 8, w32(esz as u32), w32(code));
    lemma_holds_r32(s, b, kind);
    lemma_holds_r32(s, b + 4, fl);
    lemma_holds_r32(s, b + 8, esz as u32);
    lemma_holds_r32(s, b + 12, code);
    let nb = size - 16;
    match c {
        ChoiceView::Bool(_, ce) => {
            assert(forall|x: bool| (#[trigger] (fenc_bool())(x)).len() == 4);
            lemma_enc_elems_len(ce_elems(ce), fenc_bool(), 4);
            assert(nb % 4 == 0 && nb / 4 == ce_elems(ce).len() as int) by (nonlinear_arith)
                requires nb == ce_elems(ce).len() * 4;
            lemma_dec_bool(s);
            lemma_parse_enc_elems(s, b + 16, ce_elems(ce), fenc_bool(), fdec_bool(), 4);
            lemma_ce_of_elems(ce);
        },
        ChoiceView::Int(_, ce) => {
            assert(forall|x: i32| (#[trigger] (fenc_i32())(x)).len() == 4);
            lemma_enc_elems_len(ce_elems(ce), fenc_i32(), 4);
            assert(nb % 4 == 0 && nb / 4 == ce_elems(ce).len() as int) by (nonlinear_arith)
                requires nb == ce_elems(ce).len() * 4;
            lemma_dec_i32(s);
            lemma_parse_enc_elems(s, b + 16, ce_elems(ce), fenc_i32(), fdec_i32(), 4);
            lemma_ce_of_elems(ce);
        },
        ChoiceView::Long(_, ce) => {
            assert(forall|x: i64| (#[trigger] (fenc_i64())(x)).len() == 8);
            lemma_enc_elems_len(ce_elems(ce), fenc_i64(), 8);
            assert(nb % 8 == 0 && nb / 8 == ce_elems(ce).len() as int) by (nonlinear_arith)
                requires nb == ce_elems(ce).len() * 8;
            lemma_dec_i64(s);
            lemma_parse_enc_elems(s, b + 16, ce_elems(ce), fenc_i64(), fdec_i64(), 8);
            lemma_ce_of_elems(ce);
        },
        ChoiceView::Float(_, ce) => {
            assert(forall|x: u32| (#[trigger] (fenc_u32())(x)).len() == 4);
            lemma_enc_elems_len(ce_elems(ce), fenc_u32(), 4);
            assert(nb % 4 == 0 && nb / 4 == ce_elems(ce).len() as int) by (nonlinear_arith)
                requires nb == ce_elems(ce).len() * 4;
            lemma_dec_u32(s);
            lemma_parse_enc_elems(s, b + 16, ce_elems(ce), fenc_u32(), fdec_u32(), 4);
            lemma_ce_of_elems(ce);
        },
        ChoiceView::Double(_, ce) => {
            assert(forall|x: u64| (#[trigger] (fenc_u64())(x)).len() == 8);
            lemma_enc_elems_len(ce_elems(ce), fenc_u64(), 8);
            assert(nb % 8 == 0 && nb / 8 == ce_elems(ce).len() as int) by (nonlinear_arith)
                requires nb == ce_elems(ce).len() * 8;
            lemma_dec_u64(s);
            lemma_parse_enc_elems(s, b + 16, ce_elems(ce), fenc_u64(), fdec_u64(), 8);
            lemma_ce_of_elems(ce);
        },
        ChoiceView::Id(_, ce) => {
            assert(forall|x: u32| (#[trigger] (fenc_u32())(x)).len() == 4);
            lemma_enc_elems_len(ce_elems(ce), fenc_u32(), 4);
            assert(nb % 4 == 0 && nb / 4 == ce_elems(ce).len() as int) by (nonlinear_arith)
                requires nb == ce_elems(ce).len() * 4;
            lemma_dec_u32(s);
            lemma_parse_enc_elems(s, b + 16, ce_elems(ce), fenc_u32(), fdec_u32(), 4);
            lemma_ce_of_elems(ce);
        },
        ChoiceView::Rectangle(_, ce) => {
            assert(forall|x: (u32, u32)| (#[trigger] (fenc_pair())(x)).len() == 8);
            lemma_enc_elems_len(ce_elems(ce), fenc_pair(), 8);
            assert(nb % 8 == 0 && nb / 8 == ce_elems(ce).len() as int) by (nonlinear_arith)
                requires nb == ce_elems(ce).len() * 8;
            lemma_dec_pair(s);
            lemma_parse_enc_elems(s, b + 16, ce_elems(ce), fenc_pair(), fdec_pair(), 8);
            lemma_ce_of_elems(ce);
        },
        ChoiceView::Fraction(_, ce) => {
            assert(forall|x: (u32, u32)| (#[trigger] (fenc_pair())(x)).len() == 8);
            lemma_enc_elems_len(ce_elems(ce), fenc_pair(), 8);
            assert(nb % 8 == 0 && nb / 8 == ce_elems(ce).len() as int) by (nonlinear_arith)
                requires nb == ce_elems(ce).len() * 8;
            lemma_dec_pair(s);
            lemma_parse_enc_elems(s, b + 16, ce_elems(ce), fenc_pair(), fdec_pair(), 8);
            lemma_ce_of_elems(ce);
        },
        ChoiceView::Fd(_, ce) => {
            assert(forall|x: i64| (#[trigger] (fenc_i64())(x)).len() == 8);
            lemma_enc_elems_len(ce_elems(ce), fenc_i64(), 8);
            assert(nb % 8 == 0 && nb / 8 == ce_elems(ce).len() as int) by (nonlinear_arith)
                requires nb == ce_elems(ce).len() * 8;
            lemma_dec_i64(s);
            lemma_parse_enc_elems(s, b + 16, ce_elems(ce), fenc_i64(), fdec_i64(), 8);
            lemma_ce_of_elems(ce);
        },
    }
}

/// Parsing from where the encoding of a well-formed pod stands yields
/// that pod and consumes exactly its encoding.
pub proof fn lemma_parse_enc(s: Seq<u8>, v: PodView, start: int, end: int)
    requires
        pod_wf(v),
        holds_at(s, start, enc_pod(v)),
        start + enc_pod(v).len() <= end,
        end <= s.len(),
    ensures
        parse_pod(s, start, end) == Ok::<(PodView, int), PodError>(
            (v, start + enc_pod(v).len() as int),
        ),
    decreases v, 1int,
{
    broadcast use lemma_w32_len, lemma_w64_len;

    lemma_enc_pod_len(v);
    let bl = pod_body(v).len() as int;
    lemma_enc_pod_parts(s, start, v);
    let b = start + 8;
    let np = start + enc_pod(v).len();
    match v {
        PodView::Null => {
        },
        PodView::Bool(x) => {
            if x {
                lemma_holds_r32(s, b, 1);
            } else {
                lemma_holds_r32(s, b, 0);
            }
        },
        PodView::Id(x) => {
            lemma_holds_r32(s, b, x);
        },
        PodView::Int(x) => {
            lemma_holds_r32(s, b, u32_of_i32(x));
        },
        PodView::Long(x) => {
            lemma_holds_r64(s, b, u64_of_i64(x));
        },
        PodView::Float(x) => {
            lemma_holds_r32(s, b, x);
        },
        PodView::Double(x) => {
            lemma_holds_r64(s, b, x);
        },
        PodView::String(p) => {
            lemma_holds_at_index(s, b, p + seq![0u8]);
            assert(s[b + (bl - 1)] == (p + seq![0u8])[p.len() as int]);
            assert(s[b + bl - 1] == 0);
            lemma_holds_sub(s, b, p + seq![0u8], 0, p.len() as int);
            assert((p + seq![0u8]).subrange(0, p.len() as int) =~= p);
            assert(s.subrange(b, b + bl - 1) == p);
        },
        PodView::Bytes(p) => {
            assert(s.subrange(b, b + bl) == p);
        },
        PodView::Rectangle(w, h) => {
            lemma_holds_split(s, b, w32(w), w32(h));
            lemma_holds_r32(s, b, w);
            lemma_holds_r32(s, b + 4, h);
        },
        PodView::Fraction(n, d) => {
            lemma_holds_split(s, b, w32(n), w32(d));
            lemma_holds_r32(s, b, n);
            lemma_holds_r32(s, b + 4, d);
        },
        PodView::Fd(x) => {
            lemma_holds_r64(s, b, u64_of_i64(x));
        },
        PodView::Pointer(ty, addr) => {
            assert(pod_body(v) =~= (w32(ty) + w32(0)) + w64(addr));
            lemma_holds_split(s, b, w32(ty) + w32(0), w64(addr));
            lemma_holds_split(s, b, w32(ty), w32(0));
            lemma_holds_r32(s, b, ty);
            lemma_holds_r64(s, b + 8, addr);
        },
        PodView::ValueArray(a) => {
            lemma_parse_array_enc(s, a, b, bl);
        },
        PodView::Choice(c) => {
            lemma_parse_choice_enc(s, c, b, bl);
        },
        PodView::Struct(l) => {
            lemma_parse_enc_pods(s, l, b, b + bl);
        },
        PodView::Object(o) => {
            assert(pod_body(v) =~= (w32(o.type_) + w32(o.id)) + enc_props(o.properties));
            lemma_holds_split(s, b, w32(o.type_) + w32(o.id), enc_props(o.properties));
            lemma_holds_split(s, b, w32(o.type_), w32(o.id));
            lemma_holds_r32(s, b, o.type_);
            lemma_holds_r32(s, b + 4, o.id);
            lemma_parse_enc_props(s, o.properties, b + 8, b + bl);
            assert(ObjectView { type_: r32(s, b), id: r32(s, b + 4), properties: o.properties }
                == o);
        },
    }
}

/// Parsing from where the encodings of well-formed pods stand back to
/// back yields them all, in order.
pub proof fn lemma_parse_enc_pods(s: Seq<u8>, l: Seq<PodView>, start: int, end: int)
    requires
        wf_pods(l),
        holds_at(s, start, enc_pods(l)),
        end == start + enc_pods(l).len(),
        end <= s.len(),
    ensures
        parse_pods(s, start, end) == Ok::<Seq<PodView>, PodError>(l),
    decreases l, 2int,
{
    if l.len() == 0 {
        assert(l =~= Seq::<PodView>::empty());
    } else {
        let v0 = l[0];
        let rest = l.drop_first();
        assert(pod_wf(v0) && wf_pods(rest));
        lemma_holds_split(s, start, enc_pod(v0), enc_pods(rest));
        lemma_enc_pod_len(v0);
        lemma_enc_pod_parts(s, start, v0);
        let ct = enc_pod(v0).len() as int;
        lemma_parse_enc(s, v0, start, start + ct);
        lemma_parse_enc_pods(s, rest, start + ct, end);
        assert(seq![v0] + rest =~= l);
    }
}

/// Parsing from where the encodings of well-formed properties stand back
/// to back yields them all, in order.
pub proof fn lemma_parse_enc_props(s: Seq<u8>, ps: Seq<PropertyView>, start: int, end: int)
    requires
        wf_props(ps),
        holds_at(s, start, enc_props(ps)),
        end == start + enc_props(ps).len(),
        end <= s.len(),
    ensures
        parse_props(s, start, end) == Ok::<Seq<PropertyView>, PodError>(ps),
    decreases ps, 2int,
{
    broadcast use lemma_w32_len;

    if ps.len() == 0 {
        assert(ps =~= Seq::<PropertyView>::empty());
    } else {
        let p0 = ps[0];
        let rest = ps.drop_first();
        assert(pod_wf(p0.value) && wf_props(rest));
        assert(enc_props(ps) =~= (w32(p0.key) + w32(p0.flags)) + (enc_pod(p0.value) + enc_props(
            rest,
        )));
        lemma_holds_split(s, start, w32(p0.key) + w32(p0.flags), enc_pod(p0.value) + enc_props(
            rest,
        ));
        lemma_holds_split(s, start, w32(p0.key), w32(p0.flags));
        lemma_holds_r32(s, start, p0.key);
        lemma_holds_r32(s, start + 4, p0.flags);
        lemma_holds_split(s, start + 8, enc_pod(p0.value), enc_props(rest));
        lemma_enc_pod_len(p0.value);
        lemma_enc_pod_parts(s, start + 8, p0.value);
        let ct = enc_pod(p0.value).len() as int;
        lemma_parse_enc(s, p0.value, start + 8, start + 8 + ct);
        lemma_parse_enc_props(s, rest, start + 8 + ct, end);
        assert(seq![p0] + rest =~= ps);
    }
}

/// Round-trip: for every well-formed pod value, parsing its encoding
/// (whatever bytes follow it) yields the value back and consumes exactly
/// the encoding.
pub proof fn lemma_pod_round_trip(v: PodView, rest: Seq<u8>)
    requires
        pod_wf(v),
    ensures
        parse_pod(enc_pod(v) + rest, 0, (enc_pod(v) + rest).len() as int) == Ok::<
            (PodView, int),
            PodError,
        >((v, enc_pod(v).len() as int)),
{
    let s = enc_pod(v) + rest;
    assert(s.subrange(0, enc_pod(v).len() as int) =~= enc_pod(v));
    lemma_parse_enc(s, v, 0, s.len() as int);
}

// ---------------------------------------------------------------------------
// Concatenation facts used by the executable codec
// ---------------------------------------------------------------------------

/// Element runs encode piecewise.
pub proof fn lemma_enc_elems_concat<T>(a: Seq<T>, b: Seq<T>, f: spec_fn(T) -> Seq<u8>)
    ensures
        enc_elems(a + b, f) == enc_elems(a, f) + enc_elems(b, f),
    decreases a.len(),
{
    if a.len() == 0 {
        assert(a + b =~= b);
        assert(enc_elems(a, f) + enc_elems(b, f) =~= enc_elems(b, f));
    } else {
        assert((a + b).drop_first() =~= a.drop_first() + b);
        lemma_enc_elems_concat(a.drop_first(), b, f);
        assert((a + b)[0] == a[0]);
        assert(f(a[0]) + (enc_elems(a.drop_first(), f) + enc_elems(b, f)) =~= (f(a[0]) + enc_elems(
            a.drop_first(),
            f,
        )) + enc_elems(b, f));
    }
}

/// The encoding of a single element.
pub proof fn lemma_enc_elems_one<T>(x: T, f: spec_fn(T) -> Seq<u8>)
    ensures
        enc_elems(seq![x], f) == f(x),
{
    assert(seq![x].drop_first() =~= Seq::<T>::empty());
    assert(f(x) + enc_elems(Seq::<T>::empty(), f) =~= f(x));
}

/// Pod runs encode piecewise.
pub proof fn lemma_enc_pods_concat(a: Seq<PodView>, b: Seq<PodView>)
    ensures
        enc_pods(a + b) == enc_pods(a) + enc_pods(b),
    decreases a.len(),
{
    if a.len() == 0 {
        assert(a + b =~= b);
        assert(enc_pods(a) + enc_pods(b) =~= enc_pods(b));
    } else {
        assert((a + b).drop_first() =~= a.drop_first() + b);
        lemma_enc_pods_concat(a.drop_first(), b);
        assert((a + b)[0] == a[0]);
        assert(enc_pod(a[0]) + (enc_pods(a.drop_first()) + enc_pods(b)) =~= (enc_pod(a[0])
            + enc_pods(a.drop_first())) + enc_pods(b));
    }
}

/// The encoding of a single pod in a run.
pub proof fn lemma_enc_pods_one(v: PodView)
    ensures
        enc_pods(seq![v]) == enc_pod(v),
{
    assert(seq![v].drop_first() =~= Seq::<PodView>::empty());
    assert(enc_pod(v) + enc_pods(Seq::<PodView>::empty()) =~= enc_pod(v));
}

/// Well-formedness of a pod run splits piecewise.
pub proof fn lemma_wf_pods_concat(a: Seq<PodView>, b: Seq<PodView>)
    ensures
        wf_pods(a + b) <==> (wf_pods(a) && wf_pods(b)),
    decreases a.len(),
{
    if a.len() == 0 {
        assert(a + b =~= b);
    } else {
        assert((a + b).drop_first() =~= a.drop_first() + b);
        lemma_wf_pods_concat(a.drop_first(), b);
        assert((a + b)[0] == a[0]);
    }
}

/// Property runs encode piecewise.
pub proof fn lemma_enc_props_concat(a: Seq<PropertyView>, b: Seq<PropertyView>)
    ensures
        enc_props(a + b) == enc_props(a) + enc_props(b),
    decreases a.len(),
{
    if a.len() == 0 {
        assert(a + b =~= b);
        assert(enc_props(a) + enc_props(b) =~= enc_props(b));
    } else {
        assert((a + b).drop_first() =~= a.drop_first() + b);
        lemma_enc_props_concat(a.drop_first(), b);
        assert((a + b)[0] == a[0]);
        let h = w32((a + b)[0].key) + w32((a + b)[0].flags) + enc_pod((a + b)[0].value);
        assert(h + (enc_props(a.drop_first()) + enc_props(b)) =~= (h + enc_props(a.drop_first()))
            + enc_props(b));
    }
}

/// The encoding of a single property in a run.
pub proof fn lemma_enc_props_one(pv: PropertyView)
    ensures
        enc_props(seq![pv]) == w32(pv.key) + w32(pv.flags) + enc_pod(pv.value),
{
    assert(seq![pv].drop_first() =~= Seq::<PropertyView>::empty());
    assert((w32(pv.key) + w32(pv.flags) + enc_pod(pv.value)) + enc_props(
        Seq::<PropertyView>::empty(),
    ) =~= w32(pv.key) + w32(pv.flags) + enc_pod(pv.value));
}

/// Well-formedness of a property run splits piecewise.
pub proof fn lemma_wf_props_concat(a: Seq<PropertyView>, b: Seq<PropertyView>)
    ensures
        wf_props(a + b) <==> (wf_props(a) && wf_props(b)),
    decreases a.len(),
{
    if a.len() == 0 {
        assert(a + b =~= b);
    } else {
        assert((a + b).drop_first() =~= a.drop_first() + b);
        lemma_wf_props_concat(a.drop_first(), b);
        assert((a + b)[0] == a[0]);
    }
}

/// Reading one more element extends the run at its end.
pub proof fn lemma_parse_elems_snoc<T>(
    s: Seq<u8>,
    pos: int,
    n: int,
    esz: int,
    g: spec_fn(Seq<u8>, int) -> T,
)
    requires
        n >= 0,
    ensures
        parse_elems(s, pos, n + 1, esz, g) == parse_elems(s, pos, n, esz, g).push(
            g(s, pos + n * esz),
        ),
    decreases n,
{
    if n == 0 {
        assert(parse_elems(s, pos + esz, 0, esz, g) =~= Seq::<T>::empty());
        assert(parse_elems(s, pos, 1, esz, g) =~= parse_elems(s, pos, 0, esz, g).push(g(s, pos)));
    } else {
        lemma_parse_elems_snoc(s, pos + esz, n - 1, esz, g);
        assert(pos + esz + (n - 1) * esz == pos + n * esz) by (nonlinear_arith);
        assert(parse_elems(s, pos, n + 1, esz, g) =~= parse_elems(s, pos, n, esz, g).push(
            g(s, pos + n * esz),
        ));
    }
}

/// Every pod of a well-formed run is well-formed.
pub proof fn lemma_wf_pods_index(l: Seq<PodView>, i: int)
    requires
        wf_pods(l),
        0 <= i < l.len(),
    ensures
        pod_wf(l[i]),
    decreases i,
{
    if i > 0 {
        lemma_wf_pods_index(l.drop_first(), i - 1);
    }
}

/// Every value of a well-formed property run is well-formed.
pub proof fn lemma_wf_props_index(ps: Seq<PropertyView>, i: int)
    requires
        wf_props(ps),
        0 <= i < ps.len(),
    ensures
        pod_wf(ps[i].value),
    decreases i,
{
    if i > 0 {
        lemma_wf_props_index(ps.drop_first(), i - 1);
    }
}

/// Mapping a choice body's elements through an element view commutes
/// with reading its kind and its element run.
pub proof fn lemma_ce_elems_map<T, U>(cev: ChoiceEnumView<T>, f: spec_fn(T) -> U)
    ensures
        ce_kind(cev_map(cev, f)) == ce_kind(cev),
        ce_elems(cev_map(cev, f)) == ce_elems(cev).map_values(f),
{
    match cev {
        ChoiceEnumView::Fixed(d) => {
            assert(ce_elems(cev_map(cev, f)) =~= ce_elems(cev).map_values(f));
        },
        ChoiceEnumView::Range { .. } => {
            assert(ce_elems(cev_map(cev, f)) =~= ce_elems(cev).map_values(f));
        },
        ChoiceEnumView::Step { .. } => {
            assert(ce_elems(cev_map(cev, f)) =~= ce_elems(cev).map_values(f));
        },
        ChoiceEnumView::Enum { .. } => {
            assert(ce_elems(cev_map(cev, f)) =~= ce_elems(cev).map_values(f));
        },
        ChoiceEnumView::Flags { .. } => {
            assert(ce_elems(cev_map(cev, f)) =~= ce_elems(cev).map_values(f));
        },
    }
}

/// Rebuilding a choice from mapped elements maps the rebuilt choice.
pub proof fn lemma_ce_of_map<T, U>(ctype: u32, s: Seq<T>, f: spec_fn(T) -> U)
    ensures
        ce_of(ctype, s.map_values(f)) == (match ce_of(ctype, s) {
            Ok(cev) => Ok::<ChoiceEnumView<U>, PodError>(cev_map(cev, f)),
            Err(e) => Err(e),
        }),
{
    assert(s.map_values(f).len() == s.len());
    if ctype == CHOICE_ENUM && s.len() >= 1 {
        assert(s.map_values(f).drop_first() =~= s.drop_first().map_values(f));
    }
    if ctype == CHOICE_FLAGS && s.len() >= 1 {
        assert(s.map_values(f).drop_first() =~= s.drop_first().map_values(f));
    }
}

// ---------------------------------------------------------------------------
// Fd pods in a payload
// ---------------------------------------------------------------------------

/// The number of Fd-typed pods in a pod tree: the frame header's fourth
/// word must carry this count, since ancillary fds map positionally.
pub open spec fn pod_fd_count(v: PodView) -> int
    decreases v, 1int,
{
    match v {
        PodView::Fd(_) => 1,
        PodView::Struct(l) => fd_count_pods(l),
        PodView::Object(o) => fd_count_props(o.properties),
        _ => 0,
    }
}

/// The Fd pods in a run of pods.
pub open spec fn fd_count_pods(l: Seq<PodView>) -> int
    decreases l, 2int,
{
    if l.len() <= 0 {
        0
    } else {
        pod_fd_count(l[0]) + fd_count_pods(l.drop_first())
    }
}

/// The Fd pods in a run of object properties.
pub open spec fn fd_count_props(ps: Seq<PropertyView>) -> int
    decreases ps, 2int,
{
    if ps.len() <= 0 {
        0
    } else {
        pod_fd_count(ps[0].value) + fd_count_props(ps.drop_first())
    }
}

/// Each Fd pod occupies at least 8 encoded bytes, so the count is
/// bounded by an eighth of the encoding.
pub proof fn lemma_fd_count_bound(v: PodView)
    ensures
        0 <= pod_fd_count(v),
        8 * pod_fd_count(v) <= enc_pod(v).len(),
    decreases v, 1int,
{
    lemma_enc_pod_len(v);
    match v {
        PodView::Struct(l) => {
            lemma_fd_count_pods_bound(l);
        },
        PodView::Object(o) => {
            lemma_fd_count_props_bound(o.properties);
        },
        _ => {},
    }
}

pub proof fn lemma_fd_count_pods_bound(l: Seq<PodView>)
    ensures
        0 <= fd_count_pods(l),
        8 * fd_count_pods(l) <= enc_pods(l).len(),
    decreases l, 2int,
{
    if l.len() > 0 {
        lemma_fd_count_bound(l[0]);
        lemma_fd_count_pods_bound(l.drop_first());
    }
}

pub proof fn lemma_fd_count_props_bound(ps: Seq<PropertyView>)
    ensures
        0 <= fd_count_props(ps),
        8 * fd_count_props(ps) <= enc_props(ps).len(),
    decreases ps, 2int,
{
    broadcast use lemma_w32_len;

    if ps.len() > 0 {
        lemma_fd_count_bound(ps[0].value);
        lemma_fd_count_props_bound(ps.drop_first());
    }
}

/// Fd counts add up over concatenated runs.
pub proof fn lemma_fd_count_pods_concat(a: Seq<PodView>, b: Seq<PodView>)
    ensures
        fd_count_pods(a + b) == fd_count_pods(a) + fd_count_pods(b),
    decreases a.len(),
{
    if a.len() == 0 {
        assert(a + b =~= b);
    } else {
        assert((a + b).drop_first() =~= a.drop_first() + b);
        assert((a + b)[0] == a[0]);
        lemma_fd_count_pods_concat(a.drop_first(), b);
    }
}

pub proof fn lemma_fd_count_props_concat(a: Seq<PropertyView>, b: Seq<PropertyView>)
    ensures
        fd_count_props(a + b) == fd_count_props(a) + fd_count_props(b),
    decreases a.len(),
{
    if a.len() == 0 {
        assert(a + b =~= b);
    } else {
        assert((a + b).drop_first() =~= a.drop_first() + b);
        assert((a + b)[0] == a[0]);
        lemma_fd_count_props_concat(a.drop_first(), b);
    }
}

/// Integer pods encode to 16 bytes each; a struct of up to a thousand
/// of them is well-formed and small.
pub proof fn lemma_int_pods(l: Seq<PodView>)
    requires
        forall|i: int| 0 <= i < l.len() ==> (#[trigger] l[i]) is Int,
    ensures
        wf_pods(l),
        enc_pods(l).len() == 16 * l.len(),
    decreases l.len(),
{
    broadcast use lemma_w32_len;

    if l.len() > 0 {
        assert(l[0] is Int);
        lemma_enc_pod_len(l[0]);
        assert(pod_body(l[0]).len() == 4);
        assert(enc_pod(l[0]).len() == 16);
        assert(pod_wf(l[0]));
        assert forall|i: int| 0 <= i < l.drop_first().len() implies (#[trigger] l.drop_first()[
        i]) is Int by {
            assert(l.drop_first()[i] == l[i + 1]);
        }
        lemma_int_pods(l.drop_first());
    }
}

/// A struct pod of up to a thousand integer fields is well-formed and
/// fits a frame's 24-bit size field.
pub proof fn lemma_int_struct_small(l: Seq<PodView>)
    requires
        forall|i: int| 0 <= i < l.len() ==> (#[trigger] l[i]) is Int,
        l.len() <= 1000,
    ensures
        pod_wf(PodView::Struct(l)),
        enc_pod(PodView::Struct(l)).len() == 8 + 16 * l.len(),
{
    lemma_int_pods(l);
    lemma_enc_pod_len(PodView::Struct(l));
    assert(pod_body(PodView::Struct(l)).len() == 16 * l.len());
    assert((16 * l.len()) % 8 == 0) by (nonlinear_arith);
}

} // verus!
