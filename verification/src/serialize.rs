//! The executable POD serializer, specified exactly against `enc_pod`:
//! on success the bytes appended are the canonical encoding of the value;
//! serialization fails exactly on values that are not well-formed
//! (a size field would overflow, or a `Null` array is non-empty).

use vstd::bytes::{u32_to_le_bytes, u64_to_le_bytes};
use vstd::prelude::*;

use crate::codec::{
    ce_elems, ce_kind, enc_bool, enc_elems, enc_i32v, enc_i64v, enc_pair, enc_pod, enc_pods,
    enc_props, fenc_bool, fenc_i32, fenc_i64, fenc_pair, fenc_u32, fenc_u64, lemma_enc_elems_concat,
    lemma_enc_elems_len, lemma_enc_elems_one, lemma_enc_pods_concat, lemma_enc_pods_one,
    lemma_enc_props_concat, lemma_enc_props_one, lemma_wf_pods_concat, lemma_wf_props_concat,
    pad8, pod_body, pod_type_code, pod_wf, u32_of_i32, u64_of_i64, w32, w64, wf_pods, wf_props,
    zeros, CHOICE_ENUM, CHOICE_FLAGS, CHOICE_NONE, CHOICE_RANGE, CHOICE_STEP, TYPE_ARRAY,
    TYPE_BOOL, TYPE_BYTES, TYPE_CHOICE, TYPE_DOUBLE, TYPE_FD, TYPE_FLOAT, TYPE_FRACTION, TYPE_ID,
    TYPE_INT, TYPE_LONG, TYPE_NONE, TYPE_OBJECT, TYPE_POINTER, TYPE_RECTANGLE, TYPE_STRING,
    TYPE_STRUCT,
};
use crate::error::PodError;
use crate::value::{
    choice_enum_view, choice_view, fident, fview_fd, fview_frac, fview_id, fview_rect,
    lemma_pod_views, lemma_property_views, pod_view, pod_views, property_views, ArrayView, Choice,
    ChoiceEnum, ChoiceEnumView, ChoiceValue, Fd, Fraction, Id, PodView, Property, PropertyView,
    Rectangle, Value, ValueArray,
};

verus! {

/// Appends the little-endian bytes of a 32-bit word.
pub fn write_u32(out: &mut Vec<u8>, x: u32)
    ensures
        final(out)@ == old(out)@ + w32(x),
{
    let mut b = u32_to_le_bytes(x);
    out.append(&mut b);
}

/// Appends the little-endian bytes of a 64-bit word.
pub fn write_u64(out: &mut Vec<u8>, x: u64)
    ensures
        final(out)@ == old(out)@ + w64(x),
{
    let mut b = u64_to_le_bytes(x);
    out.append(&mut b);
}

/// Appends the two's-complement encoding of a signed 32-bit value.
pub fn write_i32(out: &mut Vec<u8>, x: i32)
    ensures
        final(out)@ == old(out)@ + enc_i32v(x),
{
    let u: u32 = if x >= 0 {
        x as u32
    } else {
        ((x as i64) + 0x1_0000_0000i64) as u32
    };
    assert(u == u32_of_i32(x));
    write_u32(out, u);
}

/// Appends the two's-complement encoding of a signed 64-bit value.
pub fn write_i64(out: &mut Vec<u8>, x: i64)
    ensures
        final(out)@ == old(out)@ + enc_i64v(x),
{
    let u: u64 = if x >= 0 {
        x as u64
    } else {
        ((x as i128) + 0x1_0000_0000_0000_0000i128) as u64
    };
    assert(u == u64_of_i64(x));
    write_u64(out, u);
}

/// Appends the zero padding that follows a body of `bl` bytes.
pub fn write_pad(out: &mut Vec<u8>, bl: usize)
    ensures
        final(out)@ == old(out)@ + zeros(pad8(bl as int)),
{
    let p: usize = if bl % 8 == 0 {
        0
    } else {
        8 - bl % 8
    };
    assert(p == pad8(bl as int));
    let mut i: usize = 0;
    while i < p
        invariant
            i <= p,
            out@ == old(out)@ + zeros(i as int),
        decreases p - i,
    {
        out.push(0u8);
        i = i + 1;
        assert(old(out)@ + zeros(i as int) =~= (old(out)@ + zeros(i - 1)).push(0u8));
    }
    assert(zeros(i as int) =~= zeros(pad8(bl as int)));
}

// ---------------------------------------------------------------------------
// Element runs
// ---------------------------------------------------------------------------

fn write_run_bool(out: &mut Vec<u8>, l: &Vec<bool>)
    ensures
        final(out)@ == old(out)@ + enc_elems(l@, fenc_bool()),
{
    let mut i: usize = 0;
    while i < l.len()
        invariant
            i <= l.len(),
            out@ == old(out)@ + enc_elems(l@.take(i as int), fenc_bool()),
        decreases l.len() - i,
    {
        let x = l[i];
        write_u32(out, if x { 1 } else { 0 });
        proof {
            assert(l@.take(i + 1) =~= l@.take(i as int) + seq![l@[i as int]]);
            lemma_enc_elems_concat(l@.take(i as int), seq![l@[i as int]], fenc_bool());
            lemma_enc_elems_one(l@[i as int], fenc_bool());
        }
        i = i + 1;
    }
    assert(l@.take(l@.len() as int) =~= l@);
}

fn write_run_u32(out: &mut Vec<u8>, l: &Vec<u32>)
    ensures
        final(out)@ == old(out)@ + enc_elems(l@, fenc_u32()),
{
    let mut i: usize = 0;
    while i < l.len()
        invariant
            i <= l.len(),
            out@ == old(out)@ + enc_elems(l@.take(i as int), fenc_u32()),
        decreases l.len() - i,
    {
        write_u32(out, l[i]);
        proof {
            assert(l@.take(i + 1) =~= l@.take(i as int) + seq![l@[i as int]]);
            lemma_enc_elems_concat(l@.take(i as int), seq![l@[i as int]], fenc_u32());
            lemma_enc_elems_one(l@[i as int], fenc_u32());
        }
        i = i + 1;
    }
    assert(l@.take(l@.len() as int) =~= l@);
}

fn write_run_i32(out: &mut Vec<u8>, l: &Vec<i32>)
    ensures
        final(out)@ == old(out)@ + enc_elems(l@, fenc_i32()),
{
    let mut i: usize = 0;
    while i < l.len()
        invariant
            i <= l.len(),
            out@ == old(out)@ + enc_elems(l@.take(i as int), fenc_i32()),
        decreases l.len() - i,
    {
        write_i32(out, l[i]);
        proof {
            assert(l@.take(i + 1) =~= l@.take(i as int) + seq![l@[i as int]]);
            lemma_enc_elems_concat(l@.take(i as int), seq![l@[i as int]], fenc_i32());
            lemma_enc_elems_one(l@[i as int], fenc_i32());
        }
        i = i + 1;
    }
    assert(l@.take(l@.len() as int) =~= l@);
}

fn write_run_i64(out: &mut Vec<u8>, l: &Vec<i64>)
    ensures
        final(out)@ == old(out)@ + enc_elems(l@, fenc_i64()),
{
    let mut i: usize = 0;
    while i < l.len()
        invariant
            i <= l.len(),
            out@ == old(out)@ + enc_elems(l@.take(i as int), fenc_i64()),
        decreases l.len() - i,
    {
        write_i64(out, l[i]);
        proof {
            assert(l@.take(i + 1) =~= l@.take(i as int) + seq![l@[i as int]]);
            lemma_enc_elems_concat(l@.take(i as int), seq![l@[i as int]], fenc_i64());
            lemma_enc_elems_one(l@[i as int], fenc_i64());
        }
        i = i + 1;
    }
    assert(l@.take(l@.len() as int) =~= l@);
}

fn write_run_u64(out: &mut Vec<u8>, l: &Vec<u64>)
    ensures
        final(out)@ == old(out)@ + enc_elems(l@, fenc_u64()),
{
    let mut i: usize = 0;
    while i < l.len()
        invariant
            i <= l.len(),
            out@ == old(out)@ + enc_elems(l@.take(i as int), fenc_u64()),
        decreases l.len() - i,
    {
        write_u64(out, l[i]);
        proof {
            assert(l@.take(i + 1) =~= l@.take(i as int) + seq![l@[i as int]]);
            lemma_enc_elems_concat(l@.take(i as int), seq![l@[i as int]], fenc_u64());
            lemma_enc_elems_one(l@[i as int], fenc_u64());
        }
        i = i + 1;
    }
    assert(l@.take(l@.len() as int) =~= l@);
}

fn write_run_id(out: &mut Vec<u8>, l: &Vec<Id>)
    ensures
        final(out)@ == old(out)@ + enc_elems(l@.map_values(fview_id()), fenc_u32()),
{
    let ghost m = l@.map_values(fview_id());
    let mut i: usize = 0;
    while i < l.len()
        invariant
            i <= l.len(),
            m == l@.map_values(fview_id()),
            out@ == old(out)@ + enc_elems(m.take(i as int), fenc_u32()),
        decreases l.len() - i,
    {
        write_u32(out, l[i].0);
        proof {
            assert(m.take(i + 1) =~= m.take(i as int) + seq![m[i as int]]);
            lemma_enc_elems_concat(m.take(i as int), seq![m[i as int]], fenc_u32());
            lemma_enc_elems_one(m[i as int], fenc_u32());
        }
        i = i + 1;
    }
    assert(m.take(m.len() as int) =~= m);
}

fn write_run_fd(out: &mut Vec<u8>, l: &Vec<Fd>)
    ensures
        final(out)@ == old(out)@ + enc_elems(l@.map_values(fview_fd()), fenc_i64()),
{
    let ghost m = l@.map_values(fview_fd());
    let mut i: usize = 0;
    while i < l.len()
        invariant
            i <= l.len(),
            m == l@.map_values(fview_fd()),
            out@ == old(out)@ + enc_elems(m.take(i as int), fenc_i64()),
        decreases l.len() - i,
    {
        write_i64(out, l[i].0);
        proof {
            assert(m.take(i + 1) =~= m.take(i as int) + seq![m[i as int]]);
            lemma_enc_elems_concat(m.take(i as int), seq![m[i as int]], fenc_i64());
            lemma_enc_elems_one(m[i as int], fenc_i64());
        }
        i = i + 1;
    }
    assert(m.take(m.len() as int) =~= m);
}

fn write_run_rect(out: &mut Vec<u8>, l: &Vec<Rectangle>)
    ensures
        final(out)@ == old(out)@ + enc_elems(l@.map_values(fview_rect()), fenc_pair()),
{
    let ghost m = l@.map_values(fview_rect());
    let mut i: usize = 0;
    while i < l.len()
        invariant
            i <= l.len(),
            m == l@.map_values(fview_rect()),
            out@ == old(out)@ + enc_elems(m.take(i as int), fenc_pair()),
        decreases l.len() - i,
    {
        write_u32(out, l[i].width);
        write_u32(out, l[i].height);
        proof {
            assert(m.take(i + 1) =~= m.take(i as int) + seq![m[i as int]]);
            lemma_enc_elems_concat(m.take(i as int), seq![m[i as int]], fenc_pair());
            lemma_enc_elems_one(m[i as int], fenc_pair());
            assert(enc_pair(m[i as int]) == w32(l@[i as int].width) + w32(l@[i as int].height));
        }
        i = i + 1;
    }
    assert(m.take(m.len() as int) =~= m);
}

fn write_run_frac(out: &mut Vec<u8>, l: &Vec<Fraction>)
    ensures
        final(out)@ == old(out)@ + enc_elems(l@.map_values(fview_frac()), fenc_pair()),
{
    let ghost m = l@.map_values(fview_frac());
    let mut i: usize = 0;
    while i < l.len()
        invariant
            i <= l.len(),
            m == l@.map_values(fview_frac()),
            out@ == old(out)@ + enc_elems(m.take(i as int), fenc_pair()),
        decreases l.len() - i,
    {
        write_u32(out, l[i].num);
        write_u32(out, l[i].denom);
        proof {
            assert(m.take(i + 1) =~= m.take(i as int) + seq![m[i as int]]);
            lemma_enc_elems_concat(m.take(i as int), seq![m[i as int]], fenc_pair());
            lemma_enc_elems_one(m[i as int], fenc_pair());
            assert(enc_pair(m[i as int]) == w32(l@[i as int].num) + w32(l@[i as int].denom));
        }
        i = i + 1;
    }
    assert(m.take(m.len() as int) =~= m);
}

// ---------------------------------------------------------------------------
// Choices
// ---------------------------------------------------------------------------

/// The kind code and the element list (default first) that a choice writes.
fn ce_parts<T: Copy>(ce: &ChoiceEnum<T>) -> (r: (u32, Vec<T>))
    ensures
        r.0 == ce_kind(choice_enum_view(*ce, fident::<T>())),
        r.1@ == ce_elems(choice_enum_view(*ce, fident::<T>())),
{
    match ce {
        ChoiceEnum::Fixed(d) => {
            let mut v: Vec<T> = Vec::new();
            v.push(*d);
            assert(v@ =~= ce_elems(choice_enum_view(*ce, fident::<T>())));
            (CHOICE_NONE, v)
        },
        ChoiceEnum::Range { default, min, max } => {
            let mut v: Vec<T> = Vec::new();
            v.push(*default);
            v.push(*min);
            v.push(*max);
            assert(v@ =~= ce_elems(choice_enum_view(*ce, fident::<T>())));
            (CHOICE_RANGE, v)
        },
        ChoiceEnum::Step { default, min, max, step } => {
            let mut v: Vec<T> = Vec::new();
            v.push(*default);
            v.push(*min);
            v.push(*max);
            v.push(*step);
            assert(v@ =~= ce_elems(choice_enum_view(*ce, fident::<T>())));
            (CHOICE_STEP, v)
        },
        ChoiceEnum::Enum { default, alternatives } => {
            let mut v: Vec<T> = Vec::new();
            v.push(*default);
            let mut c = vstd::slice::slice_to_vec(alternatives.as_slice());
            v.append(&mut c);
            assert(alternatives@.map_values(fident::<T>()) =~= alternatives@);
            assert(v@ =~= ce_elems(choice_enum_view(*ce, fident::<T>())));
            (CHOICE_ENUM, v)
        },
        ChoiceEnum::Flags { default, flags } => {
            let mut v: Vec<T> = Vec::new();
            v.push(*default);
            let mut c = vstd::slice::slice_to_vec(flags.as_slice());
            v.append(&mut c);
            assert(flags@.map_values(fident::<T>()) =~= flags@);
            assert(v@ =~= ce_elems(choice_enum_view(*ce, fident::<T>())));
            (CHOICE_FLAGS, v)
        },
    }
}

// ---------------------------------------------------------------------------
// The serializer
// ---------------------------------------------------------------------------

/// Serializes one pod value, appending its canonical encoding. Fails
/// exactly on values that are not well-formed, leaving `out` unspecified.
pub fn serialize_pod_into(v: &Value, out: &mut Vec<u8>) -> (r: Result<(), PodError>)
    ensures
        r is Ok ==> pod_wf(v@) && final(out)@ == old(out)@ + enc_pod(v@),
        r is Err ==> !pod_wf(v@),
    decreases *v,
{
    broadcast use crate::codec::lemma_w32_len, crate::codec::lemma_w64_len;

    match v {
        Value::Null => {
            write_u32(out, 0);
            write_u32(out, TYPE_NONE);
            assert(out@ =~= old(out)@ + enc_pod(v@));
            Ok(())
        },
        Value::Bool(b) => {
            write_u32(out, 4);
            write_u32(out, TYPE_BOOL);
            write_u32(out, if *b { 1 } else { 0 });
            write_pad(out, 4);
            assert(out@ =~= old(out)@ + enc_pod(v@));
            Ok(())
        },
        Value::Id(x) => {
            write_u32(out, 4);
            write_u32(out, TYPE_ID);
            write_u32(out, x.0);
            write_pad(out, 4);
            assert(out@ =~= old(out)@ + enc_pod(v@));
            Ok(())
        },
        Value::Int(x) => {
            write_u32(out, 4);
            write_u32(out, TYPE_INT);
            write_i32(out, *x);
            write_pad(out, 4);
            assert(out@ =~= old(out)@ + enc_pod(v@));
            Ok(())
        },
        Value::Long(x) => {
            write_u32(out, 8);
            write_u32(out, TYPE_LONG);
            write_i64(out, *x);
            assert(out@ =~= old(out)@ + enc_pod(v@));
            Ok(())
        },
        Value::Float(x) => {
            write_u32(out, 4);
            write_u32(out, TYPE_FLOAT);
            write_u32(out, *x);
            write_pad(out, 4);
            assert(out@ =~= old(out)@ + enc_pod(v@));
            Ok(())
        },
        Value::Double(x) => {
            write_u32(out, 8);
            write_u32(out, TYPE_DOUBLE);
            write_u64(out, *x);
            assert(out@ =~= old(out)@ + enc_pod(v@));
            Ok(())
        },
        Value::String(sb) => {
            if sb.len() as u64 >= 0xffff_ffffu64 {
                assert(pod_body(v@).len() >= 0x1_0000_0000);
                return Err(PodError::ParseError);
            }
            let bl = sb.len() + 1;
            write_u32(out, bl as u32);
            write_u32(out, TYPE_STRING);
            let mut c = vstd::slice::slice_to_vec(sb.as_slice());
            out.append(&mut c);
            out.push(0u8);
            write_pad(out, bl);
            assert(out@ =~= old(out)@ + enc_pod(v@));
            Ok(())
        },
        Value::Bytes(bb) => {
            if bb.len() as u64 >= 0x1_0000_0000u64 {
                return Err(PodError::ParseError);
            }
            let bl = bb.len();
            write_u32(out, bl as u32);
            write_u32(out, TYPE_BYTES);
            let mut c = vstd::slice::slice_to_vec(bb.as_slice());
            out.append(&mut c);
            write_pad(out, bl);
            assert(out@ =~= old(out)@ + enc_pod(v@));
            Ok(())
        },
        Value::Rectangle(rc) => {
            write_u32(out, 8);
            write_u32(out, TYPE_RECTANGLE);
            write_u32(out, rc.width);
            write_u32(out, rc.height);
            assert(out@ =~= old(out)@ + enc_pod(v@));
            Ok(())
        },
        Value::Fraction(fr) => {
            write_u32(out, 8);
            write_u32(out, TYPE_FRACTION);
            write_u32(out, fr.num);
            write_u32(out, fr.denom);
            assert(out@ =~= old(out)@ + enc_pod(v@));
            Ok(())
        },
        Value::Fd(fd) => {
            write_u32(out, 8);
            write_u32(out, TYPE_FD);
            write_i64(out, fd.0);
            assert(out@ =~= old(out)@ + enc_pod(v@));
            Ok(())
        },
        Value::Pointer(ty, addr) => {
            write_u32(out, 16);
            write_u32(out, TYPE_POINTER);
            write_u32(out, *ty);
            write_u32(out, 0);
            write_u64(out, *addr);
            assert(out@ =~= old(out)@ + enc_pod(v@));
            Ok(())
        },
        Value::ValueArray(a) => serialize_array_into(a, out),
        Value::Choice(c) => serialize_choice_into(c, out),
        Value::Struct(children) => {
            let ghost views = pod_views(children@);
            proof {
                lemma_pod_views(children@);
            }
            let mut body: Vec<u8> = Vec::new();
            let mut i: usize = 0;
            assert(views.take(0int) =~= Seq::<PodView>::empty());
            while i < children.len()
                invariant
                    i <= children.len(),
                    views == pod_views(children@),
                    views.len() == children@.len(),
                    forall|j: int|
                        0 <= j < children@.len() ==> views[j] == pod_view(#[trigger] children@[j]),
                    body@ == enc_pods(views.take(i as int)),
                    wf_pods(views.take(i as int)),
                    *v == Value::Struct(*children),
                decreases children.len() - i,
            {
                proof {
                    assert(*v == Value::Struct(*children));
                    assert(decreases_to!(*v => (*v)->Struct_0));
                    assert(decreases_to!(*children => children@[i as int]));
                }
                let res = serialize_pod_into(&children[i], &mut body);
                if res.is_err() {
                    proof {
                        assert(!pod_wf(views[i as int]));
                        if wf_pods(views) {
                            crate::codec::lemma_wf_pods_index(views, i as int);
                        }
                        assert(!pod_wf(v@));
                    }
                    return Err(PodError::ParseError);
                }
                proof {
                    assert(views.take(i + 1) =~= views.take(i as int) + seq![views[i as int]]);
                    lemma_enc_pods_concat(views.take(i as int), seq![views[i as int]]);
                    lemma_enc_pods_one(views[i as int]);
                    lemma_wf_pods_concat(views.take(i as int), seq![views[i as int]]);
                    assert(seq![views[i as int]].drop_first() =~= Seq::<PodView>::empty());
                    assert(wf_pods(Seq::<PodView>::empty()));
                    assert(pod_wf(views[i as int]));
                }
                i = i + 1;
            }
            assert(views.take(children@.len() as int) =~= views);
            let bl = body.len();
            if bl as u64 >= 0x1_0000_0000u64 {
                return Err(PodError::ParseError);
            }
            write_u32(out, bl as u32);
            write_u32(out, TYPE_STRUCT);
            out.append(&mut body);
            write_pad(out, bl);
            assert(out@ =~= old(out)@ + enc_pod(v@));
            Ok(())
        },
        Value::Object(o) => {
            let ghost pviews = property_views(o.properties@);
            proof {
                lemma_property_views(o.properties@);
            }
            let mut body: Vec<u8> = Vec::new();
            write_u32(&mut body, o.type_);
            write_u32(&mut body, o.id);
            let ghost hdr = w32(o.type_) + w32(o.id);
            let mut i: usize = 0;
            assert(pviews.take(0int) =~= Seq::<PropertyView>::empty());
            assert(body@ =~= hdr + enc_props(pviews.take(0int)));
            while i < o.properties.len()
                invariant
                    i <= o.properties.len(),
                    pviews == property_views(o.properties@),
                    pviews.len() == o.properties@.len(),
                    forall|j: int|
                        0 <= j < o.properties@.len() ==> pviews[j] == (PropertyView {
                            key: o.properties@[j].key,
                            flags: o.properties@[j].flags,
                            value: pod_view(o.properties@[j].value),
                        }),
                    hdr == w32(o.type_) + w32(o.id),
                    body@ == hdr + enc_props(pviews.take(i as int)),
                    wf_props(pviews.take(i as int)),
                    *v == Value::Object(*o),
                decreases o.properties.len() - i,
            {
                write_u32(&mut body, o.properties[i].key);
                write_u32(&mut body, o.properties[i].flags);
                proof {
                    assert(*v == Value::Object(*o));
                    assert(decreases_to!(*v => (*v)->Object_0));
                    assert(decreases_to!(*o => o.properties));
                    assert(decreases_to!(o.properties => o.properties@[i as int]));
                    assert(decreases_to!(o.properties@[i as int] => o.properties@[
                        i as int].value));
                }
                let res = serialize_pod_into(&o.properties[i].value, &mut body);
                if res.is_err() {
                    proof {
                        assert(!pod_wf(pviews[i as int].value));
                        if wf_props(pviews) {
                            crate::codec::lemma_wf_props_index(pviews, i as int);
                        }
                        assert(!pod_wf(v@));
                    }
                    return Err(PodError::ParseError);
                }
                proof {
                    assert(pviews.take(i + 1) =~= pviews.take(i as int) + seq![pviews[i as int]]);
                    lemma_enc_props_concat(pviews.take(i as int), seq![pviews[i as int]]);
                    lemma_enc_props_one(pviews[i as int]);
                    lemma_wf_props_concat(pviews.take(i as int), seq![pviews[i as int]]);
                    assert(seq![pviews[i as int]].drop_first() =~= Seq::<PropertyView>::empty());
                    assert(wf_props(Seq::<PropertyView>::empty()));
                    assert(pod_wf(pviews[i as int].value));
                    assert(body@ =~= hdr + enc_props(pviews.take(i + 1)));
                }
                i = i + 1;
            }
            assert(pviews.take(o.properties@.len() as int) =~= pviews);
            let bl = body.len();
            if bl as u64 >= 0x1_0000_0000u64 {
                return Err(PodError::ParseError);
            }
            write_u32(out, bl as u32);
            write_u32(out, TYPE_OBJECT);
            out.append(&mut body);
            write_pad(out, bl);
            assert(out@ =~= old(out)@ + enc_pod(v@));
            Ok(())
        },
    }
}

/// Serializes an array pod.
#[verifier::rlimit(60)]
fn serialize_array_into(a: &ValueArray, out: &mut Vec<u8>) -> (r: Result<(), PodError>)
    ensures
        r is Ok ==> pod_wf(pod_view(Value::ValueArray(*a))) && final(out)@ == old(out)@ + enc_pod(
            pod_view(Value::ValueArray(*a)),
        ),
        r is Err ==> !pod_wf(pod_view(Value::ValueArray(*a))),
{
    broadcast use crate::codec::lemma_w32_len, crate::codec::lemma_w64_len;

    let ghost v = pod_view(Value::ValueArray(*a));
    match a {
        ValueArray::Null(l) => {
            if l.len() > 0 {
                return Err(PodError::ParseError);
            }
            write_u32(out, 8);
            write_u32(out, TYPE_ARRAY);
            write_u32(out, 0);
            write_u32(out, TYPE_NONE);
            assert(out@ =~= old(out)@ + enc_pod(v));
            Ok(())
        },
        ValueArray::Bool(l) => {
            proof {
                assert(forall|x: bool| (#[trigger] (fenc_bool())(x)).len() == 4);
                lemma_enc_elems_len(l@, fenc_bool(), 4);
            }
            if l.len() as u64 >= 0x3fff_fffeu64 {
                assert(pod_body(v).len() >= 0x1_0000_0000) by (nonlinear_arith)
                    requires
                        pod_body(v).len() == 8 + l@.len() * 4,
                        l@.len() >= 0x3fff_fffe,
                ;
                return Err(PodError::ParseError);
            }
            let bl = 8 + 4 * l.len();
            assert(bl == pod_body(v).len()) by (nonlinear_arith)
                requires
                    pod_body(v).len() == 8 + l@.len() * 4,
                    bl == 8 + 4 * l@.len(),
            ;
            write_u32(out, bl as u32);
            write_u32(out, TYPE_ARRAY);
            write_u32(out, 4);
            write_u32(out, TYPE_BOOL);
            write_run_bool(out, l);
            write_pad(out, bl);
            assert(out@ =~= old(out)@ + enc_pod(v));
            Ok(())
        },
        ValueArray::Id(l) => {
            proof {
                assert(forall|x: u32| (#[trigger] (fenc_u32())(x)).len() == 4);
                lemma_enc_elems_len(l@.map_values(fview_id()), fenc_u32(), 4);
            }
            if l.len() as u64 >= 0x3fff_fffeu64 {
                assert(pod_body(v).len() >= 0x1_0000_0000) by (nonlinear_arith)
                    requires
                        pod_body(v).len() == 8 + l@.len() * 4,
                        l@.len() >= 0x3fff_fffe,
                ;
                return Err(PodError::ParseError);
            }
            let bl = 8 + 4 * l.len();
            assert(bl == pod_body(v).len()) by (nonlinear_arith)
                requires
                    pod_body(v).len() == 8 + l@.len() * 4,
                    bl == 8 + 4 * l@.len(),
            ;
            write_u32(out, bl as u32);
            write_u32(out, TYPE_ARRAY);
            write_u32(out, 4);
            write_u32(out, TYPE_ID);
            write_run_id(out, l);
            write_pad(out, bl);
            assert(out@ =~= old(out)@ + enc_pod(v));
            Ok(())
        },
        ValueArray::Int(l) => {
            proof {
                assert(forall|x: i32| (#[trigger] (fenc_i32())(x)).len() == 4);
                lemma_enc_elems_len(l@, fenc_i32(), 4);
            }
            if l.len() as u64 >= 0x3fff_fffeu64 {
                assert(pod_body(v).len() >= 0x1_0000_0000) by (nonlinear_arith)
                    requires
                        pod_body(v).len() == 8 + l@.len() * 4,
                        l@.len() >= 0x3fff_fffe,
                ;
                return Err(PodError::ParseError);
            }
            let bl = 8 + 4 * l.len();
            assert(bl == pod_body(v).len()) by (nonlinear_arith)
                requires
                    pod_body(v).len() == 8 + l@.len() * 4,
                    bl == 8 + 4 * l@.len(),
            ;
            write_u32(out, bl as u32);
            write_u32(out, TYPE_ARRAY);
            write_u32(out, 4);
            write_u32(out, TYPE_INT);
            write_run_i32(out, l);
            write_pad(out, bl);
            assert(out@ =~= old(out)@ + enc_pod(v));
            Ok(())
        },
        ValueArray::Long(l) => {
            proof {
                assert(forall|x: i64| (#[trigger] (fenc_i64())(x)).len() == 8);
                lemma_enc_elems_len(l@, fenc_i64(), 8);
            }
            if l.len() as u64 >= 0x1fff_ffffu64 {
                assert(pod_body(v).len() >= 0x1_0000_0000) by (nonlinear_arith)
                    requires
                        pod_body(v).len() == 8 + l@.len() * 8,
                        l@.len() >= 0x1fff_ffff,
                ;
                return Err(PodError::ParseError);
            }
            let bl = 8 + 8 * l.len();
            assert(bl == pod_body(v).len()) by (nonlinear_arith)
                requires
                    pod_body(v).len() == 8 + l@.len() * 8,
                    bl == 8 + 8 * l@.len(),
            ;
            write_u32(out, bl as u32);
            write_u32(out, TYPE_ARRAY);
            write_u32(out, 8);
            write_u32(out, TYPE_LONG);
            write_run_i64(out, l);
            write_pad(out, bl);
            assert(out@ =~= old(out)@ + enc_pod(v));
            Ok(())
        },
        ValueArray::Float(l) => {
            proof {
                assert(forall|x: u32| (#[trigger] (fenc_u32())(x)).len() == 4);
                lemma_enc_elems_len(l@, fenc_u32(), 4);
            }
            if l.len() as u64 >= 0x3fff_fffeu64 {
                assert(pod_body(v).len() >= 0x1_0000_0000) by (nonlinear_arith)
                    requires
                        pod_body(v).len() == 8 + l@.len() * 4,
                        l@.len() >= 0x3fff_fffe,
                ;
                return Err(PodError::ParseError);
            }
            let bl = 8 + 4 * l.len();
            assert(bl == pod_body(v).len()) by (nonlinear_arith)
                requires
                    pod_body(v).len() == 8 + l@.len() * 4,
                    bl == 8 + 4 * l@.len(),
            ;
            write_u32(out, bl as u32);
            write_u32(out, TYPE_ARRAY);
            write_u32(out, 4);
            write_u32(out, TYPE_FLOAT);
            write_run_u32(out, l);
            write_pad(out, bl);
            assert(out@ =~= old(out)@ + enc_pod(v));
            Ok(())
        },
        ValueArray::Double(l) => {
            proof {
                assert(forall|x: u64| (#[trigger] (fenc_u64())(x)).len() == 8);
                lemma_enc_elems_len(l@, fenc_u64(), 8);
            }
            if l.len() as u64 >= 0x1fff_ffffu64 {
                assert(pod_body(v).len() >= 0x1_0000_0000) by (nonlinear_arith)
                    requires
                        pod_body(v).len() == 8 + l@.len() * 8,
                        l@.len() >= 0x1fff_ffff,
                ;
                return Err(PodError::ParseError);
            }
            let bl = 8 + 8 * l.len();
            assert(bl == pod_body(v).len()) by (nonlinear_arith)
                requires
                    pod_body(v).len() == 8 + l@.len() * 8,
                    bl == 8 + 8 * l@.len(),
            ;
            write_u32(out, bl as u32);
            write_u32(out, TYPE_ARRAY);
            write_u32(out, 8);
            write_u32(out, TYPE_DOUBLE);
            write_run_u64(out, l);
            write_pad(out, bl);
            assert(out@ =~= old(out)@ + enc_pod(v));
            Ok(())
        },
        ValueArray::Rectangle(l) => {
            proof {
                assert(forall|x: (u32, u32)| (#[trigger] (fenc_pair())(x)).len() == 8);
                lemma_enc_elems_len(l@.map_values(fview_rect()), fenc_pair(), 8);
            }
            if l.len() as u64 >= 0x1fff_ffffu64 {
                assert(pod_body(v).len() >= 0x1_0000_0000) by (nonlinear_arith)
                    requires
                        pod_body(v).len() == 8 + l@.len() * 8,
                        l@.len() >= 0x1fff_ffff,
                ;
                return Err(PodError::ParseError);
            }
            let bl = 8 + 8 * l.len();
            assert(bl == pod_body(v).len()) by (nonlinear_arith)
                requires
                    pod_body(v).len() == 8 + l@.len() * 8,
                    bl == 8 + 8 * l@.len(),
            ;
            write_u32(out, bl as u32);
            write_u32(out, TYPE_ARRAY);
            write_u32(out, 8);
            write_u32(out, TYPE_RECTANGLE);
            write_run_rect(out, l);
            write_pad(out, bl);
            assert(out@ =~= old(out)@ + enc_pod(v));
            Ok(())
        },
        ValueArray::Fraction(l) => {
            proof {
                assert(forall|x: (u32, u32)| (#[trigger] (fenc_pair())(x)).len() == 8);
                lemma_enc_elems_len(l@.map_values(fview_frac()), fenc_pair(), 8);
            }
            if l.len() as u64 >= 0x1fff_ffffu64 {
                assert(pod_body(v).len() >= 0x1_0000_0000) by (nonlinear_arith)
                    requires
                        pod_body(v).len() == 8 + l@.len() * 8,
                        l@.len() >= 0x1fff_ffff,
                ;
                return Err(PodError::ParseError);
            }
            let bl = 8 + 8 * l.len();
            assert(bl == pod_body(v).len()) by (nonlinear_arith)
                requires
                    pod_body(v).len() == 8 + l@.len() * 8,
                    bl == 8 + 8 * l@.len(),
            ;
            write_u32(out, bl as u32);
            write_u32(out, TYPE_ARRAY);
            write_u32(out, 8);
            write_u32(out, TYPE_FRACTION);
            write_run_frac(out, l);
            write_pad(out, bl);
            assert(out@ =~= old(out)@ + enc_pod(v));
            Ok(())
        },
        ValueArray::Fd(l) => {
            proof {
                assert(forall|x: i64| (#[trigger] (fenc_i64())(x)).len() == 8);
                lemma_enc_elems_len(l@.map_values(fview_fd()), fenc_i64(), 8);
            }
            if l.len() as u64 >= 0x1fff_ffffu64 {
                assert(pod_body(v).len() >= 0x1_0000_0000) by (nonlinear_arith)
                    requires
                        pod_body(v).len() == 8 + l@.len() * 8,
                        l@.len() >= 0x1fff_ffff,
                ;
                return Err(PodError::ParseError);
            }
            let bl = 8 + 8 * l.len();
            assert(bl == pod_body(v).len()) by (nonlinear_arith)
                requires
                    pod_body(v).len() == 8 + l@.len() * 8,
                    bl == 8 + 8 * l@.len(),
            ;
            write_u32(out, bl as u32);
            write_u32(out, TYPE_ARRAY);
            write_u32(out, 8);
            write_u32(out, TYPE_FD);
            write_run_fd(out, l);
            write_pad(out, bl);
            assert(out@ =~= old(out)@ + enc_pod(v));
            Ok(())
        },
    }
}

/// Serializes a choice pod.
#[verifier::rlimit(60)]
fn serialize_choice_into(c: &ChoiceValue, out: &mut Vec<u8>) -> (r: Result<(), PodError>)
    ensures
        r is Ok ==> pod_wf(pod_view(Value::Choice(*c))) && final(out)@ == old(out)@ + enc_pod(
            pod_view(Value::Choice(*c)),
        ),
        r is Err ==> !pod_wf(pod_view(Value::Choice(*c))),
{
    broadcast use crate::codec::lemma_w32_len, crate::codec::lemma_w64_len;

    let ghost v = pod_view(Value::Choice(*c));
    match c {
        ChoiceValue::Bool(ch) => {
            let (k, elems) = ce_parts(&ch.1);
            proof {
                crate::value::lemma_choice_enum_view_map(ch.1, fident::<bool>());
                crate::codec::lemma_ce_elems_map(
                    choice_enum_view(ch.1, fident::<bool>()),
                    fident::<bool>(),
                );
                assert(ce_elems(choice_enum_view(ch.1, fident::<bool>())).map_values(
                    fident::<bool>(),
                ) =~= elems@);
                assert(forall|x: bool| (#[trigger] (fenc_bool())(x)).len() == 4);
                lemma_enc_elems_len(elems@, fenc_bool(), 4);
            }
            if elems.len() as u64 >= 0x3fff_fffcu64 {
                assert(pod_body(v).len() >= 0x1_0000_0000) by (nonlinear_arith)
                    requires
                        pod_body(v).len() == 16 + elems@.len() * 4,
                        elems@.len() >= 0x3fff_fffc,
                ;
                return Err(PodError::ParseError);
            }
            let bl = 16 + 4 * elems.len();
            assert(bl == pod_body(v).len()) by (nonlinear_arith)
                requires
                    pod_body(v).len() == 16 + elems@.len() * 4,
                    bl == 16 + 4 * elems@.len(),
            ;
            write_u32(out, bl as u32);
            write_u32(out, TYPE_CHOICE);
            write_u32(out, k);
            write_u32(out, ch.0);
            write_u32(out, 4);
            write_u32(out, TYPE_BOOL);
            write_run_bool(out, &elems);
            write_pad(out, bl);
            assert(enc_elems(elems@, fenc_bool()) == crate::codec::choice_elems_bytes(
                crate::value::choice_view(*c),
            ));
            assert(out@ =~= old(out)@ + enc_pod(v));
            Ok(())
        },
        ChoiceValue::Int(ch) => {
            let (k, elems) = ce_parts(&ch.1);
            proof {
                crate::value::lemma_choice_enum_view_map(ch.1, fident::<i32>());
                crate::codec::lemma_ce_elems_map(
                    choice_enum_view(ch.1, fident::<i32>()),
                    fident::<i32>(),
                );
                assert(ce_elems(choice_enum_view(ch.1, fident::<i32>())).map_values(fident::<i32>())
                    =~= elems@);
                assert(forall|x: i32| (#[trigger] (fenc_i32())(x)).len() == 4);
                lemma_enc_elems_len(elems@, fenc_i32(), 4);
            }
            if elems.len() as u64 >= 0x3fff_fffcu64 {
                assert(pod_body(v).len() >= 0x1_0000_0000) by (nonlinear_arith)
                    requires
                        pod_body(v).len() == 16 + elems@.len() * 4,
                        elems@.len() >= 0x3fff_fffc,
                ;
                return Err(PodError::ParseError);
            }
            let bl = 16 + 4 * elems.len();
            assert(bl == pod_body(v).len()) by (nonlinear_arith)
                requires
                    pod_body(v).len() == 16 + elems@.len() * 4,
                    bl == 16 + 4 * elems@.len(),
            ;
            write_u32(out, bl as u32);
            write_u32(out, TYPE_CHOICE);
            write_u32(out, k);
            write_u32(out, ch.0);
            write_u32(out, 4);
            write_u32(out, TYPE_INT);
            write_run_i32(out, &elems);
            write_pad(out, bl);
            assert(out@ =~= old(out)@ + enc_pod(v));
            Ok(())
        },
        ChoiceValue::Long(ch) => {
            let (k, elems) = ce_parts(&ch.1);
            proof {
                crate::value::lemma_choice_enum_view_map(ch.1, fident::<i64>());
                crate::codec::lemma_ce_elems_map(
                    choice_enum_view(ch.1, fident::<i64>()),
                    fident::<i64>(),
                );
                assert(ce_elems(choice_enum_view(ch.1, fident::<i64>())).map_values(fident::<i64>())
                    =~= elems@);
                assert(forall|x: i64| (#[trigger] (fenc_i64())(x)).len() == 8);
                lemma_enc_elems_len(elems@, fenc_i64(), 8);
            }
            if elems.len() as u64 >= 0x1fff_fffeu64 {
                assert(pod_body(v).len() >= 0x1_0000_0000) by (nonlinear_arith)
                    requires
                        pod_body(v).len() == 16 + elems@.len() * 8,
                        elems@.len() >= 0x1fff_fffe,
                ;
                return Err(PodError::ParseError);
            }
            let bl = 16 + 8 * elems.len();
            assert(bl == pod_body(v).len()) by (nonlinear_arith)
                requires
                    pod_body(v).len() == 16 + elems@.len() * 8,
                    bl == 16 + 8 * elems@.len(),
            ;
            write_u32(out, bl as u32);
            write_u32(out, TYPE_CHOICE);
            write_u32(out, k);
            write_u32(out, ch.0);
            write_u32(out, 8);
            write_u32(out, TYPE_LONG);
            write_run_i64(out, &elems);
            write_pad(out, bl);
            assert(out@ =~= old(out)@ + enc_pod(v));
            Ok(())
        },
        ChoiceValue::Float(ch) => {
            let (k, elems) = ce_parts(&ch.1);
            proof {
                crate::value::lemma_choice_enum_view_map(ch.1, fident::<u32>());
                crate::codec::lemma_ce_elems_map(
                    choice_enum_view(ch.1, fident::<u32>()),
                    fident::<u32>(),
                );
                assert(ce_elems(choice_enum_view(ch.1, fident::<u32>())).map_values(fident::<u32>())
                    =~= elems@);
                assert(forall|x: u32| (#[trigger] (fenc_u32())(x)).len() == 4);
                lemma_enc_elems_len(elems@, fenc_u32(), 4);
            }
            if elems.len() as u64 >= 0x3fff_fffcu64 {
                assert(pod_body(v).len() >= 0x1_0000_0000) by (nonlinear_arith)
                    requires
                        pod_body(v).len() == 16 + elems@.len() * 4,
                        elems@.len() >= 0x3fff_fffc,
                ;
                return Err(PodError::ParseError);
            }
            let bl = 16 + 4 * elems.len();
            assert(bl == pod_body(v).len()) by (nonlinear_arith)
                requires
                    pod_body(v).len() == 16 + elems@.len() * 4,
                    bl == 16 + 4 * elems@.len(),
            ;
            write_u32(out, bl as u32);
            write_u32(out, TYPE_CHOICE);
            write_u32(out, k);
            write_u32(out, ch.0);
            write_u32(out, 4);
            write_u32(out, TYPE_FLOAT);
            write_run_u32(out, &elems);
            write_pad(out, bl);
            assert(out@ =~= old(out)@ + enc_pod(v));
            Ok(())
        },
        ChoiceValue::Double(ch) => {
            let (k, elems) = ce_parts(&ch.1);
            proof {
                crate::value::lemma_choice_enum_view_map(ch.1, fident::<u64>());
                crate::codec::lemma_ce_elems_map(
                    choice_enum_view(ch.1, fident::<u64>()),
                    fident::<u64>(),
                );
                assert(ce_elems(choice_enum_view(ch.1, fident::<u64>())).map_values(fident::<u64>())
                    =~= elems@);
                assert(forall|x: u64| (#[trigger] (fenc_u64())(x)).len() == 8);
                lemma_enc_elems_len(elems@, fenc_u64(), 8);
            }
            if elems.len() as u64 >= 0x1fff_fffeu64 {
                assert(pod_body(v).len() >= 0x1_0000_0000) by (nonlinear_arith)
                    requires
                        pod_body(v).len() == 16 + elems@.len() * 8,
                        elems@.len() >= 0x1fff_fffe,
                ;
                return Err(PodError::ParseError);
            }
            let bl = 16 + 8 * elems.len();
            assert(bl == pod_body(v).len()) by (nonlinear_arith)
                requires
                    pod_body(v).len() == 16 + elems@.len() * 8,
                    bl == 16 + 8 * elems@.len(),
            ;
            write_u32(out, bl as u32);
            write_u32(out, TYPE_CHOICE);
            write_u32(out, k);
            write_u32(out, ch.0);
            write_u32(out, 8);
            write_u32(out, TYPE_DOUBLE);
            write_run_u64(out, &elems);
            write_pad(out, bl);
            assert(out@ =~= old(out)@ + enc_pod(v));
            Ok(())
        },
        ChoiceValue::Id(ch) => {
            let (k, elems) = ce_parts(&ch.1);
            proof {
                crate::value::lemma_choice_enum_view_map(ch.1, fview_id());
                crate::codec::lemma_ce_elems_map(
                    choice_enum_view(ch.1, fident::<Id>()),
                    fview_id(),
                );
                assert(forall|x: u32| (#[trigger] (fenc_u32())(x)).len() == 4);
                lemma_enc_elems_len(elems@.map_values(fview_id()), fenc_u32(), 4);
            }
            if elems.len() as u64 >= 0x3fff_fffcu64 {
                assert(pod_body(v).len() >= 0x1_0000_0000) by (nonlinear_arith)
                    requires
                        pod_body(v).len() == 16 + elems@.len() * 4,
                        elems@.len() >= 0x3fff_fffc,
                ;
                return Err(PodError::ParseError);
            }
            let bl = 16 + 4 * elems.len();
            assert(bl == pod_body(v).len()) by (nonlinear_arith)
                requires
                    pod_body(v).len() == 16 + elems@.len() * 4,
                    bl == 16 + 4 * elems@.len(),
            ;
            write_u32(out, bl as u32);
            write_u32(out, TYPE_CHOICE);
            write_u32(out, k);
            write_u32(out, ch.0);
            write_u32(out, 4);
            write_u32(out, TYPE_ID);
            write_run_id(out, &elems);
            write_pad(out, bl);
            assert(out@ =~= old(out)@ + enc_pod(v));
            Ok(())
        },
        ChoiceValue::Rectangle(ch) => {
            let (k, elems) = ce_parts(&ch.1);
            proof {
                crate::value::lemma_choice_enum_view_map(ch.1, fview_rect());
                crate::codec::lemma_ce_elems_map(
                    choice_enum_view(ch.1, fident::<Rectangle>()),
                    fview_rect(),
                );
                assert(forall|x: (u32, u32)| (#[trigger] (fenc_pair())(x)).len() == 8);
                lemma_enc_elems_len(elems@.map_values(fview_rect()), fenc_pair(), 8);
            }
            if elems.len() as u64 >= 0x1fff_fffeu64 {
                assert(pod_body(v).len() >= 0x1_0000_0000) by (nonlinear_arith)
                    requires
                        pod_body(v).len() == 16 + elems@.len() * 8,
                        elems@.len() >= 0x1fff_fffe,
                ;
                return Err(PodError::ParseError);
            }
            let bl = 16 + 8 * elems.len();
            assert(bl == pod_body(v).len()) by (nonlinear_arith)
                requires
                    pod_body(v).len() == 16 + elems@.len() * 8,
                    bl == 16 + 8 * elems@.len(),
            ;
            write_u32(out, bl as u32);
            write_u32(out, TYPE_CHOICE);
            write_u32(out, k);
            write_u32(out, ch.0);
            write_u32(out, 8);
            write_u32(out, TYPE_RECTANGLE);
            write_run_rect(out, &elems);
            write_pad(out, bl);
            assert(out@ =~= old(out)@ + enc_pod(v));
            Ok(())
        },
        ChoiceValue::Fraction(ch) => {
            let (k, elems) = ce_parts(&ch.1);
            proof {
                crate::value::lemma_choice_enum_view_map(ch.1, fview_frac());
                crate::codec::lemma_ce_elems_map(
                    choice_enum_view(ch.1, fident::<Fraction>()),
                    fview_frac(),
                );
                assert(forall|x: (u32, u32)| (#[trigger] (fenc_pair())(x)).len() == 8);
                lemma_enc_elems_len(elems@.map_values(fview_frac()), fenc_pair(), 8);
            }
            if elems.len() as u64 >= 0x1fff_fffeu64 {
                assert(pod_body(v).len() >= 0x1_0000_0000) by (nonlinear_arith)
                    requires
                        pod_body(v).len() == 16 + elems@.len() * 8,
                        elems@.len() >= 0x1fff_fffe,
                ;
                return Err(PodError::ParseError);
            }
            let bl = 16 + 8 * elems.len();
            assert(bl == pod_body(v).len()) by (nonlinear_arith)
                requires
                    pod_body(v).len() == 16 + elems@.len() * 8,
                    bl == 16 + 8 * elems@.len(),
            ;
            write_u32(out, bl as u32);
            write_u32(out, TYPE_CHOICE);
            write_u32(out, k);
            write_u32(out, ch.0);
            write_u32(out, 8);
            write_u32(out, TYPE_FRACTION);
            write_run_frac(out, &elems);
            write_pad(out, bl);
            assert(out@ =~= old(out)@ + enc_pod(v));
            Ok(())
        },
        ChoiceValue::Fd(ch) => {
            let (k, elems) = ce_parts(&ch.1);
            proof {
                crate::value::lemma_choice_enum_view_map(ch.1, fview_fd());
                crate::codec::lemma_ce_elems_map(choice_enum_view(ch.1, fident::<Fd>()), fview_fd());
                assert(forall|x: i64| (#[trigger] (fenc_i64())(x)).len() == 8);
                lemma_enc_elems_len(elems@.map_values(fview_fd()), fenc_i64(), 8);
            }
            if elems.len() as u64 >= 0x1fff_fffeu64 {
                assert(pod_body(v).len() >= 0x1_0000_0000) by (nonlinear_arith)
                    requires
                        pod_body(v).len() == 16 + elems@.len() * 8,
                        elems@.len() >= 0x1fff_fffe,
                ;
                return Err(PodError::ParseError);
            }
            let bl = 16 + 8 * elems.len();
            assert(bl == pod_body(v).len()) by (nonlinear_arith)
                requires
                    pod_body(v).len() == 16 + elems@.len() * 8,
                    bl == 16 + 8 * elems@.len(),
            ;
            write_u32(out, bl as u32);
            write_u32(out, TYPE_CHOICE);
            write_u32(out, k);
            write_u32(out, ch.0);
            write_u32(out, 8);
            write_u32(out, TYPE_FD);
            write_run_fd(out, &elems);
            write_pad(out, bl);
            assert(out@ =~= old(out)@ + enc_pod(v));
            Ok(())
        },
    }
}

/// Serializes a pod value into a fresh buffer: the canonical encoding on
/// success, an error exactly when the value is not well-formed.
pub fn serialize_pod(v: &Value) -> (r: Result<Vec<u8>, PodError>)
    ensures
        match r {
            Ok(bytes) => pod_wf(v@) && bytes@ == enc_pod(v@),
            Err(_) => !pod_wf(v@),
        },
{
    let mut out: Vec<u8> = Vec::new();
    match serialize_pod_into(v, &mut out) {
        Ok(()) => {
            assert(out@ =~= enc_pod(v@));
            Ok(out)
        },
        Err(e) => Err(e),
    }
}

} // verus!
