//! The derivation protocol for typed messages: every method or event
//! payload is a struct pod whose fields stand in declared order. This
//! module holds the shared field readers and builders the per-interface
//! codecs are written with, and the dictionary encoding
//! (`Int n` followed by `2n` alternating strings).

use vstd::prelude::*;
use vstd::slice::slice_to_vec;

use crate::error::PodError;
use crate::value::{
    array_view, choice_enum_view, choice_view, fident, fview_id, lemma_choice_enum_view_map,
    lemma_pod_views, lemma_property_views, pod_view, pod_views, property_views, ArrayView, Choice,
    ChoiceEnum, ChoiceEnumView, ChoiceValue, ChoiceView, Fd, Id, Object, PodView, Property,
    PropertyView, Value, ValueArray,
};

verus! {

// ---------------------------------------------------------------------------
// Cloning
// ---------------------------------------------------------------------------

/// Copies a byte vector.
pub fn clone_bytes(v: &Vec<u8>) -> (r: Vec<u8>)
    ensures
        r@ == v@,
{
    slice_to_vec(v.as_slice())
}

/// Copies a vector of plain values.
pub fn clone_vec_copy<T: Copy>(v: &Vec<T>) -> (r: Vec<T>)
    ensures
        r@ == v@,
{
    slice_to_vec(v.as_slice())
}

fn clone_choice_enum<T: Copy>(ce: &ChoiceEnum<T>) -> (r: ChoiceEnum<T>)
    ensures
        choice_enum_view(r, fident::<T>()) == choice_enum_view(*ce, fident::<T>()),
{
    match ce {
        ChoiceEnum::Fixed(d) => ChoiceEnum::Fixed(*d),
        ChoiceEnum::Range { default, min, max } => ChoiceEnum::Range {
            default: *default,
            min: *min,
            max: *max,
        },
        ChoiceEnum::Step { default, min, max, step } => ChoiceEnum::Step {
            default: *default,
            min: *min,
            max: *max,
            step: *step,
        },
        ChoiceEnum::Enum { default, alternatives } => ChoiceEnum::Enum {
            default: *default,
            alternatives: clone_vec_copy(alternatives),
        },
        ChoiceEnum::Flags { default, flags } => ChoiceEnum::Flags {
            default: *default,
            flags: clone_vec_copy(flags),
        },
    }
}

fn clone_choice_value(c: &ChoiceValue) -> (r: ChoiceValue)
    ensures
        choice_view(r) == choice_view(*c),
{
    match c {
        ChoiceValue::Bool(ch) => {
            let ce = clone_choice_enum(&ch.1);
            proof {
                lemma_choice_enum_view_map(ce, fident::<bool>());
                lemma_choice_enum_view_map(ch.1, fident::<bool>());
            }
            ChoiceValue::Bool(Choice(ch.0, ce))
        },
        ChoiceValue::Int(ch) => {
            let ce = clone_choice_enum(&ch.1);
            proof {
                lemma_choice_enum_view_map(ce, fident::<i32>());
                lemma_choice_enum_view_map(ch.1, fident::<i32>());
            }
            ChoiceValue::Int(Choice(ch.0, ce))
        },
        ChoiceValue::Long(ch) => {
            let ce = clone_choice_enum(&ch.1);
            proof {
                lemma_choice_enum_view_map(ce, fident::<i64>());
                lemma_choice_enum_view_map(ch.1, fident::<i64>());
            }
            ChoiceValue::Long(Choice(ch.0, ce))
        },
        ChoiceValue::Float(ch) => {
            let ce = clone_choice_enum(&ch.1);
            proof {
                lemma_choice_enum_view_map(ce, fident::<u32>());
                lemma_choice_enum_view_map(ch.1, fident::<u32>());
            }
            ChoiceValue::Float(Choice(ch.0, ce))
        },
        ChoiceValue::Double(ch) => {
            let ce = clone_choice_enum(&ch.1);
            proof {
                lemma_choice_enum_view_map(ce, fident::<u64>());
                lemma_choice_enum_view_map(ch.1, fident::<u64>());
            }
            ChoiceValue::Double(Choice(ch.0, ce))
        },
        ChoiceValue::Id(ch) => {
            let ce = clone_choice_enum(&ch.1);
            proof {
                lemma_choice_enum_view_map(ce, crate::value::fview_id());
                lemma_choice_enum_view_map(ch.1, crate::value::fview_id());
            }
            ChoiceValue::Id(Choice(ch.0, ce))
        },
        ChoiceValue::Rectangle(ch) => {
            let ce = clone_choice_enum(&ch.1);
            proof {
                lemma_choice_enum_view_map(ce, crate::value::fview_rect());
                lemma_choice_enum_view_map(ch.1, crate::value::fview_rect());
            }
            ChoiceValue::Rectangle(Choice(ch.0, ce))
        },
        ChoiceValue::Fraction(ch) => {
            let ce = clone_choice_enum(&ch.1);
            proof {
                lemma_choice_enum_view_map(ce, crate::value::fview_frac());
                lemma_choice_enum_view_map(ch.1, crate::value::fview_frac());
            }
            ChoiceValue::Fraction(Choice(ch.0, ce))
        },
        ChoiceValue::Fd(ch) => {
            let ce = clone_choice_enum(&ch.1);
            proof {
                lemma_choice_enum_view_map(ce, crate::value::fview_fd());
                lemma_choice_enum_view_map(ch.1, crate::value::fview_fd());
            }
            ChoiceValue::Fd(Choice(ch.0, ce))
        },
    }
}

fn clone_array(a: &ValueArray) -> (r: ValueArray)
    ensures
        array_view(r) == array_view(*a),
{
    match a {
        ValueArray::Null(l) => ValueArray::Null(clone_vec_copy(l)),
        ValueArray::Bool(l) => ValueArray::Bool(clone_vec_copy(l)),
        ValueArray::Id(l) => ValueArray::Id(clone_vec_copy(l)),
        ValueArray::Int(l) => ValueArray::Int(clone_vec_copy(l)),
        ValueArray::Long(l) => ValueArray::Long(clone_vec_copy(l)),
        ValueArray::Float(l) => ValueArray::Float(clone_vec_copy(l)),
        ValueArray::Double(l) => ValueArray::Double(clone_vec_copy(l)),
        ValueArray::Rectangle(l) => ValueArray::Rectangle(clone_vec_copy(l)),
        ValueArray::Fraction(l) => ValueArray::Fraction(clone_vec_copy(l)),
        ValueArray::Fd(l) => ValueArray::Fd(clone_vec_copy(l)),
    }
}

/// Copies a pod value; the copy has the same view.
pub fn clone_value(v: &Value) -> (r: Value)
    ensures
        r@ == v@,
    decreases *v,
{
    match v {
        Value::Null => Value::Null,
        Value::Bool(b) => Value::Bool(*b),
        Value::Id(x) => Value::Id(*x),
        Value::Int(x) => Value::Int(*x),
        Value::Long(x) => Value::Long(*x),
        Value::Float(x) => Value::Float(*x),
        Value::Double(x) => Value::Double(*x),
        Value::String(s) => Value::String(clone_bytes(s)),
        Value::Bytes(b) => Value::Bytes(clone_bytes(b)),
        Value::Rectangle(rc) => Value::Rectangle(*rc),
        Value::Fraction(fr) => Value::Fraction(*fr),
        Value::Fd(fd) => Value::Fd(*fd),
        Value::ValueArray(a) => Value::ValueArray(clone_array(a)),
        Value::Choice(c) => Value::Choice(clone_choice_value(c)),
        Value::Pointer(ty, addr) => Value::Pointer(*ty, *addr),
        Value::Struct(children) => {
            let mut out: Vec<Value> = Vec::new();
            let mut i: usize = 0;
            while i < children.len()
                invariant
                    i <= children.len(),
                    *v == Value::Struct(*children),
                    out@.len() == i,
                    forall|j: int| 0 <= j < i ==> (#[trigger] out@[j])@ == children@[j]@,
                decreases children.len() - i,
            {
                proof {
                    assert(decreases_to!(*v => (*v)->Struct_0));
                    assert(decreases_to!(*children => children@[i as int]));
                }
                out.push(clone_value(&children[i]));
                i = i + 1;
            }
            proof {
                lemma_pod_views(out@);
                lemma_pod_views(children@);
                assert forall|j: int|
                    0 <= j < out@.len() implies pod_views(out@)[j] == pod_views(children@)[j] by {
                    assert(out@[j]@ == children@[j]@);
                }
                assert(pod_views(out@) =~= pod_views(children@));
            }
            Value::Struct(out)
        },
        Value::Object(o) => {
            let mut props: Vec<Property> = Vec::new();
            let mut i: usize = 0;
            while i < o.properties.len()
                invariant
                    i <= o.properties.len(),
                    *v == Value::Object(*o),
                    props@.len() == i,
                    forall|j: int|
                        0 <= j < i ==> (#[trigger] props@[j]).key == o.properties@[j].key && props@[
                            j].flags == o.properties@[j].flags && props@[j].value@ == o.properties@[
                            j].value@,
                decreases o.properties.len() - i,
            {
                proof {
                    assert(decreases_to!(*v => (*v)->Object_0));
                    assert(decreases_to!(*o => o.properties));
                    assert(decreases_to!(o.properties => o.properties@[i as int]));
                    assert(decreases_to!(o.properties@[i as int] => o.properties@[
                        i as int].value));
                }
                let value = clone_value(&o.properties[i].value);
                props.push(Property { key: o.properties[i].key, flags: o.properties[i].flags, value });
                i = i + 1;
            }
            proof {
                lemma_property_views(props@);
                lemma_property_views(o.properties@);
                assert(property_views(props@) =~= property_views(o.properties@));
            }
            Value::Object(Object { type_: o.type_, id: o.id, properties: props })
        },
    }
}

impl Clone for Value {
    /// The copy has the same view.
    fn clone(&self) -> (r: Value)
        ensures
            r@ == self@,
    {
        clone_value(self)
    }
}

// ---------------------------------------------------------------------------
// Field accessors over views
// ---------------------------------------------------------------------------

/// The payload of a string pod view (empty for any other pod).
pub open spec fn sp_string(p: PodView) -> Seq<u8> {
    match p {
        PodView::String(s) => s,
        _ => Seq::empty(),
    }
}

/// The payload of an integer pod view (zero for any other pod).
pub open spec fn sp_int(p: PodView) -> i32 {
    match p {
        PodView::Int(x) => x,
        _ => 0,
    }
}

// ---------------------------------------------------------------------------
// Dictionaries: a Struct of `Int n` then `2n` alternating strings
// ---------------------------------------------------------------------------

/// A string-to-string dictionary with its wire order kept. Keys and
/// values are UTF-8 bytes without terminating NUL.
#[derive(Debug, PartialEq, Eq)]
pub struct Dict {
    pub entries: Vec<(Vec<u8>, Vec<u8>)>,
}

/// The view of a dictionary entry.
pub open spec fn fview_dict_entry() -> spec_fn((Vec<u8>, Vec<u8>)) -> (Seq<u8>, Seq<u8>) {
    |p: (Vec<u8>, Vec<u8>)| (p.0@, p.1@)
}

impl View for Dict {
    type V = Seq<(Seq<u8>, Seq<u8>)>;

    open spec fn view(&self) -> Seq<(Seq<u8>, Seq<u8>)> {
        self.entries@.map_values(fview_dict_entry())
    }
}

impl Dict {
    /// An empty dictionary.
    pub fn new() -> (r: Dict)
        ensures
            r@ == Seq::<(Seq<u8>, Seq<u8>)>::empty(),
    {
        let r = Dict { entries: Vec::new() };
        proof {
            assert(r@ =~= Seq::<(Seq<u8>, Seq<u8>)>::empty());
        }
        r
    }

    /// Appends an entry.
    pub fn push(&mut self, key: Vec<u8>, value: Vec<u8>)
        ensures
            final(self)@ == old(self)@.push((key@, value@)),
    {
        let ghost prev = self.entries@;
        self.entries.push((key, value));
        proof {
            assert(self@ =~= prev.map_values(fview_dict_entry()).push((key@, value@)));
        }
    }
}

/// The alternating key/value strings of a dictionary body.
pub open spec fn dict_strings(d: Seq<(Seq<u8>, Seq<u8>)>) -> Seq<PodView>
    decreases d.len(),
{
    if d.len() <= 0 {
        Seq::empty()
    } else {
        seq![PodView::String(d[0].0), PodView::String(d[0].1)] + dict_strings(d.drop_first())
    }
}

/// The pod a dictionary encodes to.
pub open spec fn dict_pod(d: Seq<(Seq<u8>, Seq<u8>)>) -> PodView {
    PodView::Struct(seq![PodView::Int(d.len() as i32)] + dict_strings(d))
}

/// Whether a pod view has the shape of a dictionary.
pub open spec fn is_dict(p: PodView) -> bool {
    &&& p matches PodView::Struct(fs)
    &&& fs.len() >= 1
    &&& fs[0] matches PodView::Int(n)
    &&& n >= 0
    &&& fs.len() == 1 + 2 * (n as int)
    &&& forall|j: int| 1 <= j < fs.len() ==> (#[trigger] fs[j]) is String
}

/// The entries of a dictionary-shaped pod view.
pub open spec fn dict_of(p: PodView) -> Seq<(Seq<u8>, Seq<u8>)> {
    match p {
        PodView::Struct(fs) => Seq::new(
            (((fs.len() - 1) / 2) as nat),
            |i: int| (sp_string(fs[1 + 2 * i]), sp_string(fs[2 + 2 * i])),
        ),
        _ => Seq::empty(),
    }
}

/// `dict_strings` indexed: position `j` holds the key (even `j`) or the
/// value (odd `j`) of entry `j / 2`.
pub proof fn lemma_dict_strings(d: Seq<(Seq<u8>, Seq<u8>)>)
    ensures
        dict_strings(d).len() == 2 * d.len(),
        forall|j: int|
            0 <= j < 2 * d.len() ==> #[trigger] dict_strings(d)[j] == (if j % 2 == 0 {
                PodView::String(d[j / 2].0)
            } else {
                PodView::String(d[j / 2].1)
            }),
    decreases d.len(),
{
    if d.len() > 0 {
        lemma_dict_strings(d.drop_first());
        assert forall|j: int|
            0 <= j < 2 * d.len() implies #[trigger] dict_strings(d)[j] == (if j % 2 == 0 {
            PodView::String(d[j / 2].0)
        } else {
            PodView::String(d[j / 2].1)
        }) by {
            if j >= 2 {
                assert(dict_strings(d)[j] == dict_strings(d.drop_first())[j - 2]);
                assert(d.drop_first()[(j - 2) / 2] == d[j / 2]);
            }
        }
    }
}

/// A dictionary's encoding is dictionary-shaped and decodes to itself.
pub proof fn lemma_dict_round_trip(d: Seq<(Seq<u8>, Seq<u8>)>)
    requires
        d.len() <= 0x7fff_ffff,
    ensures
        is_dict(dict_pod(d)),
        dict_of(dict_pod(d)) == d,
{
    lemma_dict_strings(d);
    let fs = seq![PodView::Int(d.len() as i32)] + dict_strings(d);
    assert forall|j: int| 1 <= j < fs.len() implies (#[trigger] fs[j]) is String by {
        assert(fs[j] == dict_strings(d)[j - 1]);
    }
    assert(dict_of(dict_pod(d)).len() == d.len());
    assert forall|i: int| 0 <= i < d.len() implies dict_of(dict_pod(d))[i] == d[i] by {
        assert(fs[1 + 2 * i] == dict_strings(d)[2 * i]);
        assert(fs[2 + 2 * i] == dict_strings(d)[2 * i + 1]);
        assert((2 * i) / 2 == i && (2 * i + 1) / 2 == i);
    }
    assert(dict_of(dict_pod(d)) =~= d);
}

/// Builds the dictionary pod.
pub fn v_dict(d: &Dict) -> (r: Result<Value, PodError>)
    ensures
        match r {
            Ok(value) => d@.len() <= 0x7fff_ffff && value@ == dict_pod(d@),
            Err(_) => d@.len() > 0x7fff_ffff,
        },
{
    if d.entries.len() as u64 > 0x7fff_ffffu64 {
        return Err(PodError::ParseError);
    }
    let mut fields: Vec<Value> = Vec::new();
    fields.push(Value::Int(d.entries.len() as i32));
    let mut i: usize = 0;
    while i < d.entries.len()
        invariant
            i <= d.entries.len(),
            fields@.len() == 1 + 2 * i,
            fields@[0]@ == PodView::Int(d.entries@.len() as i32),
            forall|j: int|
                0 <= j < i ==> (#[trigger] fields@[1 + 2 * j])@ == PodView::String(
                    d.entries@[j].0@,
                ) && fields@[2 + 2 * j]@ == PodView::String(d.entries@[j].1@),
        decreases d.entries.len() - i,
    {
        fields.push(Value::String(clone_bytes(&d.entries[i].0)));
        fields.push(Value::String(clone_bytes(&d.entries[i].1)));
        i = i + 1;
    }
    let r = Value::Struct(fields);
    proof {
        lemma_pod_views(fields@);
        lemma_dict_strings(d@);
        assert(d@.len() == d.entries@.len());
        let rhs = seq![PodView::Int(d@.len() as i32)] + dict_strings(d@);
        assert forall|j: int|
            0 <= j < fields@.len() implies pod_views(fields@)[j] == rhs[j] by {
            if j >= 1 {
                let i = (j - 1) / 2;
                assert(d@[i] == (d.entries@[i].0@, d.entries@[i].1@));
                assert(rhs[j] == dict_strings(d@)[j - 1]);
                if j % 2 == 1 {
                    assert(j == 1 + 2 * i);
                    assert((j - 1) % 2 == 0 && (j - 1) / 2 == i);
                    assert(fields@[1 + 2 * i]@ == PodView::String(d.entries@[i].0@));
                } else {
                    assert(j == 2 + 2 * i);
                    assert((j - 1) % 2 == 1 && (j - 1) / 2 == i);
                    assert(fields@[2 + 2 * i]@ == PodView::String(d.entries@[i].1@));
                }
            }
        }
        assert(pod_views(fields@) =~= rhs);
    }
    Ok(r)
}

/// Reads a dictionary field.
pub fn read_dict(fields: &Vec<Value>, pos: usize) -> (r: Result<(Dict, usize), PodError>)
    ensures
        match r {
            Ok((d, np)) => np == pos + 1 && pos < fields@.len() && is_dict(fields@[pos as int]@)
                && d@ == dict_of(fields@[pos as int]@),
            Err(e) => (pos >= fields@.len() && e == PodError::PropertyMissing) || (pos
                < fields@.len() && !is_dict(fields@[pos as int]@) && e == PodError::InvalidType),
        },
{
    if pos >= fields.len() {
        return Err(PodError::PropertyMissing);
    }
    let ghost p = fields@[pos as int]@;
    match &fields[pos] {
        Value::Struct(inner) => {
            let ghost fs = pod_views(inner@);
            proof {
                lemma_pod_views(inner@);
            }
            if inner.len() == 0 {
                return Err(PodError::InvalidType);
            }
            let n: i32 = match &inner[0] {
                Value::Int(n) => *n,
                _ => {
                    return Err(PodError::InvalidType);
                },
            };
            if n < 0 {
                return Err(PodError::InvalidType);
            }
            let n_us = n as usize;
            if inner.len() != 1 + 2 * n_us {
                return Err(PodError::InvalidType);
            }
            assert(p == PodView::Struct(fs));
            assert(fs[0] == PodView::Int(n_us as i32));
            let mut d = Dict::new();
            let mut i: usize = 0;
            while i < n_us
                invariant
                    i <= n_us,
                    n_us <= 0x7fff_ffff,
                    pos < fields@.len(),
                    p == fields@[pos as int]@,
                    p == PodView::Struct(fs),
                    fs[0] == PodView::Int(n_us as i32),
                    fs == pod_views(inner@),
                    fs.len() == inner@.len(),
                    forall|j: int|
                        0 <= j < inner@.len() ==> fs[j] == (#[trigger] inner@[j])@,
                    inner@.len() == 1 + 2 * n_us,
                    d@.len() == i,
                    forall|j: int|
                        0 <= j < i ==> #[trigger] d@[j] == (
                            sp_string(fs[1 + 2 * j]),
                            sp_string(fs[2 + 2 * j]),
                        ) && fs[1 + 2 * j] is String && fs[2 + 2 * j] is String,
                decreases n_us - i,
            {
                let key = match &inner[1 + 2 * i] {
                    Value::String(s) => clone_bytes(s),
                    _ => {
                        proof {
                            assert(fs[1 + 2 * i as int] == inner@[1 + 2 * i as int]@);
                            assert(!(fs[1 + 2 * i as int] is String));
                            assert(!is_dict(p));
                        }
                        return Err(PodError::InvalidType);
                    },
                };
                let value = match &inner[2 + 2 * i] {
                    Value::String(s) => clone_bytes(s),
                    _ => {
                        proof {
                            assert(fs[2 + 2 * i as int] == inner@[2 + 2 * i as int]@);
                            assert(!(fs[2 + 2 * i as int] is String));
                            assert(!is_dict(p));
                        }
                        return Err(PodError::InvalidType);
                    },
                };
                d.push(key, value);
                i = i + 1;
            }
            proof {
                assert forall|j: int| 1 <= j < fs.len() implies (#[trigger] fs[j]) is String by {
                    let k = (j - 1) / 2;
                    assert(d@[k] == (sp_string(fs[1 + 2 * k]), sp_string(fs[2 + 2 * k])));
                    if j % 2 == 1 {
                        assert(j == 1 + 2 * k);
                        assert(fs[1 + 2 * k] is String);
                    } else {
                        assert(j == 2 + 2 * k);
                        assert(fs[2 + 2 * k] is String);
                    }
                }
                assert(is_dict(p));
                assert(d@ =~= dict_of(p));
            }
            Ok((d, pos + 1))
        },
        _ => Err(PodError::InvalidType),
    }
}

// ---------------------------------------------------------------------------
// Plain field readers
// ---------------------------------------------------------------------------

/// Reads a 32-bit integer field.
pub fn read_int(fields: &Vec<Value>, pos: usize) -> (r: Result<(i32, usize), PodError>)
    ensures
        match r {
            Ok((x, np)) => np == pos + 1 && pos < fields@.len() && fields@[pos as int]@
                == PodView::Int(x),
            Err(e) => (pos >= fields@.len() && e == PodError::PropertyMissing) || (pos
                < fields@.len() && !(fields@[pos as int]@ is Int) && e == PodError::InvalidType),
        },
{
    if pos >= fields.len() {
        return Err(PodError::PropertyMissing);
    }
    match &fields[pos] {
        Value::Int(x) => Ok((*x, pos + 1)),
        _ => Err(PodError::InvalidType),
    }
}

/// Reads a 64-bit integer field.
pub fn read_long(fields: &Vec<Value>, pos: usize) -> (r: Result<(i64, usize), PodError>)
    ensures
        match r {
            Ok((x, np)) => np == pos + 1 && pos < fields@.len() && fields@[pos as int]@
                == PodView::Long(x),
            Err(e) => (pos >= fields@.len() && e == PodError::PropertyMissing) || (pos
                < fields@.len() && !(fields@[pos as int]@ is Long) && e == PodError::InvalidType),
        },
{
    if pos >= fields.len() {
        return Err(PodError::PropertyMissing);
    }
    match &fields[pos] {
        Value::Long(x) => Ok((*x, pos + 1)),
        _ => Err(PodError::InvalidType),
    }
}

/// Reads a boolean field.
pub fn read_bool(fields: &Vec<Value>, pos: usize) -> (r: Result<(bool, usize), PodError>)
    ensures
        match r {
            Ok((x, np)) => np == pos + 1 && pos < fields@.len() && fields@[pos as int]@
                == PodView::Bool(x),
            Err(e) => (pos >= fields@.len() && e == PodError::PropertyMissing) || (pos
                < fields@.len() && !(fields@[pos as int]@ is Bool) && e == PodError::InvalidType),
        },
{
    if pos >= fields.len() {
        return Err(PodError::PropertyMissing);
    }
    match &fields[pos] {
        Value::Bool(x) => Ok((*x, pos + 1)),
        _ => Err(PodError::InvalidType),
    }
}

/// Reads an id field.
pub fn read_id(fields: &Vec<Value>, pos: usize) -> (r: Result<(Id, usize), PodError>)
    ensures
        match r {
            Ok((x, np)) => np == pos + 1 && pos < fields@.len() && fields@[pos as int]@
                == PodView::Id(x.0),
            Err(e) => (pos >= fields@.len() && e == PodError::PropertyMissing) || (pos
                < fields@.len() && !(fields@[pos as int]@ is Id) && e == PodError::InvalidType),
        },
{
    if pos >= fields.len() {
        return Err(PodError::PropertyMissing);
    }
    match &fields[pos] {
        Value::Id(x) => Ok((*x, pos + 1)),
        _ => Err(PodError::InvalidType),
    }
}

/// Reads a file-descriptor field.
pub fn read_fd(fields: &Vec<Value>, pos: usize) -> (r: Result<(Fd, usize), PodError>)
    ensures
        match r {
            Ok((x, np)) => np == pos + 1 && pos < fields@.len() && fields@[pos as int]@
                == PodView::Fd(x.0),
            Err(e) => (pos >= fields@.len() && e == PodError::PropertyMissing) || (pos
                < fields@.len() && !(fields@[pos as int]@ is Fd) && e == PodError::InvalidType),
        },
{
    if pos >= fields.len() {
        return Err(PodError::PropertyMissing);
    }
    match &fields[pos] {
        Value::Fd(x) => Ok((*x, pos + 1)),
        _ => Err(PodError::InvalidType),
    }
}

/// Reads a string field, as its bytes without the terminating NUL.
pub fn read_string(fields: &Vec<Value>, pos: usize) -> (r: Result<(Vec<u8>, usize), PodError>)
    ensures
        match r {
            Ok((x, np)) => np == pos + 1 && pos < fields@.len() && fields@[pos as int]@
                == PodView::String(x@),
            Err(e) => (pos >= fields@.len() && e == PodError::PropertyMissing) || (pos
                < fields@.len() && !(fields@[pos as int]@ is String) && e
                == PodError::InvalidType),
        },
{
    if pos >= fields.len() {
        return Err(PodError::PropertyMissing);
    }
    match &fields[pos] {
        Value::String(s) => Ok((clone_bytes(s), pos + 1)),
        _ => Err(PodError::InvalidType),
    }
}

/// Reads any pod field, copying it.
pub fn read_value(fields: &Vec<Value>, pos: usize) -> (r: Result<(Value, usize), PodError>)
    ensures
        match r {
            Ok((x, np)) => np == pos + 1 && pos < fields@.len() && x@ == fields@[pos as int]@,
            Err(e) => pos >= fields@.len() && e == PodError::PropertyMissing,
        },
{
    if pos >= fields.len() {
        return Err(PodError::PropertyMissing);
    }
    Ok((clone_value(&fields[pos]), pos + 1))
}

/// Reads an array-of-id field.
pub fn read_id_array(fields: &Vec<Value>, pos: usize) -> (r: Result<(Vec<Id>, usize), PodError>)
    ensures
        match r {
            Ok((x, np)) => np == pos + 1 && pos < fields@.len() && fields@[pos as int]@
                == PodView::ValueArray(ArrayView::Id(x@.map_values(fview_id()))),
            Err(e) => (pos >= fields@.len() && e == PodError::PropertyMissing) || (pos
                < fields@.len() && !(fields@[pos as int]@ matches PodView::ValueArray(
                ArrayView::Id(_),
            )) && e == PodError::InvalidType),
        },
{
    if pos >= fields.len() {
        return Err(PodError::PropertyMissing);
    }
    match &fields[pos] {
        Value::ValueArray(ValueArray::Id(l)) => Ok((clone_vec_copy(l), pos + 1)),
        _ => Err(PodError::InvalidType),
    }
}

/// Builds a string field from bytes.
pub fn v_string(s: &Vec<u8>) -> (r: Value)
    ensures
        r@ == PodView::String(s@),
{
    Value::String(clone_bytes(s))
}

/// Builds an array-of-id field.
pub fn v_id_array(l: &Vec<Id>) -> (r: Value)
    ensures
        r@ == PodView::ValueArray(ArrayView::Id(l@.map_values(fview_id()))),
{
    Value::ValueArray(ValueArray::Id(clone_vec_copy(l)))
}

// ---------------------------------------------------------------------------
// Integer maps: a Struct of `Int n` then `2n` alternating integers
// ---------------------------------------------------------------------------

/// An integer-keyed map of integers with its wire order kept.
#[derive(Debug, Clone, PartialEq, Eq)]
pub struct IntMap {
    pub entries: Vec<(i32, i32)>,
}

impl View for IntMap {
    type V = Seq<(i32, i32)>;

    open spec fn view(&self) -> Seq<(i32, i32)> {
        self.entries@
    }
}

impl IntMap {
    /// An empty map.
    pub fn new() -> (r: IntMap)
        ensures
            r@ == Seq::<(i32, i32)>::empty(),
    {
        IntMap { entries: Vec::new() }
    }

    /// Appends an entry.
    pub fn push(&mut self, key: i32, value: i32)
        ensures
            final(self)@ == old(self)@.push((key, value)),
    {
        self.entries.push((key, value));
    }
}

/// The alternating key/value integers of an integer-map body.
pub open spec fn int_map_ints(d: Seq<(i32, i32)>) -> Seq<PodView>
    decreases d.len(),
{
    if d.len() <= 0 {
        Seq::empty()
    } else {
        seq![PodView::Int(d[0].0), PodView::Int(d[0].1)] + int_map_ints(d.drop_first())
    }
}

/// The pod an integer map encodes to.
pub open spec fn int_map_pod(d: Seq<(i32, i32)>) -> PodView {
    PodView::Struct(seq![PodView::Int(d.len() as i32)] + int_map_ints(d))
}

/// Whether a pod view has the shape of an integer map.
pub open spec fn is_int_map(p: PodView) -> bool {
    &&& p matches PodView::Struct(fs)
    &&& fs.len() >= 1
    &&& fs[0] matches PodView::Int(n)
    &&& n >= 0
    &&& fs.len() == 1 + 2 * (n as int)
    &&& forall|j: int| 1 <= j < fs.len() ==> (#[trigger] fs[j]) is Int
}

/// The entries of an integer-map-shaped pod view.
pub open spec fn int_map_of(p: PodView) -> Seq<(i32, i32)> {
    match p {
        PodView::Struct(fs) => Seq::new(
            (((fs.len() - 1) / 2) as nat),
            |i: int| (sp_int(fs[1 + 2 * i]), sp_int(fs[2 + 2 * i])),
        ),
        _ => Seq::empty(),
    }
}

/// `int_map_ints` indexed, as for dictionaries.
pub proof fn lemma_int_map_ints(d: Seq<(i32, i32)>)
    ensures
        int_map_ints(d).len() == 2 * d.len(),
        forall|j: int|
            0 <= j < 2 * d.len() ==> #[trigger] int_map_ints(d)[j] == (if j % 2 == 0 {
                PodView::Int(d[j / 2].0)
            } else {
                PodView::Int(d[j / 2].1)
            }),
    decreases d.len(),
{
    if d.len() > 0 {
        lemma_int_map_ints(d.drop_first());
        assert forall|j: int|
            0 <= j < 2 * d.len() implies #[trigger] int_map_ints(d)[j] == (if j % 2 == 0 {
            PodView::Int(d[j / 2].0)
        } else {
            PodView::Int(d[j / 2].1)
        }) by {
            if j >= 2 {
                assert(int_map_ints(d)[j] == int_map_ints(d.drop_first())[j - 2]);
                assert(d.drop_first()[(j - 2) / 2] == d[j / 2]);
            }
        }
    }
}

/// An integer map's encoding is map-shaped and decodes to itself.
pub proof fn lemma_int_map_round_trip(d: Seq<(i32, i32)>)
    requires
        d.len() <= 0x7fff_ffff,
    ensures
        is_int_map(int_map_pod(d)),
        int_map_of(int_map_pod(d)) == d,
{
    lemma_int_map_ints(d);
    let fs = seq![PodView::Int(d.len() as i32)] + int_map_ints(d);
    assert forall|j: int| 1 <= j < fs.len() implies (#[trigger] fs[j]) is Int by {
        assert(fs[j] == int_map_ints(d)[j - 1]);
    }
    assert(int_map_of(int_map_pod(d)).len() == d.len());
    assert forall|i: int| 0 <= i < d.len() implies int_map_of(int_map_pod(d))[i] == d[i] by {
        assert(fs[1 + 2 * i] == int_map_ints(d)[2 * i]);
        assert(fs[2 + 2 * i] == int_map_ints(d)[2 * i + 1]);
        assert((2 * i) / 2 == i && (2 * i + 1) / 2 == i);
    }
    assert(int_map_of(int_map_pod(d)) =~= d);
}

/// Builds the integer-map pod.
pub fn v_int_map(d: &IntMap) -> (r: Result<Value, PodError>)
    ensures
        match r {
            Ok(value) => d@.len() <= 0x7fff_ffff && value@ == int_map_pod(d@),
            Err(_) => d@.len() > 0x7fff_ffff,
        },
{
    if d.entries.len() as u64 > 0x7fff_ffffu64 {
        return Err(PodError::ParseError);
    }
    let mut fields: Vec<Value> = Vec::new();
    fields.push(Value::Int(d.entries.len() as i32));
    let mut i: usize = 0;
    while i < d.entries.len()
        invariant
            i <= d.entries.len(),
            fields@.len() == 1 + 2 * i,
            fields@[0]@ == PodView::Int(d.entries@.len() as i32),
            forall|j: int|
                0 <= j < i ==> (#[trigger] fields@[1 + 2 * j])@ == PodView::Int(d.entries@[j].0)
                    && fields@[2 + 2 * j]@ == PodView::Int(d.entries@[j].1),
        decreases d.entries.len() - i,
    {
        fields.push(Value::Int(d.entries[i].0));
        fields.push(Value::Int(d.entries[i].1));
        i = i + 1;
    }
    let r = Value::Struct(fields);
    proof {
        lemma_pod_views(fields@);
        lemma_int_map_ints(d@);
        let rhs = seq![PodView::Int(d@.len() as i32)] + int_map_ints(d@);
        assert forall|j: int|
            0 <= j < fields@.len() implies pod_views(fields@)[j] == rhs[j] by {
            if j >= 1 {
                let i2 = (j - 1) / 2;
                assert(rhs[j] == int_map_ints(d@)[j - 1]);
                if j % 2 == 1 {
                    assert(j == 1 + 2 * i2);
                    assert((j - 1) % 2 == 0 && (j - 1) / 2 == i2);
                    assert(fields@[1 + 2 * i2]@ == PodView::Int(d.entries@[i2].0));
                } else {
                    assert(j == 2 + 2 * i2);
                    assert((j - 1) % 2 == 1 && (j - 1) / 2 == i2);
                    assert(fields@[2 + 2 * i2]@ == PodView::Int(d.entries@[i2].1));
                }
            }
        }
        assert(pod_views(fields@) =~= rhs);
    }
    Ok(r)
}

/// Reads an integer-map field.
pub fn read_int_map(fields: &Vec<Value>, pos: usize) -> (r: Result<(IntMap, usize), PodError>)
    ensures
        match r {
            Ok((d, np)) => np == pos + 1 && pos < fields@.len() && is_int_map(
                fields@[pos as int]@,
            ) && d@ == int_map_of(fields@[pos as int]@),
            Err(e) => (pos >= fields@.len() && e == PodError::PropertyMissing) || (pos
                < fields@.len() && !is_int_map(fields@[pos as int]@) && e
                == PodError::InvalidType),
        },
{
    if pos >= fields.len() {
        return Err(PodError::PropertyMissing);
    }
    let ghost p = fields@[pos as int]@;
    match &fields[pos] {
        Value::Struct(inner) => {
            let ghost fs = pod_views(inner@);
            proof {
                lemma_pod_views(inner@);
            }
            if inner.len() == 0 {
                return Err(PodError::InvalidType);
            }
            let n: i32 = match &inner[0] {
                Value::Int(n) => *n,
                _ => {
                    return Err(PodError::InvalidType);
                },
            };
            if n < 0 {
                return Err(PodError::InvalidType);
            }
            let n_us = n as usize;
            if inner.len() != 1 + 2 * n_us {
                return Err(PodError::InvalidType);
            }
            assert(p == PodView::Struct(fs));
            assert(fs[0] == PodView::Int(n_us as i32));
            let mut d = IntMap::new();
            let mut i: usize = 0;
            while i < n_us
                invariant
                    i <= n_us,
                    n_us <= 0x7fff_ffff,
                    pos < fields@.len(),
                    p == fields@[pos as int]@,
                    p == PodView::Struct(fs),
                    fs[0] == PodView::Int(n_us as i32),
                    fs == pod_views(inner@),
                    fs.len() == inner@.len(),
                    forall|j: int| 0 <= j < inner@.len() ==> fs[j] == (#[trigger] inner@[j])@,
                    inner@.len() == 1 + 2 * n_us,
                    d@.len() == i,
                    forall|j: int|
                        0 <= j < i ==> #[trigger] d@[j] == (
                            sp_int(fs[1 + 2 * j]),
                            sp_int(fs[2 + 2 * j]),
                        ) && fs[1 + 2 * j] is Int && fs[2 + 2 * j] is Int,
                decreases n_us - i,
            {
                let key = match &inner[1 + 2 * i] {
                    Value::Int(x) => *x,
                    _ => {
                        proof {
                            assert(fs[1 + 2 * i as int] == inner@[1 + 2 * i as int]@);
                            assert(!(fs[1 + 2 * i as int] is Int));
                            assert(!is_int_map(p));
                        }
                        return Err(PodError::InvalidType);
                    },
                };
                let value = match &inner[2 + 2 * i] {
                    Value::Int(x) => *x,
                    _ => {
                        proof {
                            assert(fs[2 + 2 * i as int] == inner@[2 + 2 * i as int]@);
                            assert(!(fs[2 + 2 * i as int] is Int));
                            assert(!is_int_map(p));
                        }
                        return Err(PodError::InvalidType);
                    },
                };
                d.push(key, value);
                i = i + 1;
            }
            proof {
                assert forall|j: int| 1 <= j < fs.len() implies (#[trigger] fs[j]) is Int by {
                    let k = (j - 1) / 2;
                    assert(d@[k] == (sp_int(fs[1 + 2 * k]), sp_int(fs[2 + 2 * k])));
                    if j % 2 == 1 {
                        assert(j == 1 + 2 * k);
                        assert(fs[1 + 2 * k] is Int);
                    } else {
                        assert(j == 2 + 2 * k);
                        assert(fs[2 + 2 * k] is Int);
                    }
                }
                assert(is_int_map(p));
                assert(d@ =~= int_map_of(p));
            }
            Ok((d, pos + 1))
        },
        _ => Err(PodError::InvalidType),
    }
}

} // verus!
