//! The typed POD value model: the tagged union over the PipeWire type
//! system, together with its mathematical view used by every contract.
//!
//! Floating-point payloads are carried as their IEEE-754 bit patterns
//! (`u32` for 32-bit floats, `u64` for 64-bit floats); the wire encoding
//! of a float is exactly the little-endian encoding of its bits, so the
//! codec below is unaffected by this representation.

use vstd::prelude::*;

verus! {

/// An enumerated value in a pod.
#[derive(Debug, Copy, Clone, Eq, PartialEq, Structural)]
pub struct Id(pub u32);

/// A file descriptor in a pod: a positional index into the ancillary
/// fd array of the message that carried it.
#[derive(Debug, Copy, Clone, Eq, PartialEq, Structural)]
pub struct Fd(pub i64);

/// A rectangle with width and height.
#[derive(Debug, Copy, Clone, Eq, PartialEq, Structural)]
pub struct Rectangle {
    pub width: u32,
    pub height: u32,
}

/// A fraction with numerator and denominator.
#[derive(Debug, Copy, Clone, Eq, PartialEq, Structural)]
pub struct Fraction {
    pub num: u32,
    pub denom: u32,
}

/// The flags and alternatives of a choice pod.
#[derive(Debug, Clone, PartialEq)]
pub struct Choice<T>(pub u32, pub ChoiceEnum<T>);

/// The alternatives a choice pod offers.
#[derive(Debug, Clone, PartialEq)]
pub enum ChoiceEnum<T> {
    /// No choice: a fixed value.
    Fixed(T),
    /// A range.
    Range { default: T, min: T, max: T },
    /// A range with a step.
    Step { default: T, min: T, max: T, step: T },
    /// A list of alternatives.
    Enum { default: T, alternatives: Vec<T> },
    /// A set of flags.
    Flags { default: T, flags: Vec<T> },
}

/// A typed choice.
#[derive(Debug, Clone, PartialEq)]
pub enum ChoiceValue {
    Bool(Choice<bool>),
    Int(Choice<i32>),
    Long(Choice<i64>),
    /// Choice over 32-bit floats, carried as IEEE-754 bits.
    Float(Choice<u32>),
    /// Choice over 64-bit floats, carried as IEEE-754 bits.
    Double(Choice<u64>),
    Id(Choice<Id>),
    Rectangle(Choice<Rectangle>),
    Fraction(Choice<Fraction>),
    Fd(Choice<Fd>),
}

/// An array of same-type values.
#[derive(Debug, Clone, PartialEq)]
pub enum ValueArray {
    Null(Vec<()>),
    Bool(Vec<bool>),
    Id(Vec<Id>),
    Int(Vec<i32>),
    Long(Vec<i64>),
    /// 32-bit floats, carried as IEEE-754 bits.
    Float(Vec<u32>),
    /// 64-bit floats, carried as IEEE-754 bits.
    Double(Vec<u64>),
    Rectangle(Vec<Rectangle>),
    Fraction(Vec<Fraction>),
    Fd(Vec<Fd>),
}

/// An object property.
#[derive(Debug, PartialEq)]
pub struct Property {
    /// Key of the property; the list of valid keys depends on the object type.
    pub key: u32,
    /// Flags for the property.
    pub flags: u32,
    /// Value of the property.
    pub value: Value,
}

impl Property {
    /// A property with the given key and value and no flags set.
    pub fn new(key: u32, value: Value) -> (r: Property)
        ensures
            r.key == key,
            r.flags == 0,
            r.value == value,
    {
        Property { key, flags: 0, value }
    }
}

/// An object from a pod.
#[derive(Debug, PartialEq)]
pub struct Object {
    /// The object type.
    pub type_: u32,
    /// The object id.
    pub id: u32,
    /// The object properties.
    pub properties: Vec<Property>,
}

/// A typed pod value.
#[derive(Debug, PartialEq)]
pub enum Value {
    /// No value.
    Null,
    /// A boolean value.
    Bool(bool),
    /// An enumerated value.
    Id(Id),
    /// A 32-bit integer.
    Int(i32),
    /// A 64-bit integer.
    Long(i64),
    /// A 32-bit float, carried as its IEEE-754 bits.
    Float(u32),
    /// A 64-bit float, carried as its IEEE-754 bits.
    Double(u64),
    /// A string: UTF-8 bytes without the terminating NUL.
    String(Vec<u8>),
    /// A byte array.
    Bytes(Vec<u8>),
    /// A rectangle with width and height.
    Rectangle(Rectangle),
    /// A fraction with numerator and denominator.
    Fraction(Fraction),
    /// A file descriptor index.
    Fd(Fd),
    /// An array of same-type values.
    ValueArray(ValueArray),
    /// A heterogeneous sequence of values.
    Struct(Vec<Value>),
    /// An object.
    Object(Object),
    /// A choice.
    Choice(ChoiceValue),
    /// A pointer: a type code and an address.
    Pointer(u32, u64),
}

// ---------------------------------------------------------------------------
// Mathematical views
// ---------------------------------------------------------------------------

/// The view of a choice: flags plus the alternatives over plain values.
pub enum ChoiceEnumView<T> {
    Fixed(T),
    Range { default: T, min: T, max: T },
    Step { default: T, min: T, max: T, step: T },
    Enum { default: T, alternatives: Seq<T> },
    Flags { default: T, flags: Seq<T> },
}

/// The view of a typed choice; each variant carries the flags word.
pub enum ChoiceView {
    Bool(u32, ChoiceEnumView<bool>),
    Int(u32, ChoiceEnumView<i32>),
    Long(u32, ChoiceEnumView<i64>),
    Float(u32, ChoiceEnumView<u32>),
    Double(u32, ChoiceEnumView<u64>),
    Id(u32, ChoiceEnumView<u32>),
    Rectangle(u32, ChoiceEnumView<(u32, u32)>),
    Fraction(u32, ChoiceEnumView<(u32, u32)>),
    Fd(u32, ChoiceEnumView<i64>),
}

/// The view of an array of same-type values.
pub enum ArrayView {
    Null(Seq<()>),
    Bool(Seq<bool>),
    Id(Seq<u32>),
    Int(Seq<i32>),
    Long(Seq<i64>),
    Float(Seq<u32>),
    Double(Seq<u64>),
    Rectangle(Seq<(u32, u32)>),
    Fraction(Seq<(u32, u32)>),
    Fd(Seq<i64>),
}

/// The view of an object property.
pub struct PropertyView {
    pub key: u32,
    pub flags: u32,
    pub value: PodView,
}

/// The view of an object.
pub struct ObjectView {
    pub type_: u32,
    pub id: u32,
    pub properties: Seq<PropertyView>,
}

/// The view of a pod value: the same tree over mathematical sequences.
pub enum PodView {
    Null,
    Bool(bool),
    Id(u32),
    Int(i32),
    Long(i64),
    Float(u32),
    Double(u64),
    String(Seq<u8>),
    Bytes(Seq<u8>),
    Rectangle(u32, u32),
    Fraction(u32, u32),
    Fd(i64),
    ValueArray(ArrayView),
    Struct(Seq<PodView>),
    Object(ObjectView),
    Choice(ChoiceView),
    Pointer(u32, u64),
}

/// Element view maps, named so the codec's contracts and the executable
/// deserializer speak of the same function values.
pub open spec fn fview_id() -> spec_fn(Id) -> u32 {
    |x: Id| x.0
}

pub open spec fn fview_fd() -> spec_fn(Fd) -> i64 {
    |x: Fd| x.0
}

pub open spec fn fview_rect() -> spec_fn(Rectangle) -> (u32, u32) {
    |x: Rectangle| (x.width, x.height)
}

pub open spec fn fview_frac() -> spec_fn(Fraction) -> (u32, u32) {
    |x: Fraction| (x.num, x.denom)
}

/// The identity element view.
pub open spec fn fident<T>() -> spec_fn(T) -> T {
    |x: T| x
}

/// Maps a choice's alternatives through an element view.
pub open spec fn choice_enum_view<T, U>(c: ChoiceEnum<T>, f: spec_fn(T) -> U) -> ChoiceEnumView<
    U,
> {
    match c {
        ChoiceEnum::Fixed(d) => ChoiceEnumView::Fixed(f(d)),
        ChoiceEnum::Range { default, min, max } => ChoiceEnumView::Range {
            default: f(default),
            min: f(min),
            max: f(max),
        },
        ChoiceEnum::Step { default, min, max, step } => ChoiceEnumView::Step {
            default: f(default),
            min: f(min),
            max: f(max),
            step: f(step),
        },
        ChoiceEnum::Enum { default, alternatives } => ChoiceEnumView::Enum {
            default: f(default),
            alternatives: alternatives@.map_values(f),
        },
        ChoiceEnum::Flags { default, flags } => ChoiceEnumView::Flags {
            default: f(default),
            flags: flags@.map_values(f),
        },
    }
}

/// The view of a typed choice.
pub open spec fn choice_view(c: ChoiceValue) -> ChoiceView {
    match c {
        ChoiceValue::Bool(Choice(fl, ce)) => ChoiceView::Bool(
            fl,
            choice_enum_view(ce, fident::<bool>()),
        ),
        ChoiceValue::Int(Choice(fl, ce)) => ChoiceView::Int(fl, choice_enum_view(ce, fident::<i32>())),
        ChoiceValue::Long(Choice(fl, ce)) => ChoiceView::Long(
            fl,
            choice_enum_view(ce, fident::<i64>()),
        ),
        ChoiceValue::Float(Choice(fl, ce)) => ChoiceView::Float(
            fl,
            choice_enum_view(ce, fident::<u32>()),
        ),
        ChoiceValue::Double(Choice(fl, ce)) => ChoiceView::Double(
            fl,
            choice_enum_view(ce, fident::<u64>()),
        ),
        ChoiceValue::Id(Choice(fl, ce)) => ChoiceView::Id(
            fl,
            choice_enum_view(ce, fview_id()),
        ),
        ChoiceValue::Rectangle(Choice(fl, ce)) => ChoiceView::Rectangle(
            fl,
            choice_enum_view(ce, fview_rect()),
        ),
        ChoiceValue::Fraction(Choice(fl, ce)) => ChoiceView::Fraction(
            fl,
            choice_enum_view(ce, fview_frac()),
        ),
        ChoiceValue::Fd(Choice(fl, ce)) => ChoiceView::Fd(fl, choice_enum_view(ce, fview_fd())),
    }
}

/// The view of an array of same-type values.
pub open spec fn array_view(a: ValueArray) -> ArrayView {
    match a {
        ValueArray::Null(v) => ArrayView::Null(v@),
        ValueArray::Bool(v) => ArrayView::Bool(v@),
        ValueArray::Id(v) => ArrayView::Id(v@.map_values(fview_id())),
        ValueArray::Int(v) => ArrayView::Int(v@),
        ValueArray::Long(v) => ArrayView::Long(v@),
        ValueArray::Float(v) => ArrayView::Float(v@),
        ValueArray::Double(v) => ArrayView::Double(v@),
        ValueArray::Rectangle(v) => ArrayView::Rectangle(
            v@.map_values(fview_rect()),
        ),
        ValueArray::Fraction(v) => ArrayView::Fraction(
            v@.map_values(fview_frac()),
        ),
        ValueArray::Fd(v) => ArrayView::Fd(v@.map_values(fview_fd())),
    }
}

/// The view of a pod value.
pub open spec fn pod_view(v: Value) -> PodView
    decreases v,
{
    match v {
        Value::Null => PodView::Null,
        Value::Bool(b) => PodView::Bool(b),
        Value::Id(x) => PodView::Id(x.0),
        Value::Int(x) => PodView::Int(x),
        Value::Long(x) => PodView::Long(x),
        Value::Float(x) => PodView::Float(x),
        Value::Double(x) => PodView::Double(x),
        Value::String(s) => PodView::String(s@),
        Value::Bytes(b) => PodView::Bytes(b@),
        Value::Rectangle(r) => PodView::Rectangle(r.width, r.height),
        Value::Fraction(f) => PodView::Fraction(f.num, f.denom),
        Value::Fd(f) => PodView::Fd(f.0),
        Value::ValueArray(a) => PodView::ValueArray(array_view(a)),
        Value::Struct(children) => PodView::Struct(pod_views(children@)),
        Value::Object(o) => PodView::Object(
            ObjectView { type_: o.type_, id: o.id, properties: property_views(o.properties@) },
        ),
        Value::Choice(c) => PodView::Choice(choice_view(c)),
        Value::Pointer(ty, addr) => PodView::Pointer(ty, addr),
    }
}

/// The views of a sequence of pod values, in order.
pub open spec fn pod_views(l: Seq<Value>) -> Seq<PodView>
    decreases l,
{
    if l.len() == 0 {
        Seq::empty()
    } else {
        pod_views(l.drop_last()).push(pod_view(l.last()))
    }
}

/// The views of a sequence of object properties, in order.
pub open spec fn property_views(l: Seq<Property>) -> Seq<PropertyView>
    decreases l,
{
    if l.len() == 0 {
        Seq::empty()
    } else {
        property_views(l.drop_last()).push(
            PropertyView {
                key: l.last().key,
                flags: l.last().flags,
                value: pod_view(l.last().value),
            },
        )
    }
}

/// `pod_views` maps the element view over the sequence.
pub proof fn lemma_pod_views(l: Seq<Value>)
    ensures
        pod_views(l).len() == l.len(),
        forall|i: int| 0 <= i < l.len() ==> pod_views(l)[i] == pod_view(#[trigger] l[i]),
    decreases l.len(),
{
    if l.len() > 0 {
        lemma_pod_views(l.drop_last());
        assert forall|i: int| 0 <= i < l.len() implies pod_views(l)[i] == pod_view(l[i]) by {
            if i < l.len() - 1 {
                assert(l.drop_last()[i] == l[i]);
            } else {
                assert(l.last() == l[i]);
            }
        }
    }
}

/// `property_views` maps the element view over the sequence.
pub proof fn lemma_property_views(l: Seq<Property>)
    ensures
        property_views(l).len() == l.len(),
        forall|i: int|
            0 <= i < l.len() ==> property_views(l)[i] == (PropertyView {
                key: l[i].key,
                flags: l[i].flags,
                value: pod_view(l[i].value),
            }),
    decreases l.len(),
{
    if l.len() > 0 {
        lemma_property_views(l.drop_last());
        assert forall|i: int|
            0 <= i < l.len() implies property_views(l)[i] == (PropertyView {
                key: l[i].key,
                flags: l[i].flags,
                value: pod_view(l[i].value),
            }) by {
            if i < l.len() - 1 {
                assert(l.drop_last()[i] == l[i]);
            } else {
                assert(l.last() == l[i]);
            }
        }
    }
}

impl View for Value {
    type V = PodView;

    open spec fn view(&self) -> PodView {
        pod_view(*self)
    }
}

/// Maps an already-viewed choice body through a further element view.
pub open spec fn cev_map<T, U>(c: ChoiceEnumView<T>, f: spec_fn(T) -> U) -> ChoiceEnumView<U> {
    match c {
        ChoiceEnumView::Fixed(d) => ChoiceEnumView::Fixed(f(d)),
        ChoiceEnumView::Range { default, min, max } => ChoiceEnumView::Range {
            default: f(default),
            min: f(min),
            max: f(max),
        },
        ChoiceEnumView::Step { default, min, max, step } => ChoiceEnumView::Step {
            default: f(default),
            min: f(min),
            max: f(max),
            step: f(step),
        },
        ChoiceEnumView::Enum { default, alternatives } => ChoiceEnumView::Enum {
            default: f(default),
            alternatives: alternatives.map_values(f),
        },
        ChoiceEnumView::Flags { default, flags } => ChoiceEnumView::Flags {
            default: f(default),
            flags: flags.map_values(f),
        },
    }
}

/// Viewing a choice body through `f` is viewing it through the identity
/// and then mapping.
pub proof fn lemma_choice_enum_view_map<T, U>(ce: ChoiceEnum<T>, f: spec_fn(T) -> U)
    ensures
        choice_enum_view(ce, f) == cev_map(choice_enum_view(ce, fident::<T>()), f),
{
    match ce {
        ChoiceEnum::Fixed(_) => {
        },
        ChoiceEnum::Range { .. } => {
        },
        ChoiceEnum::Step { .. } => {
        },
        ChoiceEnum::Enum { default, alternatives } => {
            assert(alternatives@.map_values(fident::<T>()).map_values(f) =~= alternatives@
                .map_values(f));
        },
        ChoiceEnum::Flags { default, flags } => {
            assert(flags@.map_values(fident::<T>()).map_values(f) =~= flags@.map_values(f));
        },
    }
}

} // verus!
