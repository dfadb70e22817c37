//! The executable POD deserializer, specified exactly against
//! `parse_pod`: it returns precisely what the mathematical parser returns
//! on the same window, value and consumed position alike.

use vstd::bytes::{u32_from_le_bytes, u64_from_le_bytes};
use vstd::prelude::*;
use vstd::slice::{slice_subrange, slice_to_vec};

use crate::codec::{
    ce_of, fdec_bool, fdec_i32, fdec_i64, fdec_pair, fdec_u32, fdec_u64, i32_of_u32, i64_of_u64,
    lemma_ce_of_map, lemma_parse_elems_snoc, pad8, parse_array, parse_choice, parse_elems,
    parse_pod, parse_pods, parse_props, r32, r64, CHOICE_ENUM, CHOICE_FLAGS, CHOICE_NONE,
    CHOICE_RANGE, CHOICE_STEP, TYPE_ARRAY, TYPE_BOOL, TYPE_BYTES, TYPE_CHOICE, TYPE_DOUBLE,
    TYPE_FD, TYPE_FLOAT, TYPE_FRACTION, TYPE_ID, TYPE_INT, TYPE_LONG, TYPE_NONE, TYPE_OBJECT,
    TYPE_POINTER, TYPE_RECTANGLE, TYPE_STRING, TYPE_STRUCT,
};
use crate::error::PodError;
use crate::value::{
    choice_enum_view, cev_map, fident, fview_fd, fview_frac, fview_id, fview_rect,
    lemma_choice_enum_view_map, lemma_pod_views, lemma_property_views, pod_view, pod_views,
    property_views, ArrayView, Choice, ChoiceEnum, ChoiceEnumView, ChoiceValue, ChoiceView, Fd,
    Fraction, Id, Object, PodView, Property, PropertyView, Rectangle, Value, ValueArray,
};

verus! {

/// Reads the 32-bit little-endian word at `i`.
pub fn read_u32(buf: &Vec<u8>, i: usize) -> (x: u32)
    requires
        i + 4 <= buf.len(),
    ensures
        x == r32(buf@, i as int),
{
    u32_from_le_bytes(slice_subrange(buf.as_slice(), i, i + 4))
}

/// Reads the 64-bit little-endian word at `i`.
pub fn read_u64(buf: &Vec<u8>, i: usize) -> (x: u64)
    requires
        i + 8 <= buf.len(),
    ensures
        x == r64(buf@, i as int),
{
    u64_from_le_bytes(slice_subrange(buf.as_slice(), i, i + 8))
}

/// Reads the signed 32-bit value at `i`.
fn read_i32(buf: &Vec<u8>, i: usize) -> (x: i32)
    requires
        i + 4 <= buf.len(),
    ensures
        x == i32_of_u32(r32(buf@, i as int)),
{
    let u = read_u32(buf, i);
    if u < 0x8000_0000 {
        u as i32
    } else {
        ((u as i64) - 0x1_0000_0000i64) as i32
    }
}

/// Reads the signed 64-bit value at `i`.
fn read_i64(buf: &Vec<u8>, i: usize) -> (x: i64)
    requires
        i + 8 <= buf.len(),
    ensures
        x == i64_of_u64(r64(buf@, i as int)),
{
    let u = read_u64(buf, i);
    if u < 0x8000_0000_0000_0000 {
        u as i64
    } else {
        ((u as i128) - 0x1_0000_0000_0000_0000i128) as i64
    }
}

// ---------------------------------------------------------------------------
// Element runs
// ---------------------------------------------------------------------------

fn de_run_bool(buf: &Vec<u8>, eb: usize, n: usize) -> (r: Vec<bool>)
    requires
        eb + n * 4 <= buf.len(),
    ensures
        r@ == parse_elems(buf@, eb as int, n as int, 4, fdec_bool()),
{
    let mut out: Vec<bool> = Vec::new();
    let mut i: usize = 0;
    while i < n
        invariant
            i <= n,
            eb + n * 4 <= buf.len(),
            out@ == parse_elems(buf@, eb as int, i as int, 4, fdec_bool()),
        decreases n - i,
    {
        out.push(read_u32(buf, eb + 4 * i) != 0);
        proof {
            lemma_parse_elems_snoc(buf@, eb as int, i as int, 4, fdec_bool());
        }
        i = i + 1;
    }
    out
}

fn de_run_u32(buf: &Vec<u8>, eb: usize, n: usize) -> (r: Vec<u32>)
    requires
        eb + n * 4 <= buf.len(),
    ensures
        r@ == parse_elems(buf@, eb as int, n as int, 4, fdec_u32()),
{
    let mut out: Vec<u32> = Vec::new();
    let mut i: usize = 0;
    while i < n
        invariant
            i <= n,
            eb + n * 4 <= buf.len(),
            out@ == parse_elems(buf@, eb as int, i as int, 4, fdec_u32()),
        decreases n - i,
    {
        out.push(read_u32(buf, eb + 4 * i));
        proof {
            lemma_parse_elems_snoc(buf@, eb as int, i as int, 4, fdec_u32());
        }
        i = i + 1;
    }
    out
}

fn de_run_i32(buf: &Vec<u8>, eb: usize, n: usize) -> (r: Vec<i32>)
    requires
        eb + n * 4 <= buf.len(),
    ensures
        r@ == parse_elems(buf@, eb as int, n as int, 4, fdec_i32()),
{
    let mut out: Vec<i32> = Vec::new();
    let mut i: usize = 0;
    while i < n
        invariant
            i <= n,
            eb + n * 4 <= buf.len(),
            out@ == parse_elems(buf@, eb as int, i as int, 4, fdec_i32()),
        decreases n - i,
    {
        out.push(read_i32(buf, eb + 4 * i));
        proof {
            lemma_parse_elems_snoc(buf@, eb as int, i as int, 4, fdec_i32());
        }
        i = i + 1;
    }
    out
}

fn de_run_i64(buf: &Vec<u8>, eb: usize, n: usize) -> (r: Vec<i64>)
    requires
        eb + n * 8 <= buf.len(),
    ensures
        r@ == parse_elems(buf@, eb as int, n as int, 8, fdec_i64()),
{
    let mut out: Vec<i64> = Vec::new();
    let mut i: usize = 0;
    while i < n
        invariant
            i <= n,
            eb + n * 8 <= buf.len(),
            out@ == parse_elems(buf@, eb as int, i as int, 8, fdec_i64()),
        decreases n - i,
    {
        out.push(read_i64(buf, eb + 8 * i));
        proof {
            lemma_parse_elems_snoc(buf@, eb as int, i as int, 8, fdec_i64());
        }
        i = i + 1;
    }
    out
}

fn de_run_u64(buf: &Vec<u8>, eb: usize, n: usize) -> (r: Vec<u64>)
    requires
        eb + n * 8 <= buf.len(),
    ensures
        r@ == parse_elems(buf@, eb as int, n as int, 8, fdec_u64()),
{
    let mut out: Vec<u64> = Vec::new();
    let mut i: usize = 0;
    while i < n
        invariant
            i <= n,
            eb + n * 8 <= buf.len(),
            out@ == parse_elems(buf@, eb as int, i as int, 8, fdec_u64()),
        decreases n - i,
    {
        out.push(read_u64(buf, eb + 8 * i));
        proof {
            lemma_parse_elems_snoc(buf@, eb as int, i as int, 8, fdec_u64());
        }
        i = i + 1;
    }
    out
}

fn de_run_id(buf: &Vec<u8>, eb: usize, n: usize) -> (r: Vec<Id>)
    requires
        eb + n * 4 <= buf.len(),
    ensures
        r@.map_values(fview_id()) == parse_elems(buf@, eb as int, n as int, 4, fdec_u32()),
{
    let mut out: Vec<Id> = Vec::new();
    let mut i: usize = 0;
    while i < n
        invariant
            i <= n,
            eb + n * 4 <= buf.len(),
            out@.map_values(fview_id()) == parse_elems(buf@, eb as int, i as int, 4, fdec_u32()),
        decreases n - i,
    {
        let ghost prev = out@;
        out.push(Id(read_u32(buf, eb + 4 * i)));
        proof {
            lemma_parse_elems_snoc(buf@, eb as int, i as int, 4, fdec_u32());
            assert(out@.map_values(fview_id()) =~= prev.map_values(fview_id()).push(
                r32(buf@, eb + 4 * i),
            ));
        }
        i = i + 1;
    }
    out
}

fn de_run_fd(buf: &Vec<u8>, eb: usize, n: usize) -> (r: Vec<Fd>)
    requires
        eb + n * 8 <= buf.len(),
    ensures
        r@.map_values(fview_fd()) == parse_elems(buf@, eb as int, n as int, 8, fdec_i64()),
{
    let mut out: Vec<Fd> = Vec::new();
    let mut i: usize = 0;
    while i < n
        invariant
            i <= n,
            eb + n * 8 <= buf.len(),
            out@.map_values(fview_fd()) == parse_elems(buf@, eb as int, i as int, 8, fdec_i64()),
        decreases n - i,
    {
        let ghost prev = out@;
        out.push(Fd(read_i64(buf, eb + 8 * i)));
        proof {
            lemma_parse_elems_snoc(buf@, eb as int, i as int, 8, fdec_i64());
            assert(out@.map_values(fview_fd()) =~= prev.map_values(fview_fd()).push(
                i64_of_u64(r64(buf@, eb + 8 * i)),
            ));
        }
        i = i + 1;
    }
    out
}

fn de_run_rect(buf: &Vec<u8>, eb: usize, n: usize) -> (r: Vec<Rectangle>)
    requires
        eb + n * 8 <= buf.len(),
    ensures
        r@.map_values(fview_rect()) == parse_elems(buf@, eb as int, n as int, 8, fdec_pair()),
{
    let mut out: Vec<Rectangle> = Vec::new();
    let mut i: usize = 0;
    while i < n
        invariant
            i <= n,
            eb + n * 8 <= buf.len(),
            out@.map_values(fview_rect()) == parse_elems(buf@, eb as int, i as int, 8, fdec_pair()),
        decreases n - i,
    {
        let ghost prev = out@;
        let w = read_u32(buf, eb + 8 * i);
        let h = read_u32(buf, eb + 8 * i + 4);
        out.push(Rectangle { width: w, height: h });
        proof {
            lemma_parse_elems_snoc(buf@, eb as int, i as int, 8, fdec_pair());
            assert(out@.map_values(fview_rect()) =~= prev.map_values(fview_rect()).push(
                (r32(buf@, eb + 8 * i), r32(buf@, eb + 8 * i + 4)),
            ));
        }
        i = i + 1;
    }
    out
}

fn de_run_frac(buf: &Vec<u8>, eb: usize, n: usize) -> (r: Vec<Fraction>)
    requires
        eb + n * 8 <= buf.len(),
    ensures
        r@.map_values(fview_frac()) == parse_elems(buf@, eb as int, n as int, 8, fdec_pair()),
{
    let mut out: Vec<Fraction> = Vec::new();
    let mut i: usize = 0;
    while i < n
        invariant
            i <= n,
            eb + n * 8 <= buf.len(),
            out@.map_values(fview_frac()) == parse_elems(buf@, eb as int, i as int, 8, fdec_pair()),
        decreases n - i,
    {
        let ghost prev = out@;
        let a = read_u32(buf, eb + 8 * i);
        let d = read_u32(buf, eb + 8 * i + 4);
        out.push(Fraction { num: a, denom: d });
        proof {
            lemma_parse_elems_snoc(buf@, eb as int, i as int, 8, fdec_pair());
            assert(out@.map_values(fview_frac()) =~= prev.map_values(fview_frac()).push(
                (r32(buf@, eb + 8 * i), r32(buf@, eb + 8 * i + 4)),
            ));
        }
        i = i + 1;
    }
    out
}

// ---------------------------------------------------------------------------
// Choices
// ---------------------------------------------------------------------------

/// Rebuilds a choice body from its kind code and element list.
fn ce_from<T: Copy>(ctype: u32, elems: &Vec<T>) -> (r: Result<ChoiceEnum<T>, PodError>)
    ensures
        match r {
            Ok(ce) => ce_of(ctype, elems@) == Ok::<ChoiceEnumView<T>, PodError>(
                choice_enum_view(ce, fident::<T>()),
            ),
            Err(e) => ce_of(ctype, elems@) == Err::<ChoiceEnumView<T>, PodError>(e),
        },
{
    if ctype == CHOICE_NONE {
        if elems.len() >= 1 {
            Ok(ChoiceEnum::Fixed(elems[0]))
        } else {
            Err(PodError::MissingChoiceValues)
        }
    } else if ctype == CHOICE_RANGE {
        if elems.len() >= 3 {
            Ok(ChoiceEnum::Range { default: elems[0], min: elems[1], max: elems[2] })
        } else {
            Err(PodError::MissingChoiceValues)
        }
    } else if ctype == CHOICE_STEP {
        if elems.len() >= 4 {
            Ok(
                ChoiceEnum::Step {
                    default: elems[0],
                    min: elems[1],
                    max: elems[2],
                    step: elems[3],
                },
            )
        } else {
            Err(PodError::MissingChoiceValues)
        }
    } else if ctype == CHOICE_ENUM {
        if elems.len() >= 1 {
            let alternatives = slice_to_vec(slice_subrange(elems.as_slice(), 1, elems.len()));
            let r = ChoiceEnum::Enum { default: elems[0], alternatives };
            proof {
                assert(alternatives@.map_values(fident::<T>()) =~= elems@.drop_first());
            }
            Ok(r)
        } else {
            Err(PodError::MissingChoiceValues)
        }
    } else if ctype == CHOICE_FLAGS {
        if elems.len() >= 1 {
            let flags = slice_to_vec(slice_subrange(elems.as_slice(), 1, elems.len()));
            let r = ChoiceEnum::Flags { default: elems[0], flags };
            proof {
                assert(flags@.map_values(fident::<T>()) =~= elems@.drop_first());
            }
            Ok(r)
        } else {
            Err(PodError::MissingChoiceValues)
        }
    } else {
        Err(PodError::InvalidChoiceType)
    }
}

// ---------------------------------------------------------------------------
// Arrays
// ---------------------------------------------------------------------------

/// Decodes an array body of `size` bytes at `b`.
#[verifier::rlimit(60)]
fn de_array(buf: &Vec<u8>, b: usize, size: usize) -> (r: Result<ValueArray, PodError>)
    requires
        size >= 8,
        b + size <= buf.len(),
    ensures
        match r {
            Ok(a) => parse_array(buf@, b as int, size as int) == Ok::<ArrayView, PodError>(
                crate::value::array_view(a),
            ),
            Err(e) => parse_array(buf@, b as int, size as int) == Err::<ArrayView, PodError>(e),
        },
{
    let esz = read_u32(buf, b);
    let ecode = read_u32(buf, b + 4);
    let eb = b + 8;
    let nb = size - 8;
    if ecode == TYPE_NONE {
        if esz == 0 && nb == 0 {
            let a = ValueArray::Null(Vec::new());
            assert(crate::value::array_view(a) =~= ArrayView::Null(Seq::<()>::empty()));
            Ok(a)
        } else {
            Err(PodError::ParseError)
        }
    } else if ecode == TYPE_BOOL {
        if esz == 4 && nb % 4 == 0 {
            let n = nb / 4;
            assert(eb + n * 4 <= buf.len()) by (nonlinear_arith)
                requires
                    nb % 4 == 0,
                    n == nb / 4,
                    eb + nb <= buf.len(),
            ;
            Ok(ValueArray::Bool(de_run_bool(buf, eb, n)))
        } else {
            Err(PodError::ParseError)
        }
    } else if ecode == TYPE_ID {
        if esz == 4 && nb % 4 == 0 {
            let n = nb / 4;
            assert(eb + n * 4 <= buf.len()) by (nonlinear_arith)
                requires
                    nb % 4 == 0,
                    n == nb / 4,
                    eb + nb <= buf.len(),
            ;
            Ok(ValueArray::Id(de_run_id(buf, eb, n)))
        } else {
            Err(PodError::ParseError)
        }
    } else if ecode == TYPE_INT {
        if esz == 4 && nb % 4 == 0 {
            let n = nb / 4;
            assert(eb + n * 4 <= buf.len()) by (nonlinear_arith)
                requires
                    nb % 4 == 0,
                    n == nb / 4,
                    eb + nb <= buf.len(),
            ;
            Ok(ValueArray::Int(de_run_i32(buf, eb, n)))
        } else {
            Err(PodError::ParseError)
        }
    } else if ecode == TYPE_LONG {
        if esz == 8 && nb % 8 == 0 {
            let n = nb / 8;
            assert(eb + n * 8 <= buf.len()) by (nonlinear_arith)
                requires
                    nb % 8 == 0,
                    n == nb / 8,
                    eb + nb <= buf.len(),
            ;
            Ok(ValueArray::Long(de_run_i64(buf, eb, n)))
        } else {
            Err(PodError::ParseError)
        }
    } else if ecode == TYPE_FLOAT {
        if esz == 4 && nb % 4 == 0 {
            let n = nb / 4;
            assert(eb + n * 4 <= buf.len()) by (nonlinear_arith)
                requires
                    nb % 4 == 0,
                    n == nb / 4,
                    eb + nb <= buf.len(),
            ;
            Ok(ValueArray::Float(de_run_u32(buf, eb, n)))
        } else {
            Err(PodError::ParseError)
        }
    } else if ecode == TYPE_DOUBLE {
        if esz == 8 && nb % 8 == 0 {
            let n = nb / 8;
            assert(eb + n * 8 <= buf.len()) by (nonlinear_arith)
                requires
                    nb % 8 == 0,
                    n == nb / 8,
                    eb + nb <= buf.len(),
            ;
            Ok(ValueArray::Double(de_run_u64(buf, eb, n)))
        } else {
            Err(PodError::ParseError)
        }
    } else if ecode == TYPE_RECTANGLE {
        if esz == 8 && nb % 8 == 0 {
            let n = nb / 8;
            assert(eb + n * 8 <= buf.len()) by (nonlinear_arith)
                requires
                    nb % 8 == 0,
                    n == nb / 8,
                    eb + nb <= buf.len(),
            ;
            Ok(ValueArray::Rectangle(de_run_rect(buf, eb, n)))
        } else {
            Err(PodError::ParseError)
        }
    } else if ecode == TYPE_FRACTION {
        if esz == 8 && nb % 8 == 0 {
            let n = nb / 8;
            assert(eb + n * 8 <= buf.len()) by (nonlinear_arith)
                requires
                    nb % 8 == 0,
                    n == nb / 8,
                    eb + nb <= buf.len(),
            ;
            Ok(ValueArray::Fraction(de_run_frac(buf, eb, n)))
        } else {
            Err(PodError::ParseError)
        }
    } else if ecode == TYPE_FD {
        if esz == 8 && nb % 8 == 0 {
            let n = nb / 8;
            assert(eb + n * 8 <= buf.len()) by (nonlinear_arith)
                requires
                    nb % 8 == 0,
                    n == nb / 8,
                    eb + nb <= buf.len(),
            ;
            Ok(ValueArray::Fd(de_run_fd(buf, eb, n)))
        } else {
            Err(PodError::ParseError)
        }
    } else {
        Err(PodError::UnsupportedType)
    }
}

// ---------------------------------------------------------------------------
// Choices
// ---------------------------------------------------------------------------

/// Decodes a choice body of `size` bytes at `b`.
#[verifier::rlimit(100)]
fn de_choice(buf: &Vec<u8>, b: usize, size: usize) -> (r: Result<ChoiceValue, PodError>)
    requires
        size >= 16,
        b + size <= buf.len(),
    ensures
        match r {
            Ok(c) => parse_choice(buf@, b as int, size as int) == Ok::<ChoiceView, PodError>(
                crate::value::choice_view(c),
            ),
            Err(e) => parse_choice(buf@, b as int, size as int) == Err::<ChoiceView, PodError>(e),
        },
{
    let ctype = read_u32(buf, b);
    let cflags = read_u32(buf, b + 4);
    let esz = read_u32(buf, b + 8);
    let ecode = read_u32(buf, b + 12);
    let eb = b + 16;
    let nb = size - 16;
    if ctype > CHOICE_FLAGS {
        return Err(PodError::InvalidChoiceType);
    }
    if ecode == TYPE_BOOL {
        if esz == 4 && nb % 4 == 0 {
            let n = nb / 4;
            assert(eb + n * 4 <= buf.len()) by (nonlinear_arith)
                requires
                    nb % 4 == 0,
                    n == nb / 4,
                    eb + nb <= buf.len(),
            ;
            let elems = de_run_bool(buf, eb, n);
            proof {
                assert(elems@.map_values(fident::<bool>()) =~= elems@);
                lemma_ce_of_map(ctype, elems@, fident::<bool>());
            }
            match ce_from(ctype, &elems) {
                Ok(ce) => {
                    proof {
                        lemma_choice_enum_view_map(ce, fident::<bool>());
                    }
                    Ok(ChoiceValue::Bool(Choice(cflags, ce)))
                },
                Err(e) => Err(e),
            }
        } else {
            Err(PodError::ParseError)
        }
    } else if ecode == TYPE_INT {
        if esz == 4 && nb % 4 == 0 {
            let n = nb / 4;
            assert(eb + n * 4 <= buf.len()) by (nonlinear_arith)
                requires
                    nb % 4 == 0,
                    n == nb / 4,
                    eb + nb <= buf.len(),
            ;
            let elems = de_run_i32(buf, eb, n);
            proof {
                assert(elems@.map_values(fident::<i32>()) =~= elems@);
                lemma_ce_of_map(ctype, elems@, fident::<i32>());
            }
            match ce_from(ctype, &elems) {
                Ok(ce) => {
                    proof {
                        lemma_choice_enum_view_map(ce, fident::<i32>());
                    }
                    Ok(ChoiceValue::Int(Choice(cflags, ce)))
                },
                Err(e) => Err(e),
            }
        } else {
            Err(PodError::ParseError)
        }
    } else if ecode == TYPE_LONG {
        if esz == 8 && nb % 8 == 0 {
            let n = nb / 8;
            assert(eb + n * 8 <= buf.len()) by (nonlinear_arith)
                requires
                    nb % 8 == 0,
                    n == nb / 8,
                    eb + nb <= buf.len(),
            ;
            let elems = de_run_i64(buf, eb, n);
            proof {
                assert(elems@.map_values(fident::<i64>()) =~= elems@);
                lemma_ce_of_map(ctype, elems@, fident::<i64>());
            }
            match ce_from(ctype, &elems) {
                Ok(ce) => {
                    proof {
                        lemma_choice_enum_view_map(ce, fident::<i64>());
                    }
                    Ok(ChoiceValue::Long(Choice(cflags, ce)))
                },
                Err(e) => Err(e),
            }
        } else {
            Err(PodError::ParseError)
        }
    } else if ecode == TYPE_FLOAT {
        if esz == 4 && nb % 4 == 0 {
            let n = nb / 4;
            assert(eb + n * 4 <= buf.len()) by (nonlinear_arith)
                requires
                    nb % 4 == 0,
                    n == nb / 4,
                    eb + nb <= buf.len(),
            ;
            let elems = de_run_u32(buf, eb, n);
            proof {
                assert(elems@.map_values(fident::<u32>()) =~= elems@);
                lemma_ce_of_map(ctype, elems@, fident::<u32>());
            }
            match ce_from(ctype, &elems) {
                Ok(ce) => {
                    proof {
                        lemma_choice_enum_view_map(ce, fident::<u32>());
                    }
                    Ok(ChoiceValue::Float(Choice(cflags, ce)))
                },
                Err(e) => Err(e),
            }
        } else {
            Err(PodError::ParseError)
        }
    } else if ecode == TYPE_DOUBLE {
        if esz == 8 && nb % 8 == 0 {
            let n = nb / 8;
            assert(eb + n * 8 <= buf.len()) by (nonlinear_arith)
                requires
                    nb % 8 == 0,
                    n == nb / 8,
                    eb + nb <= buf.len(),
            ;
            let elems = de_run_u64(buf, eb, n);
            proof {
                assert(elems@.map_values(fident::<u64>()) =~= elems@);
                lemma_ce_of_map(ctype, elems@, fident::<u64>());
            }
            match ce_from(ctype, &elems) {
                Ok(ce) => {
                    proof {
                        lemma_choice_enum_view_map(ce, fident::<u64>());
                    }
                    Ok(ChoiceValue::Double(Choice(cflags, ce)))
                },
                Err(e) => Err(e),
            }
        } else {
            Err(PodError::ParseError)
        }
    } else if ecode == TYPE_ID {
        if esz == 4 && nb % 4 == 0 {
            let n = nb / 4;
            assert(eb + n * 4 <= buf.len()) by (nonlinear_arith)
                requires
                    nb % 4 == 0,
                    n == nb / 4,
                    eb + nb <= buf.len(),
            ;
            let elems = de_run_id(buf, eb, n);
            proof {
                lemma_ce_of_map(ctype, elems@, fview_id());
            }
            match ce_from(ctype, &elems) {
                Ok(ce) => {
                    proof {
                        lemma_choice_enum_view_map(ce, fview_id());
                    }
                    Ok(ChoiceValue::Id(Choice(cflags, ce)))
                },
                Err(e) => Err(e),
            }
        } else {
            Err(PodError::ParseError)
        }
    } else if ecode == TYPE_RECTANGLE {
        if esz == 8 && nb % 8 == 0 {
            let n = nb / 8;
            assert(eb + n * 8 <= buf.len()) by (nonlinear_arith)
                requires
                    nb % 8 == 0,
                    n == nb / 8,
                    eb + nb <= buf.len(),
            ;
            let elems = de_run_rect(buf, eb, n);
            proof {
                lemma_ce_of_map(ctype, elems@, fview_rect());
            }
            match ce_from(ctype, &elems) {
                Ok(ce) => {
                    proof {
                        lemma_choice_enum_view_map(ce, fview_rect());
                    }
                    Ok(ChoiceValue::Rectangle(Choice(cflags, ce)))
                },
                Err(e) => Err(e),
            }
        } else {
            Err(PodError::ParseError)
        }
    } else if ecode == TYPE_FRACTION {
        if esz == 8 && nb % 8 == 0 {
            let n = nb / 8;
            assert(eb + n * 8 <= buf.len()) by (nonlinear_arith)
                requires
                    nb % 8 == 0,
                    n == nb / 8,
                    eb + nb <= buf.len(),
            ;
            let elems = de_run_frac(buf, eb, n);
            proof {
                lemma_ce_of_map(ctype, elems@, fview_frac());
            }
            match ce_from(ctype, &elems) {
                Ok(ce) => {
                    proof {
                        lemma_choice_enum_view_map(ce, fview_frac());
                    }
                    Ok(ChoiceValue::Fraction(Choice(cflags, ce)))
                },
                Err(e) => Err(e),
            }
        } else {
            Err(PodError::ParseError)
        }
    } else if ecode == TYPE_FD {
        if esz == 8 && nb % 8 == 0 {
            let n = nb / 8;
            assert(eb + n * 8 <= buf.len()) by (nonlinear_arith)
                requires
                    nb % 8 == 0,
                    n == nb / 8,
                    eb + nb <= buf.len(),
            ;
            let elems = de_run_fd(buf, eb, n);
            proof {
                lemma_ce_of_map(ctype, elems@, fview_fd());
            }
            match ce_from(ctype, &elems) {
                Ok(ce) => {
                    proof {
                        lemma_choice_enum_view_map(ce, fview_fd());
                    }
                    Ok(ChoiceValue::Fd(Choice(cflags, ce)))
                },
                Err(e) => Err(e),
            }
        } else {
            Err(PodError::ParseError)
        }
    } else {
        Err(PodError::UnsupportedType)
    }
}

// ---------------------------------------------------------------------------
// The deserializer
// ---------------------------------------------------------------------------

/// Decodes one pod from the window `[start, end)`, returning exactly what
/// the mathematical parser returns: the value and the position just past
/// the pod's padding.
#[verifier::rlimit(100)]
pub fn de_pod(buf: &Vec<u8>, start: usize, end: usize) -> (r: Result<(Value, usize), PodError>)
    requires
        start <= end,
        end <= buf.len(),
    ensures
        match r {
            Ok((v, np)) => parse_pod(buf@, start as int, end as int) == Ok::<
                (PodView, int),
                PodError,
            >((v@, np as int)) && start < np <= end,
            Err(e) => parse_pod(buf@, start as int, end as int) == Err::<(PodView, int), PodError>(
                e,
            ),
        },
    decreases end - start, 0int,
{
    if end - start < 8 {
        return Err(PodError::ParseError);
    }
    let size32 = read_u32(buf, start);
    let ty = read_u32(buf, start + 4);
    let size = size32 as usize;
    let pad: usize = if size % 8 == 0 {
        0
    } else {
        8 - size % 8
    };
    assert(pad == pad8(size as int));
    if ((end - start) as u64) < 8u64 + (size as u64) + (pad as u64) {
        return Err(PodError::ParseError);
    }
    let total = 8 + size + pad;
    let b = start + 8;
    let np = start + total;
    if ty == TYPE_NONE {
        if size == 0 {
            Ok((Value::Null, np))
        } else {
            Err(PodError::ParseError)
        }
    } else if ty == TYPE_BOOL {
        if size == 4 {
            Ok((Value::Bool(read_u32(buf, b) != 0), np))
        } else {
            Err(PodError::ParseError)
        }
    } else if ty == TYPE_ID {
        if size == 4 {
            Ok((Value::Id(Id(read_u32(buf, b))), np))
        } else {
            Err(PodError::ParseError)
        }
    } else if ty == TYPE_INT {
        if size == 4 {
            Ok((Value::Int(read_i32(buf, b)), np))
        } else {
            Err(PodError::ParseError)
        }
    } else if ty == TYPE_LONG {
        if size == 8 {
            Ok((Value::Long(read_i64(buf, b)), np))
        } else {
            Err(PodError::ParseError)
        }
    } else if ty == TYPE_FLOAT {
        if size == 4 {
            Ok((Value::Float(read_u32(buf, b)), np))
        } else {
            Err(PodError::ParseError)
        }
    } else if ty == TYPE_DOUBLE {
        if size == 8 {
            Ok((Value::Double(read_u64(buf, b)), np))
        } else {
            Err(PodError::ParseError)
        }
    } else if ty == TYPE_STRING {
        if size >= 1 && buf[b + size - 1] == 0 {
            let payload = slice_to_vec(slice_subrange(buf.as_slice(), b, b + size - 1));
            Ok((Value::String(payload), np))
        } else {
            Err(PodError::ParseError)
        }
    } else if ty == TYPE_BYTES {
        let payload = slice_to_vec(slice_subrange(buf.as_slice(), b, b + size));
        Ok((Value::Bytes(payload), np))
    } else if ty == TYPE_RECTANGLE {
        if size == 8 {
            let w = read_u32(buf, b);
            let h = read_u32(buf, b + 4);
            Ok((Value::Rectangle(Rectangle { width: w, height: h }), np))
        } else {
            Err(PodError::ParseError)
        }
    } else if ty == TYPE_FRACTION {
        if size == 8 {
            let a = read_u32(buf, b);
            let d = read_u32(buf, b + 4);
            Ok((Value::Fraction(Fraction { num: a, denom: d }), np))
        } else {
            Err(PodError::ParseError)
        }
    } else if ty == TYPE_FD {
        if size == 8 {
            Ok((Value::Fd(Fd(read_i64(buf, b))), np))
        } else {
            Err(PodError::ParseError)
        }
    } else if ty == TYPE_POINTER {
        if size == 16 {
            let pty = read_u32(buf, b);
            let addr = read_u64(buf, b + 8);
            Ok((Value::Pointer(pty, addr), np))
        } else {
            Err(PodError::ParseError)
        }
    } else if ty == TYPE_ARRAY {
        if size < 8 {
            Err(PodError::ParseError)
        } else {
            match de_array(buf, b, size) {
                Ok(a) => Ok((Value::ValueArray(a), np)),
                Err(e) => Err(e),
            }
        }
    } else if ty == TYPE_STRUCT {
        match de_pods(buf, b, b + size) {
            Ok(children) => Ok((Value::Struct(children), np)),
            Err(e) => Err(e),
        }
    } else if ty == TYPE_OBJECT {
        if size < 8 {
            Err(PodError::ParseError)
        } else {
            let oty = read_u32(buf, b);
            let oid = read_u32(buf, b + 4);
            match de_props(buf, b + 8, b + size) {
                Ok(properties) => Ok(
                    (Value::Object(Object { type_: oty, id: oid, properties }), np),
                ),
                Err(e) => Err(e),
            }
        }
    } else if ty == TYPE_CHOICE {
        if size < 16 {
            Err(PodError::ParseError)
        } else {
            match de_choice(buf, b, size) {
                Ok(c) => Ok((Value::Choice(c), np)),
                Err(e) => Err(e),
            }
        }
    } else {
        Err(PodError::UnsupportedType)
    }
}

/// Decodes complete pods back to back until the window is exhausted.
fn de_pods(buf: &Vec<u8>, start: usize, end: usize) -> (r: Result<Vec<Value>, PodError>)
    requires
        start <= end,
        end <= buf.len(),
    ensures
        match r {
            Ok(vs) => parse_pods(buf@, start as int, end as int) == Ok::<Seq<PodView>, PodError>(
                pod_views(vs@),
            ),
            Err(e) => parse_pods(buf@, start as int, end as int) == Err::<Seq<PodView>, PodError>(
                e,
            ),
        },
    decreases end - start, 1int,
{
    if start == end {
        let r: Vec<Value> = Vec::new();
        assert(pod_views(r@) =~= Seq::<PodView>::empty());
        return Ok(r);
    }
    if end - start < 8 {
        return Err(PodError::ParseError);
    }
    let csize32 = read_u32(buf, start);
    let csize = csize32 as usize;
    let pad: usize = if csize % 8 == 0 {
        0
    } else {
        8 - csize % 8
    };
    assert(pad == pad8(csize as int));
    if ((end - start) as u64) < 8u64 + (csize as u64) + (pad as u64) {
        return Err(PodError::ParseError);
    }
    let ct = 8 + csize + pad;
    match de_pod(buf, start, start + ct) {
        Ok((v, _np)) => {
            match de_pods(buf, start + ct, end) {
                Ok(mut rest) => {
                    let ghost tail = rest@;
                    rest.insert(0, v);
                    proof {
                        assert(rest@.drop_first() =~= tail);
                        assert(rest@[0] == v);
                        assert(rest@.len() == tail.len() + 1);
                        lemma_pod_views(rest@);
                        lemma_pod_views(tail);
                        assert forall|j: int| 0 <= j < rest@.len() implies pod_views(rest@)[j] == (
                        seq![pod_view(v)] + pod_views(tail))[j] by {
                            if j > 0 {
                                assert(rest@[j] == tail[j - 1]);
                            }
                        }
                        assert(pod_views(rest@) =~= seq![pod_view(v)] + pod_views(tail));
                    }
                    Ok(rest)
                },
                Err(e) => Err(e),
            }
        },
        Err(e) => Err(e),
    }
}

/// Decodes `(key, flags, pod)` properties back to back until the window
/// is exhausted.
fn de_props(buf: &Vec<u8>, start: usize, end: usize) -> (r: Result<Vec<Property>, PodError>)
    requires
        start <= end,
        end <= buf.len(),
    ensures
        match r {
            Ok(ps) => parse_props(buf@, start as int, end as int) == Ok::<
                Seq<PropertyView>,
                PodError,
            >(property_views(ps@)),
            Err(e) => parse_props(buf@, start as int, end as int) == Err::<
                Seq<PropertyView>,
                PodError,
            >(e),
        },
    decreases end - start, 1int,
{
    if start == end {
        let r: Vec<Property> = Vec::new();
        assert(property_views(r@) =~= Seq::<PropertyView>::empty());
        return Ok(r);
    }
    if end - start < 16 {
        return Err(PodError::ParseError);
    }
    let key = read_u32(buf, start);
    let pflags = read_u32(buf, start + 4);
    let csize32 = read_u32(buf, start + 8);
    let csize = csize32 as usize;
    let pad: usize = if csize % 8 == 0 {
        0
    } else {
        8 - csize % 8
    };
    assert(pad == pad8(csize as int));
    if ((end - (start + 8)) as u64) < 8u64 + (csize as u64) + (pad as u64) {
        return Err(PodError::ParseError);
    }
    let ct = 8 + csize + pad;
    match de_pod(buf, start + 8, start + 8 + ct) {
        Ok((v, _np)) => {
            match de_props(buf, start + 8 + ct, end) {
                Ok(mut rest) => {
                    let ghost tail = rest@;
                    rest.insert(0, Property { key, flags: pflags, value: v });
                    proof {
                        assert(rest@.drop_first() =~= tail);
                        lemma_property_views(rest@);
                        lemma_property_views(tail);
                        assert(property_views(rest@) =~= seq![
                            PropertyView { key, flags: pflags, value: pod_view(v) },
                        ] + property_views(tail));
                    }
                    Ok(rest)
                },
                Err(e) => Err(e),
            }
        },
        Err(e) => Err(e),
    }
}

/// Decodes one pod from `buf` starting at `start`, against the window
/// that runs to the end of the buffer.
pub fn deserialize_pod(buf: &Vec<u8>, start: usize) -> (r: Result<(Value, usize), PodError>)
    requires
        start <= buf.len(),
    ensures
        match r {
            Ok((v, np)) => parse_pod(buf@, start as int, buf@.len() as int) == Ok::<
                (PodView, int),
                PodError,
            >((v@, np as int)) && start < np <= buf@.len(),
            Err(e) => parse_pod(buf@, start as int, buf@.len() as int) == Err::<
                (PodView, int),
                PodError,
            >(e),
        },
{
    de_pod(buf, start, buf.len())
}

} // verus!
