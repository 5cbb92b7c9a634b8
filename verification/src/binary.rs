use vstd::prelude::*;
use vstd::utf8::encode_utf8;
use crate::model::{BinType, BinValue, Field, MapEntry, ValV, FieldV, vview, fview, vview_seq,
    vview_pairs, vview_fields, vtag, spec_tag_code, spec_is_container, spec_is_primitive,
    wf_value, names_clear, spec_value_tag, get_value_type, lemma_vview_seq_index,
    lemma_vview_pairs_index, lemma_vview_fields_index};
use crate::wire::{le16, le32, le64, word16, word32, word64, push_u16, push_u32, push_u64,
    make_u16, make_u32, make_u64};
use crate::sections::{Bin, Sections, sections_view, key_index, has_key, lemma_key_index};
use crate::hash::{fnv1a_of, fold_bytes};
use vstd::string::StringSliceAdditionalSpecFns;

verus! {

/// Errors of the binary property codec.
#[derive(Debug, Clone, Copy, PartialEq, Eq, Structural)]
pub enum BinError {
    /// The magic bytes are neither "PROP" nor "PTCH" followed by
    /// "PROP".
    InvalidMagic,
    /// A tag byte outside the closed set.
    UnknownType(u8),
    /// The input ends, or a region seeks, past the end of the buffer.
    UnexpectedEof,
    /// A nesting or shape rule is violated for this tag: a container
    /// inside a container-only slot, a non-primitive map key, a
    /// missing or mistyped required section, an oversized region, or a
    /// region whose declared size ends before its own content.
    InvalidValue(BinType),
}

/// A byte for a boolean: 1 for true, 0 for false.
pub open spec fn bool_byte(b: bool) -> u8 {
    if b {
        1u8
    } else {
        0u8
    }
}

/// The wire bytes of a value, without its own tag byte.
///
/// Size-delimited regions (List, List2, Dict, Pointer, Embed) carry a
/// 32-bit size that counts everything after the size word itself,
/// the element count included.
pub open spec fn enc_value(v: ValV) -> Seq<u8>
    decreases v,
{
    match v {
        ValV::Null => Seq::empty(),
        ValV::Bool(b) => seq![bool_byte(b)],
        ValV::I8(x) => seq![x as u8],
        ValV::U8(x) => seq![x],
        ValV::I16(x) => le16(x as u16),
        ValV::U16(x) => le16(x),
        ValV::I32(x) => le32(x as u32),
        ValV::U32(x) => le32(x),
        ValV::I64(x) => le64(x as u64),
        ValV::U64(x) => le64(x),
        ValV::F32(bits) => le32(bits),
        ValV::Vec2(s) => enc_f32s(s),
        ValV::Vec3(s) => enc_f32s(s),
        ValV::Vec4(s) => enc_f32s(s),
        ValV::Mtx44(s) => enc_f32s(s),
        ValV::Rgba(s) => s,
        ValV::String(cs) => le16(encode_utf8(cs).len() as u16) + encode_utf8(cs),
        ValV::Hash { value, .. } => le32(value),
        ValV::File { value, .. } => le64(value),
        ValV::Link { value, .. } => le32(value),
        ValV::Flag(b) => seq![bool_byte(b)],
        ValV::List { value_type, items } => {
            let body = le32(items.len() as u32) + enc_items(items);
            seq![spec_tag_code(value_type)] + le32(body.len() as u32) + body
        },
        ValV::List2 { value_type, items } => {
            let body = le32(items.len() as u32) + enc_items(items);
            seq![spec_tag_code(value_type)] + le32(body.len() as u32) + body
        },
        ValV::Option { value_type, item } => {
            match item {
                Some(b) => seq![spec_tag_code(value_type), 1u8] + enc_value(*b),
                None => seq![spec_tag_code(value_type), 0u8],
            }
        },
        ValV::Dict { key_type, value_type, items } => {
            let body = le32(items.len() as u32) + enc_pairs(items);
            seq![spec_tag_code(key_type), spec_tag_code(value_type)] + le32(body.len() as u32)
                + body
        },
        ValV::Pointer { name, name_str: _, items } => {
            if name == 0 {
                le32(0)
            } else {
                let body = le16(items.len() as u16) + enc_fields(items);
                le32(name) + le32(body.len() as u32) + body
            }
        },
        ValV::Embed { name, name_str: _, items } => {
            let body = le16(items.len() as u16) + enc_fields(items);
            le32(name) + le32(body.len() as u32) + body
        },
    }
}

/// The concatenated little-endian words of a vector or matrix of
/// single-precision bit patterns.
pub open spec fn enc_f32s(s: Seq<u32>) -> Seq<u8>
    decreases s.len(),
{
    if s.len() == 0 {
        Seq::empty()
    } else {
        enc_f32s(s.drop_last()) + le32(s.last())
    }
}

/// The concatenated encodings of list elements.
pub open spec fn enc_items(s: Seq<ValV>) -> Seq<u8>
    decreases s,
{
    if s.len() == 0 {
        Seq::empty()
    } else {
        enc_items(s.drop_last()) + enc_value(s.last())
    }
}

/// The concatenated encodings of map pairs, key then value.
pub open spec fn enc_pairs(s: Seq<(ValV, ValV)>) -> Seq<u8>
    decreases s,
{
    if s.len() == 0 {
        Seq::empty()
    } else {
        enc_pairs(s.drop_last()) + enc_value(s.last().0) + enc_value(s.last().1)
    }
}

/// The concatenated encodings of structure fields: key digest, tag
/// byte, value.
pub open spec fn enc_fields(s: Seq<FieldV>) -> Seq<u8>
    decreases s,
{
    if s.len() == 0 {
        Seq::empty()
    } else {
        enc_fields(s.drop_last()) + le32(s.last().key) + seq![spec_tag_code(vtag(s.last().value))]
            + enc_value(s.last().value)
    }
}

/// Whether a value fits the wire limits: strings at most 65535 bytes,
/// structure field counts at most 65535, element counts and region
/// sizes below 2^32.
pub open spec fn writable(v: ValV) -> bool
    decreases v,
{
    match v {
        ValV::String(cs) => encode_utf8(cs).len() <= 0xffff,
        ValV::List { value_type: _, items } => {
            &&& items.len() < 0x100000000
            &&& 4 + enc_items(items).len() < 0x100000000
            &&& forall|i: int| 0 <= i < items.len() ==> writable(#[trigger] items[i])
        },
        ValV::List2 { value_type: _, items } => {
            &&& items.len() < 0x100000000
            &&& 4 + enc_items(items).len() < 0x100000000
            &&& forall|i: int| 0 <= i < items.len() ==> writable(#[trigger] items[i])
        },
        ValV::Option { value_type: _, item } => item matches Some(b) ==> writable(*b),
        ValV::Dict { key_type: _, value_type: _, items } => {
            &&& items.len() < 0x100000000
            &&& 4 + enc_pairs(items).len() < 0x100000000
            &&& forall|i: int|
                0 <= i < items.len() ==> writable((#[trigger] items[i]).0) && writable(items[i].1)
        },
        ValV::Pointer { name, name_str: _, items } => name != 0 ==> {
            &&& items.len() <= 0xffff
            &&& 2 + enc_fields(items).len() < 0x100000000
            &&& forall|i: int|
                0 <= i < items.len() ==> writable((#[trigger] items[i]).value)
        },
        ValV::Embed { name: _, name_str: _, items } => {
            &&& items.len() <= 0xffff
            &&& 2 + enc_fields(items).len() < 0x100000000
            &&& forall|i: int|
                0 <= i < items.len() ==> writable((#[trigger] items[i]).value)
        },
        _ => true,
    }
}

/// Append raw bytes.
fn push_bytes(buf: &mut Vec<u8>, bytes: &[u8])
    ensures
        final(buf)@ == old(buf)@ + bytes@,
{
    let mut i: usize = 0;
    while i < bytes.len()
        invariant
            i <= bytes@.len(),
            buf@ == old(buf)@ + bytes@.subrange(0, i as int),
        decreases bytes@.len() - i,
    {
        buf.push(bytes[i]);
        proof {
            assert(buf@ =~= old(buf)@ + bytes@.subrange(0, i + 1));
        }
        i = i + 1;
    }
    proof {
        assert(buf@ =~= old(buf)@ + bytes@);
    }
}

/// Append a 16-bit-length-prefixed string; errors when the UTF-8
/// byte length exceeds 65535.
fn push_string(buf: &mut Vec<u8>, s: &str) -> (r: Result<(), BinError>)
    ensures
        match r {
            Ok(_) => writable(ValV::String(s@)) && final(buf)@ == old(buf)@ + enc_value(
                ValV::String(s@),
            ),
            Err(e) => !writable(ValV::String(s@)) && e == BinError::InvalidValue(BinType::String)
                && *final(buf) == *old(buf),
        },
{
    let bytes = s.as_bytes();
    if bytes.len() > 0xffff {
        return Err(BinError::InvalidValue(BinType::String));
    }
    push_u16(buf, bytes.len() as u16);
    push_bytes(buf, bytes);
    proof {
        assert(buf@ =~= old(buf)@ + enc_value(ValV::String(s@)));
    }
    Ok(())
}

/// Append the wire bytes of a value; errors exactly when the value
/// does not fit the wire limits.
#[verifier::loop_isolation(false)]
#[verifier::rlimit(100)]
pub fn write_value_into(buf: &mut Vec<u8>, v: &BinValue) -> (r: Result<(), BinError>)
    ensures
        match r {
            Ok(_) => writable(vview(*v)) && final(buf)@ == old(buf)@ + enc_value(vview(*v)),
            Err(_) => !writable(vview(*v)),
        },
    decreases *v,
{
    match v {
        BinValue::Null => Ok(()),
        BinValue::Bool(b) => {
            buf.push(if *b {
                1
            } else {
                0
            });
            proof {
                assert(buf@ =~= old(buf)@ + enc_value(vview(*v)));
            }
            Ok(())
        },
        BinValue::Flag(b) => {
            buf.push(if *b {
                1
            } else {
                0
            });
            proof {
                assert(buf@ =~= old(buf)@ + enc_value(vview(*v)));
            }
            Ok(())
        },
        BinValue::I8(x) => {
            buf.push(#[verifier::truncate] (*x as u8));
            proof {
                assert(buf@ =~= old(buf)@ + enc_value(vview(*v)));
            }
            Ok(())
        },
        BinValue::U8(x) => {
            buf.push(*x);
            proof {
                assert(buf@ =~= old(buf)@ + enc_value(vview(*v)));
            }
            Ok(())
        },
        BinValue::I16(x) => {
            push_u16(buf, #[verifier::truncate] (*x as u16));
            Ok(())
        },
        BinValue::U16(x) => {
            push_u16(buf, *x);
            Ok(())
        },
        BinValue::I32(x) => {
            push_u32(buf, #[verifier::truncate] (*x as u32));
            Ok(())
        },
        BinValue::U32(x) => {
            push_u32(buf, *x);
            Ok(())
        },
        BinValue::I64(x) => {
            push_u64(buf, #[verifier::truncate] (*x as u64));
            Ok(())
        },
        BinValue::U64(x) => {
            push_u64(buf, *x);
            Ok(())
        },
        BinValue::F32(bits) => {
            push_u32(buf, *bits);
            Ok(())
        },
        BinValue::Vec2(a) => {
            write_f32s(buf, a.as_slice());
            Ok(())
        },
        BinValue::Vec3(a) => {
            write_f32s(buf, a.as_slice());
            Ok(())
        },
        BinValue::Vec4(a) => {
            write_f32s(buf, a.as_slice());
            Ok(())
        },
        BinValue::Mtx44(a) => {
            write_f32s(buf, a.as_slice());
            Ok(())
        },
        BinValue::Rgba(a) => {
            push_bytes(buf, a.as_slice());
            proof {
                assert(buf@ =~= old(buf)@ + enc_value(vview(*v)));
            }
            Ok(())
        },
        BinValue::String(s) => {
            match push_string(buf, s.as_str()) {
                Ok(_) => Ok(()),
                Err(e) => Err(e),
            }
        },
        BinValue::Hash { value, .. } => {
            push_u32(buf, *value);
            Ok(())
        },
        BinValue::Link { value, .. } => {
            push_u32(buf, *value);
            Ok(())
        },
        BinValue::File { value, .. } => {
            push_u64(buf, *value);
            Ok(())
        },
        BinValue::List { value_type, items } => {
            proof {
                assert(decreases_to!(*v => (*v)->List_items));
                assert((*v)->List_items == *items);
                lemma_vview_seq_index(items@);
                lemma_writable_list(*value_type, vview_seq(items@));
            }
            if items.len() as u64 >= 0x100000000u64 {
                proof {
                    assert(!writable(vview(*v)));
                }
                return Err(BinError::InvalidValue(*value_type));
            }
            let mut body: Vec<u8> = Vec::new();
            push_u32(&mut body, items.len() as u32);
            match write_items_into(&mut body, items) {
                Ok(_) => (),
                Err(e) => {
                    proof {
                        assert(!writable(vview(*v)));
                    }
                    return Err(e);
                },
            }
            if body.len() as u64 >= 0x100000000u64 {
                proof {
                    assert(!writable(vview(*v)));
                }
                return Err(BinError::InvalidValue(*value_type));
            }
            buf.push(value_type.code());
            push_u32(buf, body.len() as u32);
            push_bytes(buf, body.as_slice());
            proof {
                assert(writable(vview(*v)));
                assert(buf@ =~= old(buf)@ + enc_value(vview(*v)));
            }
            Ok(())
        },
        BinValue::List2 { value_type, items } => {
            proof {
                assert(decreases_to!(*v => (*v)->List2_items));
                assert((*v)->List2_items == *items);
                lemma_vview_seq_index(items@);
                lemma_writable_list2(*value_type, vview_seq(items@));
            }
            if items.len() as u64 >= 0x100000000u64 {
                proof {
                    assert(!writable(vview(*v)));
                }
                return Err(BinError::InvalidValue(*value_type));
            }
            let mut body: Vec<u8> = Vec::new();
            push_u32(&mut body, items.len() as u32);
            match write_items_into(&mut body, items) {
                Ok(_) => (),
                Err(e) => {
                    proof {
                        assert(!writable(vview(*v)));
                    }
                    return Err(e);
                },
            }
            if body.len() as u64 >= 0x100000000u64 {
                proof {
                    assert(!writable(vview(*v)));
                }
                return Err(BinError::InvalidValue(*value_type));
            }
            buf.push(value_type.code());
            push_u32(buf, body.len() as u32);
            push_bytes(buf, body.as_slice());
            proof {
                assert(writable(vview(*v)));
                assert(buf@ =~= old(buf)@ + enc_value(vview(*v)));
            }
            Ok(())
        },
        BinValue::Option { value_type, item } => {
            buf.push(value_type.code());
            match item {
                Some(inner) => {
                    buf.push(1);
                    proof {
                        assert(decreases_to!(*v => (*v)->Option_item));
                    }
                    match write_value_into(buf, &**inner) {
                        Ok(_) => (),
                        Err(e) => {
                            return Err(e);
                        },
                    }
                    proof {
                        assert(buf@ =~= old(buf)@ + enc_value(vview(*v)));
                    }
                    Ok(())
                },
                None => {
                    buf.push(0);
                    proof {
                        assert(buf@ =~= old(buf)@ + enc_value(vview(*v)));
                    }
                    Ok(())
                },
            }
        },
        BinValue::Dict { key_type, value_type, items } => {
            proof {
                assert(decreases_to!(*v => (*v)->Dict_items));
                assert((*v)->Dict_items == *items);
                lemma_vview_pairs_index(items@);
                lemma_writable_dict(*key_type, *value_type, vview_pairs(items@));
            }
            if items.len() as u64 >= 0x100000000u64 {
                proof {
                    assert(!writable(vview(*v)));
                }
                return Err(BinError::InvalidValue(*value_type));
            }
            let mut body: Vec<u8> = Vec::new();
            push_u32(&mut body, items.len() as u32);
            match write_pairs_into(&mut body, items) {
                Ok(_) => (),
                Err(e) => {
                    proof {
                        assert(!writable(vview(*v)));
                    }
                    return Err(e);
                },
            }
            if body.len() as u64 >= 0x100000000u64 {
                proof {
                    assert(!writable(vview(*v)));
                }
                return Err(BinError::InvalidValue(*value_type));
            }
            buf.push(key_type.code());
            buf.push(value_type.code());
            push_u32(buf, body.len() as u32);
            push_bytes(buf, body.as_slice());
            proof {
                assert(writable(vview(*v)));
                assert(buf@ =~= old(buf)@ + enc_value(vview(*v)));
            }
            Ok(())
        },
        BinValue::Pointer { name, name_str: _, items } => {
            if *name == 0 {
                push_u32(buf, 0);
                proof {
                    assert(buf@ =~= old(buf)@ + enc_value(vview(*v)));
                }
                return Ok(());
            }
            proof {
                assert(decreases_to!(*v => (*v)->Pointer_items));
                assert((*v)->Pointer_items == *items);
                lemma_vview_fields_index(items@);
                lemma_writable_pointer(*name, crate::model::name_view((*v)->Pointer_name_str), vview_fields(items@));
            }
            match write_fields(buf, *name, items) {
                Ok(_) => {
                    proof {
                        assert(buf@ =~= old(buf)@ + enc_value(vview(*v)));
                    }
                    Ok(())
                },
                Err(e) => Err(e),
            }
        },
        BinValue::Embed { name, name_str: _, items } => {
            proof {
                assert(decreases_to!(*v => (*v)->Embed_items));
                assert((*v)->Embed_items == *items);
                lemma_vview_fields_index(items@);
                lemma_writable_embed(*name, crate::model::name_view((*v)->Embed_name_str), vview_fields(items@));
            }
            match write_fields(buf, *name, items) {
                Ok(_) => {
                    proof {
                        assert(buf@ =~= old(buf)@ + enc_value(vview(*v)));
                    }
                    Ok(())
                },
                Err(e) => Err(e),
            }
        },
    }
}

/// Append the wire bytes of a vector or matrix of single-precision
/// bit patterns.
fn write_f32s(buf: &mut Vec<u8>, a: &[u32])
    ensures
        final(buf)@ == old(buf)@ + enc_f32s(a@),
{
    let mut i: usize = 0;
    while i < a.len()
        invariant
            i <= a@.len(),
            buf@ == old(buf)@ + enc_f32s(a@.subrange(0, i as int)),
        decreases a@.len() - i,
    {
        push_u32(buf, a[i]);
        proof {
            let cur = a@.subrange(0, i + 1);
            assert(cur.drop_last() =~= a@.subrange(0, i as int));
            assert(cur.last() == a@[i as int]);
            assert(buf@ =~= old(buf)@ + enc_f32s(cur));
        }
        i = i + 1;
    }
    proof {
        assert(a@.subrange(0, a@.len() as int) =~= a@);
    }
}

/// Append a field payload: field count, then each field as key
/// digest, tag byte, value.
#[verifier::loop_isolation(false)]
#[verifier::rlimit(100)]
fn write_fields_payload(buf: &mut Vec<u8>, items: &Vec<Field>) -> (r: Result<(), BinError>)
    ensures
        match r {
            Ok(_) => {
                &&& items@.len() <= 0xffff
                &&& (forall|i: int|
                    0 <= i < items@.len() ==> writable((#[trigger] vview_fields(items@)[i]).value))
                &&& final(buf)@ == old(buf)@ + le16(items@.len() as u16) + enc_fields(
                    vview_fields(items@),
                )
            },
            Err(_) => items@.len() > 0xffff || !(forall|i: int|
                0 <= i < items@.len() ==> writable((#[trigger] vview_fields(items@)[i]).value)),
        },
    decreases *items, 0int,
{
    proof {
        lemma_vview_fields_index(items@);
    }
    if items.len() > 0xffff {
        return Err(BinError::InvalidValue(BinType::Embed));
    }
    push_u16(buf, items.len() as u16);
    let mut i: usize = 0;
    while i < items.len()
        invariant
            i <= items@.len(),
            buf@ == old(buf)@ + le16(items@.len() as u16) + enc_fields(
                vview_fields(items@.subrange(0, i as int)),
            ),
            forall|j: int|
                0 <= j < i ==> writable((#[trigger] vview_fields(items@)[j]).value),
        decreases items@.len() - i,
    {
        proof {
            assert(decreases_to!(*items => items@[i as int]));
            assert(decreases_to!(items@[i as int] => items@[i as int].value));
        }
        push_u32(buf, items[i].key);
        let t = get_value_type(&items[i].value);
        buf.push(t.code());
        match write_value_into(buf, &items[i].value) {
            Ok(_) => (),
            Err(_) => {
                proof {
                    assert(!writable(vview_fields(items@)[i as int].value));
                }
                return Err(BinError::InvalidValue(t));
            },
        }
        proof {
            let pre = items@.subrange(0, i as int);
            let cur = items@.subrange(0, i + 1);
            assert(cur.drop_last() =~= pre);
            assert(cur.last() == items@[i as int]);
            assert(vview_fields(cur).drop_last() =~= vview_fields(pre));
            assert(vview_fields(cur).last() == fview(items@[i as int]));
            assert(buf@ =~= old(buf)@ + le16(items@.len() as u16) + enc_fields(
                vview_fields(cur),
            ));
        }
        i = i + 1;
    }
    proof {
        assert(items@.subrange(0, items@.len() as int) =~= items@);
        lemma_vview_fields_index(items@);
    }
    Ok(())
}

/// Append a structure body: name digest, region size, field count,
/// then each field as key digest, tag byte, value.
#[verifier::loop_isolation(false)]
#[verifier::rlimit(100)]
fn write_fields(buf: &mut Vec<u8>, name: u32, items: &Vec<Field>) -> (r: Result<(), BinError>)
    ensures
        match r {
            Ok(_) => {
                &&& items@.len() <= 0xffff
                &&& 2 + enc_fields(vview_fields(items@)).len() < 0x100000000
                &&& forall|i: int|
                    0 <= i < items@.len() ==> writable((#[trigger] vview_fields(items@)[i]).value)
                &&& final(buf)@ == old(buf)@ + le32(name) + le32(
                    (le16(items@.len() as u16) + enc_fields(vview_fields(items@))).len() as u32,
                ) + le16(items@.len() as u16) + enc_fields(vview_fields(items@))
            },
            Err(_) => {
                ||| items@.len() > 0xffff
                ||| 2 + enc_fields(vview_fields(items@)).len() >= 0x100000000
                ||| !(forall|i: int|
                    0 <= i < items@.len() ==> writable(
                        (#[trigger] vview_fields(items@)[i]).value,
                    ))
            },
        },
    decreases *items, 1int,
{
    let mut body: Vec<u8> = Vec::new();
    match write_fields_payload(&mut body, items) {
        Ok(_) => (),
        Err(e) => {
            return Err(e);
        },
    }
    if body.len() as u64 >= 0x100000000u64 {
        return Err(BinError::InvalidValue(BinType::Embed));
    }
    push_u32(buf, name);
    push_u32(buf, body.len() as u32);
    push_bytes(buf, body.as_slice());
    proof {
        assert(final(buf)@ =~= old(buf)@ + le32(name) + le32(body@.len() as u32) + body@);
    }
    Ok(())
}


/// Unfolding of `writable` at a List node.
pub proof fn lemma_writable_list(value_type: BinType, items: Seq<ValV>)
    ensures
        writable(ValV::List { value_type, items }) == (items.len() < 0x100000000 && 4 + enc_items(
            items,
        ).len() < 0x100000000 && (forall|i: int|
            0 <= i < items.len() ==> writable(#[trigger] items[i]))),
{
}

/// Unfolding of `writable` at a List2 node.
pub proof fn lemma_writable_list2(value_type: BinType, items: Seq<ValV>)
    ensures
        writable(ValV::List2 { value_type, items }) == (items.len() < 0x100000000 && 4
            + enc_items(items).len() < 0x100000000 && (forall|i: int|
            0 <= i < items.len() ==> writable(#[trigger] items[i]))),
{
}

/// Unfolding of `writable` at a Dict node.
pub proof fn lemma_writable_dict(key_type: BinType, value_type: BinType, items: Seq<(ValV, ValV)>)
    ensures
        writable(ValV::Dict { key_type, value_type, items }) == (items.len() < 0x100000000 && 4
            + enc_pairs(items).len() < 0x100000000 && (forall|i: int|
            0 <= i < items.len() ==> writable((#[trigger] items[i]).0) && writable(items[i].1))),
{
}

/// Unfolding of `writable` at a Pointer node.
pub proof fn lemma_writable_pointer(name: u32, name_str: Option<Seq<char>>, items: Seq<FieldV>)
    ensures
        writable(ValV::Pointer { name, name_str, items }) == (name != 0 ==> (items.len() <= 0xffff
            && 2 + enc_fields(items).len() < 0x100000000 && (forall|i: int|
            0 <= i < items.len() ==> writable((#[trigger] items[i]).value)))),
{
}

/// Unfolding of `writable` at an Embed node.
pub proof fn lemma_writable_embed(name: u32, name_str: Option<Seq<char>>, items: Seq<FieldV>)
    ensures
        writable(ValV::Embed { name, name_str, items }) == (items.len() <= 0xffff && 2
            + enc_fields(items).len() < 0x100000000 && (forall|i: int|
            0 <= i < items.len() ==> writable((#[trigger] items[i]).value))),
{
}

/// Append the elements of a list region in order; errors when an
/// element does not fit the wire limits.
#[verifier::loop_isolation(false)]
fn write_items_into(body: &mut Vec<u8>, items: &Vec<BinValue>) -> (r: Result<(), BinError>)
    ensures
        r is Ok ==> (forall|j: int|
            0 <= j < items@.len() ==> writable(#[trigger] vview_seq(items@)[j])) && final(body)@
            == old(body)@ + enc_items(vview_seq(items@)),
        r is Err ==> !(forall|j: int|
            0 <= j < items@.len() ==> writable(#[trigger] vview_seq(items@)[j])),
    decreases *items,
{
    proof {
        lemma_vview_seq_index(items@);
    }
    let mut i: usize = 0;
    while i < items.len()
        invariant
            i <= items@.len(),
            body@ == old(body)@ + enc_items(vview_seq(items@.subrange(0, i as int))),
            forall|j: int| 0 <= j < i ==> writable(#[trigger] vview_seq(items@)[j]),
        decreases items@.len() - i,
    {
        proof {
            assert(decreases_to!(*items => items@[i as int]));
        }
        match write_value_into(body, &items[i]) {
            Ok(_) => (),
            Err(e) => {
                proof {
                    assert(!writable(vview_seq(items@)[i as int]));
                    assert(!(forall|j: int|
                        0 <= j < items@.len() ==> writable(#[trigger] vview_seq(items@)[j]))) by {
                        if forall|j: int|
                            0 <= j < items@.len() ==> writable(#[trigger] vview_seq(items@)[j]) {
                            assert(writable(vview_seq(items@)[i as int]));
                        }
                    }
                }
                return Err(e);
            },
        }
        proof {
            let pre = items@.subrange(0, i as int);
            let cur = items@.subrange(0, i + 1);
            assert(cur.drop_last() =~= pre);
            assert(cur.last() == items@[i as int]);
            assert(vview_seq(cur).drop_last() =~= vview_seq(pre));
            assert(body@ =~= old(body)@ + enc_items(vview_seq(cur)));
        }
        i = i + 1;
    }
    proof {
        assert(items@.subrange(0, items@.len() as int) =~= items@);
    }
    Ok(())
}

/// Append the pairs of a map region, key then value; errors when a
/// key or value does not fit the wire limits.
#[verifier::loop_isolation(false)]
fn write_pairs_into(body: &mut Vec<u8>, items: &Vec<MapEntry>) -> (r: Result<(), BinError>)
    ensures
        r is Ok ==> (forall|j: int|
            0 <= j < items@.len() ==> writable((#[trigger] vview_pairs(items@)[j]).0) && writable(
                vview_pairs(items@)[j].1,
            )) && final(body)@ == old(body)@ + enc_pairs(vview_pairs(items@)),
        r is Err ==> !(forall|j: int|
            0 <= j < items@.len() ==> writable((#[trigger] vview_pairs(items@)[j]).0) && writable(
                vview_pairs(items@)[j].1,
            )),
    decreases *items,
{
    proof {
        lemma_vview_pairs_index(items@);
    }
    let mut i: usize = 0;
    while i < items.len()
        invariant
            i <= items@.len(),
            body@ == old(body)@ + enc_pairs(vview_pairs(items@.subrange(0, i as int))),
            forall|j: int|
                0 <= j < i ==> writable((#[trigger] vview_pairs(items@)[j]).0) && writable(
                    vview_pairs(items@)[j].1,
                ),
        decreases items@.len() - i,
    {
        proof {
            assert(decreases_to!(*items => items@[i as int]));
            assert(decreases_to!(items@[i as int] => items@[i as int].key));
            assert(decreases_to!(items@[i as int] => items@[i as int].value));
        }
        match write_value_into(body, &items[i].key) {
            Ok(_) => (),
            Err(e) => {
                proof {
                    assert(!writable(vview_pairs(items@)[i as int].0));
                    assert(!(forall|j: int|
                        0 <= j < items@.len() ==> writable(
                            (#[trigger] vview_pairs(items@)[j]).0,
                        ) && writable(vview_pairs(items@)[j].1))) by {
                        if forall|j: int|
                            0 <= j < items@.len() ==> writable(
                                (#[trigger] vview_pairs(items@)[j]).0,
                            ) && writable(vview_pairs(items@)[j].1) {
                            assert(writable(vview_pairs(items@)[i as int].0));
                        }
                    }
                }
                return Err(e);
            },
        }
        match write_value_into(body, &items[i].value) {
            Ok(_) => (),
            Err(e) => {
                proof {
                    assert(!writable(vview_pairs(items@)[i as int].1));
                    assert(!(forall|j: int|
                        0 <= j < items@.len() ==> writable(
                            (#[trigger] vview_pairs(items@)[j]).0,
                        ) && writable(vview_pairs(items@)[j].1))) by {
                        if forall|j: int|
                            0 <= j < items@.len() ==> writable(
                                (#[trigger] vview_pairs(items@)[j]).0,
                            ) && writable(vview_pairs(items@)[j].1) {
                            assert(writable(vview_pairs(items@)[i as int].1));
                        }
                    }
                }
                return Err(e);
            },
        }
        proof {
            let pre = items@.subrange(0, i as int);
            let cur = items@.subrange(0, i + 1);
            assert(cur.drop_last() =~= pre);
            assert(cur.last() == items@[i as int]);
            assert(vview_pairs(cur).drop_last() =~= vview_pairs(pre));
            assert(body@ =~= old(body)@ + enc_pairs(vview_pairs(cur)));
            assert(writable(vview_pairs(items@)[i as int].0));
            assert(writable(vview_pairs(items@)[i as int].1));
        }
        i = i + 1;
    }
    proof {
        assert(items@.subrange(0, items@.len() as int) =~= items@);
    }
    Ok(())
}

/// Reader over an in-memory byte buffer with an absolute position.
pub struct BinaryReader<'a> {
    pub data: &'a [u8],
    pub pos: usize,
}

impl<'a> BinaryReader<'a> {
    /// A reader at the start of the given bytes.
    pub fn new(data: &'a [u8]) -> (r: BinaryReader<'a>)
        ensures
            r.data@ == data@,
            r.pos == 0,
    {
        BinaryReader { data, pos: 0 }
    }

    /// The current absolute position.
    pub fn position(&self) -> (p: usize)
        ensures
            p == self.pos,
    {
        self.pos
    }

    /// Read one byte.
    pub fn read_u8(&mut self) -> (r: Result<u8, BinError>)
        requires
            old(self).pos <= old(self).data@.len(),
        ensures
            final(self).data == old(self).data,
            final(self).pos <= final(self).data@.len(),
            old(self).pos <= final(self).pos,
            match r {
                Ok(b) => old(self).pos < old(self).data@.len() && b == old(self).data@[old(
                    self,
                ).pos as int] && final(self).pos == old(self).pos + 1,
                Err(e) => e == BinError::UnexpectedEof && old(self).pos == old(self).data@.len()
                    && final(self).pos == old(self).pos,
            },
    {
        if self.pos < self.data.len() {
            let b = self.data[self.pos];
            self.pos = self.pos + 1;
            Ok(b)
        } else {
            Err(BinError::UnexpectedEof)
        }
    }

    /// Read a little-endian 16-bit word.
    pub fn read_u16(&mut self) -> (r: Result<u16, BinError>)
        requires
            old(self).pos <= old(self).data@.len(),
        ensures
            final(self).data == old(self).data,
            final(self).pos <= final(self).data@.len(),
            old(self).pos <= final(self).pos,
            match r {
                Ok(v) => old(self).pos + 2 <= old(self).data@.len() && final(self).pos == old(
                    self,
                ).pos + 2 && old(self).data@.subrange(
                    old(self).pos as int,
                    old(self).pos + 2,
                ) == le16(v),
                Err(e) => e == BinError::UnexpectedEof && old(self).pos + 2 > old(
                    self,
                ).data@.len() && final(self).pos == old(self).pos,
            },
    {
        if self.data.len() - self.pos >= 2 {
            let v = make_u16(self.data[self.pos], self.data[self.pos + 1]);
            self.pos = self.pos + 2;
            proof {
                assert(old(self).data@.subrange(old(self).pos as int, old(self).pos + 2) =~= seq![
                    old(self).data@[old(self).pos as int],
                    old(self).data@[old(self).pos + 1],
                ]);
            }
            Ok(v)
        } else {
            Err(BinError::UnexpectedEof)
        }
    }

    /// Read a little-endian 32-bit word.
    pub fn read_u32(&mut self) -> (r: Result<u32, BinError>)
        requires
            old(self).pos <= old(self).data@.len(),
        ensures
            final(self).data == old(self).data,
            final(self).pos <= final(self).data@.len(),
            old(self).pos <= final(self).pos,
            match r {
                Ok(v) => old(self).pos + 4 <= old(self).data@.len() && final(self).pos == old(
                    self,
                ).pos + 4 && old(self).data@.subrange(
                    old(self).pos as int,
                    old(self).pos + 4,
                ) == le32(v),
                Err(e) => e == BinError::UnexpectedEof && old(self).pos + 4 > old(
                    self,
                ).data@.len() && final(self).pos == old(self).pos,
            },
    {
        if self.data.len() - self.pos >= 4 {
            let v = make_u32(
                self.data[self.pos],
                self.data[self.pos + 1],
                self.data[self.pos + 2],
                self.data[self.pos + 3],
            );
            self.pos = self.pos + 4;
            proof {
                assert(old(self).data@.subrange(old(self).pos as int, old(self).pos + 4) =~= seq![
                    old(self).data@[old(self).pos as int],
                    old(self).data@[old(self).pos + 1],
                    old(self).data@[old(self).pos + 2],
                    old(self).data@[old(self).pos + 3],
                ]);
            }
            Ok(v)
        } else {
            Err(BinError::UnexpectedEof)
        }
    }

    /// Read a little-endian 64-bit word.
    pub fn read_u64(&mut self) -> (r: Result<u64, BinError>)
        requires
            old(self).pos <= old(self).data@.len(),
        ensures
            final(self).data == old(self).data,
            final(self).pos <= final(self).data@.len(),
            old(self).pos <= final(self).pos,
            match r {
                Ok(v) => old(self).pos + 8 <= old(self).data@.len() && final(self).pos == old(
                    self,
                ).pos + 8 && old(self).data@.subrange(
                    old(self).pos as int,
                    old(self).pos + 8,
                ) == le64(v),
                Err(e) => e == BinError::UnexpectedEof && old(self).pos + 8 > old(
                    self,
                ).data@.len() && final(self).pos == old(self).pos,
            },
    {
        if self.data.len() - self.pos >= 8 {
            let v = make_u64(
                self.data[self.pos],
                self.data[self.pos + 1],
                self.data[self.pos + 2],
                self.data[self.pos + 3],
                self.data[self.pos + 4],
                self.data[self.pos + 5],
                self.data[self.pos + 6],
                self.data[self.pos + 7],
            );
            self.pos = self.pos + 8;
            proof {
                assert(old(self).data@.subrange(old(self).pos as int, old(self).pos + 8) =~= seq![
                    old(self).data@[old(self).pos as int],
                    old(self).data@[old(self).pos + 1],
                    old(self).data@[old(self).pos + 2],
                    old(self).data@[old(self).pos + 3],
                    old(self).data@[old(self).pos + 4],
                    old(self).data@[old(self).pos + 5],
                    old(self).data@[old(self).pos + 6],
                    old(self).data@[old(self).pos + 7],
                ]);
            }
            Ok(v)
        } else {
            Err(BinError::UnexpectedEof)
        }
    }

    /// Read a signed byte.
    pub fn read_i8(&mut self) -> (r: Result<i8, BinError>)
        requires
            old(self).pos <= old(self).data@.len(),
        ensures
            final(self).data == old(self).data,
            final(self).pos <= final(self).data@.len(),
            old(self).pos <= final(self).pos,
            match r {
                Ok(v) => final(self).pos == old(self).pos + 1 && old(self).data@[old(
                    self,
                ).pos as int] == v as u8,
                Err(e) => e == BinError::UnexpectedEof && old(self).pos == old(self).data@.len()
                    && final(self).pos == old(self).pos,
            },
    {
        match self.read_u8() {
            Ok(b) => {
                proof {
                    assert(((b as i8) as u8) == b) by (bit_vector);
                }
                Ok(#[verifier::truncate] (b as i8))
            },
            Err(e) => Err(e),
        }
    }

    /// Read a boolean: any non-zero byte is true.
    pub fn read_bool(&mut self) -> (r: Result<bool, BinError>)
        requires
            old(self).pos <= old(self).data@.len(),
        ensures
            final(self).data == old(self).data,
            final(self).pos <= final(self).data@.len(),
            old(self).pos <= final(self).pos,
            match r {
                Ok(v) => final(self).pos == old(self).pos + 1 && v == (old(self).data@[old(
                    self,
                ).pos as int] != 0),
                Err(e) => e == BinError::UnexpectedEof && old(self).pos == old(self).data@.len()
                    && final(self).pos == old(self).pos,
            },
    {
        match self.read_u8() {
            Ok(b) => Ok(b != 0),
            Err(e) => Err(e),
        }
    }

    /// Read a tag byte; a code outside the closed set is an error.
    pub fn read_type(&mut self) -> (r: Result<BinType, BinError>)
        requires
            old(self).pos <= old(self).data@.len(),
        ensures
            final(self).data == old(self).data,
            final(self).pos <= final(self).data@.len(),
            old(self).pos <= final(self).pos,
            match r {
                Ok(t) => final(self).pos == old(self).pos + 1 && old(self).pos < old(
                    self,
                ).data@.len() && crate::model::spec_tag_from_code(
                    old(self).data@[old(self).pos as int],
                ) == Some(t),
                Err(e) => (e == BinError::UnexpectedEof && old(self).pos == old(self).data@.len()
                    && final(self).pos == old(self).pos) || (e matches BinError::UnknownType(c)
                    && old(self).pos < old(self).data@.len() && c == old(self).data@[old(
                    self,
                ).pos as int] && crate::model::spec_tag_from_code(c) is None && final(self).pos
                    == old(self).pos + 1),
            },
    {
        match self.read_u8() {
            Ok(b) => match BinType::from_code(b) {
                Some(t) => Ok(t),
                None => Err(BinError::UnknownType(b)),
            },
            Err(e) => Err(e),
        }
    }

    /// Read a 16-bit-length-prefixed string; invalid UTF-8 is replaced.
    pub fn read_string(&mut self) -> (r: Result<String, BinError>)
        requires
            old(self).pos <= old(self).data@.len(),
        ensures
            final(self).data == old(self).data,
            final(self).pos <= final(self).data@.len(),
            old(self).pos <= final(self).pos,
            match r {
                Ok(st) => {
                    &&& final(self).pos <= old(self).pos + 2 + 0xffff
                    &&& st@ == lossy_chars(
                        old(self).data@.subrange(old(self).pos + 2, final(self).pos as int),
                    )
                    &&& old(self).data@.subrange(old(self).pos as int, old(self).pos + 2) == le16(
                        (final(self).pos - old(self).pos - 2) as u16,
                    )
                    &&& vstd::utf8::valid_utf8(
                        old(self).data@.subrange(old(self).pos + 2, final(self).pos as int),
                    ) ==> st@ == vstd::utf8::decode_utf8(
                        old(self).data@.subrange(old(self).pos + 2, final(self).pos as int),
                    )
                },
                Err(e) => e == BinError::UnexpectedEof && (old(self).pos + 2 > old(
                    self,
                ).data@.len() || old(self).pos + 2 + word16(
                    old(self).data@[old(self).pos as int],
                    old(self).data@[old(self).pos + 1],
                ) > old(self).data@.len()),
            },
    {
        let n = match self.read_u16() {
            Ok(n) => n,
            Err(e) => {
                return Err(e);
            },
        };
        let n = n as usize;
        if n > self.data.len() - self.pos {
            return Err(BinError::UnexpectedEof);
        }
        let mut bytes: Vec<u8> = Vec::new();
        let start = self.pos;
        let dlen: usize = self.data.len();
        let mut i: usize = 0;
        while i < n
            invariant
                dlen == self.data@.len(),
                start + n <= dlen,
                i <= n,
                self.pos == start,
                bytes@ == self.data@.subrange(start as int, start as int + i as int),
            decreases n - i,
        {
            bytes.push(self.data[start + i]);
            proof {
                assert(bytes@ =~= self.data@.subrange(start as int, start as int + i + 1));
            }
            i = i + 1;
        }
        self.pos = start + n;
        let st = bytes_to_string_lossy(&bytes);
        Ok(st)
    }

    /// Read four bytes of colour channels.
    pub fn read_rgba(&mut self) -> (r: Result<[u8; 4], BinError>)
        requires
            old(self).pos <= old(self).data@.len(),
        ensures
            final(self).data == old(self).data,
            final(self).pos <= final(self).data@.len(),
            old(self).pos <= final(self).pos,
            match r {
                Ok(a) => final(self).pos == old(self).pos + 4 && a@ == old(self).data@.subrange(
                    old(self).pos as int,
                    old(self).pos + 4,
                ),
                Err(e) => e == BinError::UnexpectedEof && old(self).pos + 4 > old(
                    self,
                ).data@.len() && final(self).pos == old(self).pos,
            },
    {
        if self.data.len() - self.pos >= 4 {
            let a: [u8; 4] = [
                self.data[self.pos],
                self.data[self.pos + 1],
                self.data[self.pos + 2],
                self.data[self.pos + 3],
            ];
            self.pos = self.pos + 4;
            proof {
                assert(a@ =~= old(self).data@.subrange(old(self).pos as int, old(self).pos + 4));
            }
            Ok(a)
        } else {
            Err(BinError::UnexpectedEof)
        }
    }

    /// Move forward to an absolute region end; moving backwards is a
    /// shape error and moving past the end of the input is an EOF
    /// error.
    fn seek_region_end(&mut self, start: usize, size: u32, t: BinType) -> (r: Result<
        (),
        BinError,
    >)
        requires
            old(self).pos <= old(self).data@.len(),
            start <= old(self).pos,
        ensures
            final(self).data == old(self).data,
            final(self).pos <= final(self).data@.len(),
            old(self).pos <= final(self).pos,
            match r {
                Ok(_) => final(self).pos == start + size && start + size
                    <= final(self).data@.len(),
                Err(e) => e == BinError::UnexpectedEof || e == BinError::InvalidValue(t),
            },
    {
        let remaining: usize = self.data.len() - start;
        if size as usize > remaining {
            return Err(BinError::UnexpectedEof);
        }
        let target: usize = start + size as usize;
        if target < self.pos {
            return Err(BinError::InvalidValue(t));
        }
        self.pos = target;
        Ok(())
    }
}

/// A name for what String::from_utf8_lossy returns: it depends on the
/// bytes alone.
pub uninterp spec fn lossy_chars(b: Seq<u8>) -> Seq<char>;

/// Relies on String::from_utf8_lossy: deterministic in the bytes, and
/// valid UTF-8 is decoded unchanged.
#[verifier::external_body]
fn bytes_to_string_lossy(v: &Vec<u8>) -> (r: String)
    ensures
        r@ == lossy_chars(v@),
        vstd::utf8::valid_utf8(v@) ==> r@ == vstd::utf8::decode_utf8(v@),
{
    String::from_utf8_lossy(v.as_slice()).into_owned()
}

impl<'a> BinaryReader<'a> {
    /// Read one value of the given tag from the current position.
    ///
    /// On success the value carries the requested tag, satisfies the
    /// structural wellformedness rules (container element tags are
    /// never containers, map keys are primitive, a null Pointer has no
    /// fields), and every recovered-name slot is empty: the wire
    /// format does not carry names. A region whose declared size ends
    /// past the end of the input is an EOF error; one that ends before
    /// its own content is a shape error; unknown trailing bytes inside
    /// a region are skipped.
    #[verifier::loop_isolation(false)]
    #[verifier::rlimit(100)]
    pub fn read_value(&mut self, t: &BinType) -> (r: Result<BinValue, BinError>)
        requires
            old(self).pos <= old(self).data@.len(),
        ensures
            final(self).data == old(self).data,
            final(self).pos <= final(self).data@.len(),
            old(self).pos <= final(self).pos,
            match r {
                Ok(v) => vtag(vview(v)) == *t && wf_value(vview(v)) && names_clear(vview(v)),
                Err(e) => e != BinError::InvalidMagic,
            },
        decreases self.data@.len() - self.pos,
    {
        match t {
            BinType::Null => Ok(BinValue::Null),
            BinType::Bool => Ok(BinValue::Bool(self.read_bool()?)),
            BinType::I8 => Ok(BinValue::I8(self.read_i8()?)),
            BinType::U8 => Ok(BinValue::U8(self.read_u8()?)),
            BinType::I16 => Ok(BinValue::I16(#[verifier::truncate] (self.read_u16()? as i16))),
            BinType::U16 => Ok(BinValue::U16(self.read_u16()?)),
            BinType::I32 => Ok(BinValue::I32(#[verifier::truncate] (self.read_u32()? as i32))),
            BinType::U32 => Ok(BinValue::U32(self.read_u32()?)),
            BinType::I64 => Ok(BinValue::I64(#[verifier::truncate] (self.read_u64()? as i64))),
            BinType::U64 => Ok(BinValue::U64(self.read_u64()?)),
            BinType::F32 => Ok(BinValue::F32(self.read_u32()?)),
            BinType::Vec2 => {
                let a = self.read_u32()?;
                let b = self.read_u32()?;
                Ok(BinValue::Vec2([a, b]))
            },
            BinType::Vec3 => {
                let a = self.read_u32()?;
                let b = self.read_u32()?;
                let c = self.read_u32()?;
                Ok(BinValue::Vec3([a, b, c]))
            },
            BinType::Vec4 => {
                let a = self.read_u32()?;
                let b = self.read_u32()?;
                let c = self.read_u32()?;
                let d = self.read_u32()?;
                Ok(BinValue::Vec4([a, b, c, d]))
            },
            BinType::Mtx44 => {
                let m0 = self.read_u32()?;
                let m1 = self.read_u32()?;
                let m2 = self.read_u32()?;
                let m3 = self.read_u32()?;
                let m4 = self.read_u32()?;
                let m5 = self.read_u32()?;
                let m6 = self.read_u32()?;
                let m7 = self.read_u32()?;
                let m8 = self.read_u32()?;
                let m9 = self.read_u32()?;
                let m10 = self.read_u32()?;
                let m11 = self.read_u32()?;
                let m12 = self.read_u32()?;
                let m13 = self.read_u32()?;
                let m14 = self.read_u32()?;
                let m15 = self.read_u32()?;
                Ok(
                    BinValue::Mtx44(
                        [
                            m0,
                            m1,
                            m2,
                            m3,
                            m4,
                            m5,
                            m6,
                            m7,
                            m8,
                            m9,
                            m10,
                            m11,
                            m12,
                            m13,
                            m14,
                            m15,
                        ],
                    ),
                )
            },
            BinType::Rgba => Ok(BinValue::Rgba(self.read_rgba()?)),
            BinType::String => Ok(BinValue::String(self.read_string()?)),
            BinType::Hash => Ok(BinValue::Hash { value: self.read_u32()?, name: None }),
            BinType::File => Ok(BinValue::File { value: self.read_u64()?, name: None }),
            BinType::Link => Ok(BinValue::Link { value: self.read_u32()?, name: None }),
            BinType::Flag => Ok(BinValue::Flag(self.read_bool()?)),
            BinType::List => {
                let (value_type, items) = self.read_list_body(false)?;
                proof {
                    lemma_vview_seq_index(items@);
                }
                Ok(BinValue::List { value_type, items })
            },
            BinType::List2 => {
                let (value_type, items) = self.read_list_body(true)?;
                proof {
                    lemma_vview_seq_index(items@);
                }
                Ok(BinValue::List2 { value_type, items })
            },
            BinType::Option => {
                let value_type = self.read_type()?;
                if value_type.is_container() {
                    return Err(BinError::InvalidValue(value_type));
                }
                let present = self.read_u8()?;
                if present != 0 {
                    let inner = self.read_value(&value_type)?;
                    proof {
                        crate::model::lemma_wf_option(
                            value_type,
                            Some(Box::new(vview(inner))),
                        );
                    }
                    Ok(BinValue::Option { value_type, item: Some(Box::new(inner)) })
                } else {
                    proof {
                        crate::model::lemma_wf_option(value_type, None);
                    }
                    Ok(BinValue::Option { value_type, item: None })
                }
            },
            BinType::Dict => {
                let key_type = self.read_type()?;
                if !key_type.is_primitive() {
                    return Err(BinError::InvalidValue(key_type));
                }
                let value_type = self.read_type()?;
                if value_type.is_container() {
                    return Err(BinError::InvalidValue(value_type));
                }
                let size = self.read_u32()?;
                let start = self.position();
                let count = self.read_u32()?;
                let mut items: Vec<MapEntry> = Vec::new();
                let mut i: u32 = 0;
                while i < count
                    invariant
                        self.data == old(self).data,
                        old(self).pos < self.pos <= self.data@.len(),
                        start <= self.pos,
                        i <= count,
                        forall|j: int|
                            0 <= j < items@.len() ==> wf_value(
                                (#[trigger] vview_pairs(items@)[j]).0,
                            ) && wf_value(vview_pairs(items@)[j].1) && vtag(
                                vview_pairs(items@)[j].0,
                            ) == key_type && vtag(vview_pairs(items@)[j].1) == value_type
                                && names_clear(vview_pairs(items@)[j].0) && names_clear(
                                vview_pairs(items@)[j].1,
                            ),
                    decreases count - i,
                {
                    let k = self.read_value(&key_type)?;
                    let v = self.read_value(&value_type)?;
                    let ghost pre = items@;
                    items.push(MapEntry { key: k, value: v });
                    proof {
                        lemma_vview_pairs_index(pre);
                        lemma_vview_pairs_index(items@);
                        assert(items@.drop_last() =~= pre);
                    }
                    i = i + 1;
                }
                self.seek_region_end(start, size, BinType::Dict)?;
                proof {
                    lemma_vview_pairs_index(items@);
                    crate::model::lemma_wf_dict(key_type, value_type, vview_pairs(items@));
                }
                Ok(BinValue::Dict { key_type, value_type, items })
            },
            BinType::Pointer => {
                let name = self.read_u32()?;
                if name == 0 {
                    let items: Vec<Field> = Vec::new();
                    proof {
                        crate::model::lemma_wf_pointer(0, None, vview_fields(items@));
                    }
                    return Ok(BinValue::Pointer { name: 0, name_str: None, items });
                }
                let (items, _count) = self.read_fields_body()?;
                proof {
                    lemma_vview_fields_index(items@);
                    crate::model::lemma_wf_pointer(name, None, vview_fields(items@));
                }
                Ok(BinValue::Pointer { name, name_str: None, items })
            },
            BinType::Embed => {
                let name = self.read_u32()?;
                let (items, _count) = self.read_fields_body()?;
                proof {
                    lemma_vview_fields_index(items@);
                    crate::model::lemma_wf_embed(name, None, vview_fields(items@));
                }
                Ok(BinValue::Embed { name, name_str: None, items })
            },
        }
    }

    /// Read the common layout of List and List2: element tag, region
    /// size, count, elements, then a forward skip to the region end.
    #[verifier::loop_isolation(false)]
    fn read_list_body(&mut self, alt: bool) -> (r: Result<(BinType, Vec<BinValue>), BinError>)
        requires
            old(self).pos <= old(self).data@.len(),
        ensures
            final(self).data == old(self).data,
            final(self).pos <= final(self).data@.len(),
            old(self).pos <= final(self).pos,
            match r {
                Ok((value_type, items)) => {
                    &&& !spec_is_container(value_type)
                    &&& forall|j: int|
                        0 <= j < items@.len() ==> wf_value(#[trigger] vview_seq(items@)[j])
                            && vtag(vview_seq(items@)[j]) == value_type && names_clear(
                            vview_seq(items@)[j],
                        )
                },
                Err(e) => e != BinError::InvalidMagic,
            },
        decreases self.data@.len() - self.pos, 0int,
    {
        let value_type = self.read_type()?;
        if value_type.is_container() {
            return Err(BinError::InvalidValue(value_type));
        }
        let size = self.read_u32()?;
        let start = self.position();
        let count = self.read_u32()?;
        let mut items: Vec<BinValue> = Vec::new();
        let mut i: u32 = 0;
        while i < count
            invariant
                self.data == old(self).data,
                old(self).pos < self.pos <= self.data@.len(),
                start <= self.pos,
                i <= count,
                forall|j: int|
                    0 <= j < items@.len() ==> wf_value(#[trigger] vview_seq(items@)[j]) && vtag(
                        vview_seq(items@)[j],
                    ) == value_type && names_clear(vview_seq(items@)[j]),
            decreases count - i,
        {
            let v = self.read_value(&value_type)?;
            let ghost pre = items@;
            items.push(v);
            proof {
                lemma_vview_seq_index(pre);
                lemma_vview_seq_index(items@);
                assert(items@.drop_last() =~= pre);
            }
            i = i + 1;
        }
        let t = if alt {
            BinType::List2
        } else {
            BinType::List
        };
        self.seek_region_end(start, size, t)?;
        Ok((value_type, items))
    }

    /// Read the field body shared by Pointer and Embed: region size,
    /// field count, fields, then a forward skip to the region end.
    #[verifier::loop_isolation(false)]
    fn read_fields_body(&mut self) -> (r: Result<(Vec<Field>, u16), BinError>)
        requires
            old(self).pos <= old(self).data@.len(),
        ensures
            final(self).data == old(self).data,
            final(self).pos <= final(self).data@.len(),
            old(self).pos <= final(self).pos,
            match r {
                Ok((items, _)) => forall|j: int|
                    0 <= j < items@.len() ==> wf_value(
                        (#[trigger] vview_fields(items@)[j]).value,
                    ) && vview_fields(items@)[j].key_str is None && names_clear(
                        vview_fields(items@)[j].value,
                    ),
                Err(e) => e != BinError::InvalidMagic,
            },
        decreases self.data@.len() - self.pos, 0int,
    {
        let size = self.read_u32()?;
        let start = self.position();
        let count = self.read_u16()?;
        let mut items: Vec<Field> = Vec::new();
        let mut i: u16 = 0;
        while i < count
            invariant
                self.data == old(self).data,
                old(self).pos < self.pos <= self.data@.len(),
                start <= self.pos,
                i <= count,
                forall|j: int|
                    0 <= j < items@.len() ==> wf_value(
                        (#[trigger] vview_fields(items@)[j]).value,
                    ) && vview_fields(items@)[j].key_str is None && names_clear(
                        vview_fields(items@)[j].value,
                    ),
            decreases count - i,
        {
            let key = self.read_u32()?;
            let ftype = self.read_type()?;
            let value = self.read_value(&ftype)?;
            let ghost pre = items@;
            items.push(Field { key, key_str: None, value });
            proof {
                lemma_vview_fields_index(pre);
                lemma_vview_fields_index(items@);
                assert(items@.drop_last() =~= pre);
            }
            i = i + 1;
        }
        self.seek_region_end(start, size, BinType::Embed)?;
        Ok((items, count))
    }
}

/// The section value stored under a key, if any.
pub open spec fn doc_get(sv: Seq<(Seq<char>, ValV)>, k: Seq<char>) -> Option<ValV> {
    if key_index(sv, k) >= 0 {
        Some(sv[key_index(sv, k)].1)
    } else {
        None
    }
}

/// The document type characters, when the type section is a string.
pub open spec fn doc_type_chars(sv: Seq<(Seq<char>, ValV)>) -> Option<Seq<char>> {
    match doc_get(sv, "type"@) {
        Some(ValV::String(ts)) => Some(ts),
        _ => None,
    }
}

/// The document version, when the version section is a 32-bit word.
pub open spec fn doc_version(sv: Seq<(Seq<char>, ValV)>) -> Option<u32> {
    match doc_get(sv, "version"@) {
        Some(ValV::U32(v)) => Some(v),
        _ => None,
    }
}

/// The four magic bytes "PROP".
pub open spec fn prop_magic() -> Seq<u8> {
    seq![80u8, 82u8, 79u8, 80u8]
}

/// The four magic bytes "PTCH".
pub open spec fn ptch_magic() -> Seq<u8> {
    seq![80u8, 84u8, 67u8, 72u8]
}

/// The inputs on which the reader reports a bad magic: the first four
/// bytes are neither "PROP" nor "PTCH", or they are "PTCH", the eight
/// opaque bytes follow, and the four bytes after them are not "PROP".
pub open spec fn bad_magic(s: Seq<u8>) -> bool {
    ||| (s.len() >= 4 && s.subrange(0, 4) != prop_magic() && s.subrange(0, 4) != ptch_magic())
    ||| (s.len() >= 16 && s.subrange(0, 4) == ptch_magic() && s.subrange(12, 16) != prop_magic())
}

/// The patch prefix: "PTCH" followed by the two legacy words 1 and 0.
pub open spec fn ptch_prefix() -> Seq<u8> {
    seq![80u8, 84u8, 67u8, 72u8] + le32(1) + le32(0)
}

/// The linked-files block: the list length and the string items; a
/// missing or non-list section is written as an empty list.
pub open spec fn enc_linked(lv: Option<ValV>) -> Seq<u8> {
    match lv {
        Some(ValV::List { value_type: _, items }) => le32(items.len() as u32) + enc_items(items),
        _ => le32(0),
    }
}

/// The linked-files block fits the wire when each item is a string
/// within the string length limit.
pub open spec fn linked_writable(lv: Option<ValV>) -> bool {
    match lv {
        Some(ValV::List { value_type: _, items }) => {
            &&& items.len() < 0x100000000
            &&& forall|i: int|
                0 <= i < items.len() ==> (#[trigger] items[i]) is String && writable(items[i])
        },
        _ => true,
    }
}

/// The digest pre-table of the entries section: each entry's embed
/// name digest in order.
pub open spec fn enc_entry_table(items: Seq<(ValV, ValV)>) -> Seq<u8>
    decreases items.len(),
{
    if items.len() == 0 {
        Seq::empty()
    } else {
        enc_entry_table(items.drop_last()) + le32(items.last().1->Embed_name)
    }
}

/// The entry bodies: per entry a length word that spans the key
/// digest, the field count and the fields, then those parts.
pub open spec fn enc_entry_bodies(items: Seq<(ValV, ValV)>) -> Seq<u8>
    decreases items.len(),
{
    if items.len() == 0 {
        Seq::empty()
    } else {
        let fields = items.last().1->Embed_items;
        let payload = le16(fields.len() as u16) + enc_fields(fields);
        enc_entry_bodies(items.drop_last()) + le32((4 + payload.len()) as u32) + le32(
            items.last().0->Hash_value,
        ) + payload
    }
}

/// The entries block: count, digest pre-table, entry bodies; a
/// missing or non-map section is written as an empty table.
pub open spec fn enc_entries(ev: Option<ValV>) -> Seq<u8> {
    match ev {
        Some(ValV::Dict { key_type: _, value_type: _, items }) => le32(items.len() as u32)
            + enc_entry_table(items) + enc_entry_bodies(items),
        _ => le32(0),
    }
}

/// The entries block fits the wire when every key is a Hash, every
/// value is an Embed within the field limits.
pub open spec fn entries_writable(ev: Option<ValV>) -> bool {
    match ev {
        Some(ValV::Dict { key_type: _, value_type: _, items }) => {
            &&& items.len() < 0x100000000
            &&& forall|i: int|
                0 <= i < items.len() ==> (#[trigger] items[i]).0 is Hash && items[i].1 is Embed
                    && writable(items[i].1) && 6 + enc_fields(items[i].1->Embed_items).len()
                    < 0x100000000
        },
        _ => true,
    }
}

/// The whole document: header, version, linked files for version 2
/// and later, the entries block, and for patch documents of version 3
/// and later the patches block.
pub open spec fn enc_doc(sv: Seq<(Seq<char>, ValV)>) -> Seq<u8> {
    let ptch = doc_type_chars(sv) == Some("PTCH"@);
    let ver = doc_version(sv)->Some_0;
    (if ptch {
        ptch_prefix()
    } else {
        Seq::empty()
    }) + prop_magic() + le32(ver) + (if ver >= 2 {
        enc_linked(doc_get(sv, "linked"@))
    } else {
        Seq::empty()
    }) + enc_entries(doc_get(sv, "entries"@)) + (if ptch && ver >= 3 {
        enc_patches(doc_get(sv, "patches"@))
    } else {
        Seq::empty()
    })
}

/// A document fits the wire when its type section is the string
/// "PROP" or "PTCH", its version is a 32-bit word, and the linked,
/// entries and patches sections fit their counts and sizes.
pub open spec fn doc_writable(sv: Seq<(Seq<char>, ValV)>) -> bool {
    &&& (doc_type_chars(sv) == Some("PROP"@) || doc_type_chars(sv) == Some("PTCH"@))
    &&& doc_version(sv) is Some
    &&& (doc_version(sv)->Some_0 >= 2 ==> linked_writable(doc_get(sv, "linked"@)))
    &&& entries_writable(doc_get(sv, "entries"@))
    &&& doc_type_chars(sv) == Some("PTCH"@) && doc_version(sv)->Some_0 >= 3 ==> patches_writable(
        doc_get(sv, "patches"@),
    )
}

/// The digest of the "path" field key.
pub open spec fn path_key() -> u32 {
    fnv1a_of(fold_bytes(encode_utf8("path"@)))
}

/// The digest of the "value" field key.
pub open spec fn value_key() -> u32 {
    fnv1a_of(fold_bytes(encode_utf8("value"@)))
}

/// Index of the first field with the given key digest, or -1.
pub open spec fn field_index(s: Seq<FieldV>, k: u32) -> int
    decreases s.len(),
{
    if s.len() == 0 {
        -1
    } else if s[0].key == k {
        0
    } else {
        let r = field_index(s.drop_first(), k);
        if r == -1 {
            -1
        } else {
            r + 1
        }
    }
}

/// Where `field_index` points, the key matches; where it is -1, no
/// key matches.
pub proof fn lemma_field_index(s: Seq<FieldV>, k: u32)
    ensures
        field_index(s, k) >= -1,
        field_index(s, k) >= 0 ==> field_index(s, k) < s.len() && s[field_index(s, k)].key == k,
        field_index(s, k) == -1 <==> forall|i: int| 0 <= i < s.len() ==> (#[trigger] s[i]).key
            != k,
    decreases s.len(),
{
    if s.len() > 0 && s[0].key != k {
        lemma_field_index(s.drop_first(), k);
        assert(forall|i: int| 1 <= i < s.len() ==> (#[trigger] s[i]) == s.drop_first()[i - 1]);
        if field_index(s, k) == -1 {
            assert forall|i: int| 0 <= i < s.len() implies (#[trigger] s[i]).key != k by {
                if i >= 1 {
                    assert(s.drop_first()[i - 1].key != k);
                }
            }
        }
    }
}

/// One patch record: key digest, length word, value tag, path string,
/// value.
pub open spec fn enc_patch(key: ValV, emb: ValV) -> Seq<u8> {
    let fields = emb->Embed_items;
    let path = fields[field_index(fields, path_key())].value;
    let val = fields[field_index(fields, value_key())].value;
    let body = seq![spec_tag_code(vtag(val))] + enc_value(path) + enc_value(val);
    le32(key->Hash_value) + le32(body.len() as u32) + body
}

/// The patches block: count then the patch records; a missing or
/// non-map section is written as an empty table.
pub open spec fn enc_patches(pv: Option<ValV>) -> Seq<u8>
{
    match pv {
        Some(ValV::Dict { key_type: _, value_type: _, items }) => le32(items.len() as u32)
            + enc_patch_items(items),
        _ => le32(0),
    }
}

pub open spec fn enc_patch_items(items: Seq<(ValV, ValV)>) -> Seq<u8>
    decreases items.len(),
{
    if items.len() == 0 {
        Seq::empty()
    } else {
        enc_patch_items(items.drop_last()) + enc_patch(items.last().0, items.last().1)
    }
}

/// The patches block fits the wire when every key is a Hash and every
/// value an Embed carrying a string "path" field and a "value" field.
pub open spec fn patches_writable(pv: Option<ValV>) -> bool {
    match pv {
        Some(ValV::Dict { key_type: _, value_type: _, items }) => {
            &&& items.len() < 0x100000000
            &&& forall|i: int|
                0 <= i < items.len() ==> (#[trigger] items[i]).0 is Hash && patch_embed_writable(
                    items[i].1,
                )
        },
        _ => true,
    }
}

/// An embed usable as a patch record: it has a writable string path
/// field, a writable value field, and the record fits its length word.
pub open spec fn patch_embed_writable(v: ValV) -> bool {
    &&& v is Embed
    &&& {
        let fields = v->Embed_items;
        let pi = field_index(fields, path_key());
        let vi = field_index(fields, value_key());
        &&& pi >= 0
        &&& vi >= 0
        &&& fields[pi].value is String
        &&& writable(fields[pi].value)
        &&& writable(fields[vi].value)
        &&& 1 + enc_value(fields[pi].value).len() + enc_value(fields[vi].value).len()
            < 0x100000000
    }
}

/// Byte-wise equality of two slices.
fn bytes_eq(a: &[u8], b: &[u8]) -> (r: bool)
    ensures
        r == (a@ == b@),
{
    if a.len() != b.len() {
        proof {
            assert(a@ != b@);
        }
        return false;
    }
    let mut i: usize = 0;
    while i < a.len()
        invariant
            i <= a@.len(),
            a@.len() == b@.len(),
            forall|j: int| 0 <= j < i ==> a@[j] == b@[j],
        decreases a@.len() - i,
    {
        if a[i] != b[i] {
            proof {
                assert(a@ != b@);
            }
            return false;
        }
        i = i + 1;
    }
    proof {
        assert(a@ =~= b@);
    }
    true
}

/// Whether a string holds exactly the given literal's characters.
fn str_is(s: &str, lit: &str) -> (r: bool)
    ensures
        r == (s@ == lit@),
{
    let r = bytes_eq(s.as_bytes(), lit.as_bytes());
    proof {
        if r {
            vstd::utf8::encode_utf8_decode_utf8(s@);
            vstd::utf8::encode_utf8_decode_utf8(lit@);
        }
    }
    r
}

/// Index of the first field carrying the given key digest.
fn find_field(fields: &Vec<Field>, k: u32) -> (r: Option<usize>)
    ensures
        match r {
            Some(i) => i == field_index(vview_fields(fields@), k) && i < fields@.len(),
            None => field_index(vview_fields(fields@), k) == -1,
        },
{
    proof {
        lemma_vview_fields_index(fields@);
        lemma_field_index(vview_fields(fields@), k);
    }
    let ghost fv = vview_fields(fields@);
    let mut i: usize = 0;
    while i < fields.len()
        invariant
            i <= fields@.len(),
            fv == vview_fields(fields@),
            fv.len() == fields@.len(),
            forall|j: int| 0 <= j < fv.len() ==> (#[trigger] fv[j]).key == fields@[j].key,
            forall|j: int| 0 <= j < i ==> (#[trigger] fv[j]).key != k,
        decreases fields@.len() - i,
    {
        if fields[i].key == k {
            proof {
                lemma_field_index_first(fv, k, i as int);
            }
            return Some(i);
        }
        i = i + 1;
    }
    proof {
        lemma_field_index(fv, k);
    }
    None
}

/// The first field whose key matches determines `field_index`.
pub proof fn lemma_field_index_first(s: Seq<FieldV>, k: u32, i: int)
    requires
        0 <= i < s.len(),
        s[i].key == k,
        forall|j: int| 0 <= j < i ==> (#[trigger] s[j]).key != k,
    ensures
        field_index(s, k) == i,
    decreases i,
{
    if i > 0 {
        assert(s[0].key != k);
        lemma_field_index_first(s.drop_first(), k, i - 1);
        assert(forall|j: int| 1 <= j < s.len() ==> (#[trigger] s[j]) == s.drop_first()[j - 1]);
        assert(s.drop_first()[i - 1] == s[i]);
        assert forall|j: int| 0 <= j < i - 1 implies (#[trigger] s.drop_first()[j]).key != k by {
            assert(s.drop_first()[j] == s[j + 1]);
        }
    }
}

/// The view of an optional borrowed section value.
pub open spec fn opt_vview(o: Option<&BinValue>) -> Option<ValV> {
    match o {
        Some(v) => Some(vview(*v)),
        None => None,
    }
}

/// Append the linked-files block for a version-2 document.
#[verifier::loop_isolation(false)]
fn write_linked_block(buf: &mut Vec<u8>, o: Option<&BinValue>) -> (r: Result<(), BinError>)
    ensures
        match r {
            Ok(_) => linked_writable(opt_vview(o)) && final(buf)@ == old(buf)@ + enc_linked(
                opt_vview(o),
            ),
            Err(_) => !linked_writable(opt_vview(o)),
        },
{
    match o {
        Some(lval) => match lval {
            BinValue::List { value_type: _, items } => {
                if items.len() as u64 >= 0x100000000u64 {
                    proof {
                        lemma_vview_seq_index(items@);
                    }
                    return Err(BinError::InvalidValue(BinType::List));
                }
                push_u32(buf, items.len() as u32);
                proof {
                    lemma_vview_seq_index(items@);
                }
                let mut i: usize = 0;
                while i < items.len()
                    invariant
                        i <= items@.len(),
                        buf@ == old(buf)@ + le32(items@.len() as u32) + enc_items(
                            vview_seq(items@.subrange(0, i as int)),
                        ),
                        forall|j: int|
                            0 <= j < i ==> (#[trigger] vview_seq(items@)[j]) is String
                                && writable(vview_seq(items@)[j]),
                    decreases items@.len() - i,
                {
                    match &items[i] {
                        BinValue::String(st) => {
                            match push_string(buf, st.as_str()) {
                                Ok(_) => (),
                                Err(e) => {
                                    return Err(e);
                                },
                            }
                        },
                        _ => {
                            return Err(BinError::InvalidValue(BinType::String));
                        },
                    }
                    proof {
                        let pre = items@.subrange(0, i as int);
                        let cur = items@.subrange(0, i + 1);
                        assert(cur.drop_last() =~= pre);
                        assert(cur.last() == items@[i as int]);
                        assert(vview_seq(cur).drop_last() =~= vview_seq(pre));
                        assert(buf@ =~= old(buf)@ + le32(items@.len() as u32) + enc_items(
                            vview_seq(cur),
                        ));
                    }
                    i = i + 1;
                }
                proof {
                    assert(items@.subrange(0, items@.len() as int) =~= items@);
                }
                Ok(())
            },
            _ => {
                push_u32(buf, 0);
                Ok(())
            },
        },
        None => {
            push_u32(buf, 0);
            Ok(())
        },
    }
}

/// Append one entry: its embed-name digest onto the pre-table, its
/// length-prefixed body onto the bodies buffer.
#[verifier::loop_isolation(false)]
fn write_one_entry(
    table: &mut Vec<u8>,
    bodies: &mut Vec<u8>,
    key: &BinValue,
    val: &BinValue,
) -> (r: Result<(), BinError>)
    ensures
        match r {
            Ok(_) => {
                &&& vview(*key) is Hash
                &&& vview(*val) is Embed
                &&& writable(vview(*val))
                &&& 6 + enc_fields(vview(*val)->Embed_items).len() < 0x100000000
                &&& final(table)@ == old(table)@ + le32(vview(*val)->Embed_name)
                &&& final(bodies)@ == old(bodies)@ + le32(
                    (4 + (le16(vview(*val)->Embed_items.len() as u16) + enc_fields(
                        vview(*val)->Embed_items,
                    )).len()) as u32,
                ) + le32(vview(*key)->Hash_value) + le16(vview(*val)->Embed_items.len() as u16)
                    + enc_fields(vview(*val)->Embed_items)
            },
            Err(_) => !(vview(*key) is Hash && vview(*val) is Embed && writable(vview(*val)) && 6
                + enc_fields(vview(*val)->Embed_items).len() < 0x100000000),
        },
{
    let keyh: u32 = match key {
        BinValue::Hash { value, .. } => *value,
        _ => {
            return Err(BinError::InvalidValue(BinType::Hash));
        },
    };
    match val {
        BinValue::Embed { name, name_str: _, items: fields } => {
            let mut payload: Vec<u8> = Vec::new();
            match write_fields_payload(&mut payload, fields) {
                Ok(_) => (),
                Err(e) => {
                    proof {
                        lemma_vview_fields_index(fields@);
                        lemma_writable_embed(
                            *name,
                            crate::model::name_view((*val)->Embed_name_str),
                            vview_fields(fields@),
                        );
                    }
                    return Err(e);
                },
            }
            if payload.len() as u64 >= 0xFFFFFFFCu64 {
                return Err(BinError::InvalidValue(BinType::Embed));
            }
            push_u32(table, *name);
            push_u32(bodies, (payload.len() + 4) as u32);
            push_u32(bodies, keyh);
            push_bytes(bodies, payload.as_slice());
            proof {
                lemma_vview_fields_index(fields@);
                lemma_writable_embed(
                    *name,
                    crate::model::name_view((*val)->Embed_name_str),
                    vview_fields(fields@),
                );
                assert(vview(*val)->Embed_items == vview_fields(fields@));
                assert(vview(*val)->Embed_name == *name);
                assert(vview(*key)->Hash_value == keyh);
                assert(bodies@ =~= old(bodies)@ + le32((4 + payload@.len()) as u32) + le32(keyh)
                    + payload@);
            }
            Ok(())
        },
        _ => Err(BinError::InvalidValue(BinType::Embed)),
    }
}

/// Append the entries block: count, digest pre-table, entry bodies.
#[verifier::loop_isolation(false)]
#[verifier::rlimit(100)]
fn write_entries_block(buf: &mut Vec<u8>, o: Option<&BinValue>) -> (r: Result<(), BinError>)
    ensures
        match r {
            Ok(_) => entries_writable(opt_vview(o)) && final(buf)@ == old(buf)@ + enc_entries(
                opt_vview(o),
            ),
            Err(_) => !entries_writable(opt_vview(o)),
        },
{
    match o {
        Some(eval) => match eval {
            BinValue::Dict { key_type: _, value_type: _, items } => {
                if items.len() as u64 >= 0x100000000u64 {
                    proof {
                        lemma_vview_pairs_index(items@);
                    }
                    return Err(BinError::InvalidValue(BinType::Dict));
                }
                push_u32(buf, items.len() as u32);
                proof {
                    lemma_vview_pairs_index(items@);
                }
                let mut table: Vec<u8> = Vec::new();
                let mut bodies: Vec<u8> = Vec::new();
                let mut i: usize = 0;
                while i < items.len()
                    invariant
                        i <= items@.len(),
                        table@ == enc_entry_table(vview_pairs(items@.subrange(0, i as int))),
                        bodies@ == enc_entry_bodies(vview_pairs(items@.subrange(0, i as int))),
                        forall|j: int|
                            0 <= j < i ==> ((#[trigger] vview_pairs(items@)[j]).0 is Hash
                                && vview_pairs(items@)[j].1 is Embed && writable(
                                vview_pairs(items@)[j].1,
                            ) && 6 + enc_fields(
                                vview_pairs(items@)[j].1->Embed_items,
                            ).len() < 0x100000000),
                    decreases items@.len() - i,
                {
                    match write_one_entry(&mut table, &mut bodies, &items[i].key, &items[i].value)
                        {
                        Ok(_) => (),
                        Err(e) => {
                            return Err(e);
                        },
                    }
                    proof {
                        let pre = items@.subrange(0, i as int);
                        let cur = items@.subrange(0, i + 1);
                        assert(cur.drop_last() =~= pre);
                        assert(cur.last() == items@[i as int]);
                        assert(vview_pairs(cur).drop_last() =~= vview_pairs(pre));
                        assert(table@ =~= enc_entry_table(vview_pairs(cur)));
                        assert(bodies@ =~= enc_entry_bodies(vview_pairs(cur)));
                    }
                    i = i + 1;
                }
                proof {
                    assert(items@.subrange(0, items@.len() as int) =~= items@);
                }
                push_bytes(buf, table.as_slice());
                push_bytes(buf, bodies.as_slice());
                proof {
                    assert(buf@ =~= old(buf)@ + enc_entries(opt_vview(o)));
                }
                Ok(())
            },
            _ => {
                push_u32(buf, 0);
                Ok(())
            },
        },
        None => {
            push_u32(buf, 0);
            Ok(())
        },
    }
}

/// Append the patches block of a patch document.
#[verifier::loop_isolation(false)]
#[verifier::rlimit(100)]
fn write_patches_block(buf: &mut Vec<u8>, o: Option<&BinValue>) -> (r: Result<(), BinError>)
    ensures
        match r {
            Ok(_) => patches_writable(opt_vview(o)) && final(buf)@ == old(buf)@ + enc_patches(
                opt_vview(o),
            ),
            Err(_) => !patches_writable(opt_vview(o)),
        },
{
    match o {
        Some(pval) => match pval {
            BinValue::Dict { key_type: _, value_type: _, items } => {
                if items.len() as u64 >= 0x100000000u64 {
                    proof {
                        lemma_vview_pairs_index(items@);
                    }
                    return Err(BinError::InvalidValue(BinType::Dict));
                }
                push_u32(buf, items.len() as u32);
                proof {
                    lemma_vview_pairs_index(items@);
                }
                let ghost pstart = old(buf)@ + le32(items@.len() as u32);
                let mut i: usize = 0;
                while i < items.len()
                    invariant
                        i <= items@.len(),
                        buf@ == pstart + enc_patch_items(
                            vview_pairs(items@.subrange(0, i as int)),
                        ),
                        forall|j: int|
                            0 <= j < i ==> ((#[trigger] vview_pairs(items@)[j]).0 is Hash
                                && patch_embed_writable(vview_pairs(items@)[j].1)),
                    decreases items@.len() - i,
                {
                    let keyh: u32 = match &items[i].key {
                        BinValue::Hash { value, .. } => *value,
                        _ => {
                            return Err(BinError::InvalidValue(BinType::Hash));
                        },
                    };
                    match &items[i].value {
                        BinValue::Embed { name: _, name_str: _, items: fields } => {
                            proof {
                                lemma_vview_fields_index(fields@);
                            }
                            let pk = crate::hash::fnv1a("path");
                            let vk = crate::hash::fnv1a("value");
                            let pi = match find_field(fields, pk) {
                                Some(x) => x,
                                None => {
                                    return Err(BinError::InvalidValue(BinType::Embed));
                                },
                            };
                            let vi = match find_field(fields, vk) {
                                Some(x) => x,
                                None => {
                                    return Err(BinError::InvalidValue(BinType::Embed));
                                },
                            };
                            let mut body: Vec<u8> = Vec::new();
                            let vt = get_value_type(&fields[vi].value);
                            body.push(vt.code());
                            match &fields[pi].value {
                                BinValue::String(ps) => {
                                    match push_string(&mut body, ps.as_str()) {
                                        Ok(_) => (),
                                        Err(e) => {
                                            return Err(e);
                                        },
                                    }
                                },
                                _ => {
                                    return Err(BinError::InvalidValue(BinType::String));
                                },
                            }
                            match write_value_into(&mut body, &fields[vi].value) {
                                Ok(_) => (),
                                Err(e) => {
                                    return Err(e);
                                },
                            }
                            if body.len() as u64 >= 0x100000000u64 {
                                return Err(BinError::InvalidValue(BinType::Embed));
                            }
                            push_u32(buf, keyh);
                            push_u32(buf, body.len() as u32);
                            push_bytes(buf, body.as_slice());
                        },
                        _ => {
                            return Err(BinError::InvalidValue(BinType::Embed));
                        },
                    }
                    proof {
                        let pre = items@.subrange(0, i as int);
                        let cur = items@.subrange(0, i + 1);
                        assert(cur.drop_last() =~= pre);
                        assert(cur.last() == items@[i as int]);
                        assert(vview_pairs(cur).drop_last() =~= vview_pairs(pre));
                        assert(buf@ =~= pstart + enc_patch_items(vview_pairs(cur)));
                    }
                    i = i + 1;
                }
                proof {
                    assert(items@.subrange(0, items@.len() as int) =~= items@);
                }
                Ok(())
            },
            _ => {
                push_u32(buf, 0);
                Ok(())
            },
        },
        None => {
            push_u32(buf, 0);
            Ok(())
        },
    }
}

/// Serialise a document to the binary wire format.
///
/// Succeeds exactly when the document fits the wire: the type section
/// is the string "PROP" or "PTCH", the version section is a 32-bit
/// word, the linked items are strings, the entries map pairs hashes
/// with embeds, and every region fits its size and count words. The
/// produced bytes are exactly `enc_doc` of the document's sections.
#[verifier::rlimit(100)]
pub fn write_bin(bin: &Bin) -> (r: Result<Vec<u8>, BinError>)
    ensures
        match r {
            Ok(bytes) => doc_writable(sections_view(&bin.sections)) && bytes@ == enc_doc(
                sections_view(&bin.sections),
            ),
            Err(_) => !doc_writable(sections_view(&bin.sections)),
        },
{
    let ghost sv = sections_view(&bin.sections);
    let ts = match bin.sections.get("type") {
        Some(v) => match v {
            BinValue::String(s) => s,
            _ => {
                return Err(BinError::InvalidValue(BinType::String));
            },
        },
        None => {
            return Err(BinError::InvalidValue(BinType::Null));
        },
    };
    let is_ptch = str_is(ts.as_str(), "PTCH");
    if !is_ptch {
        if !str_is(ts.as_str(), "PROP") {
            return Err(BinError::InvalidValue(BinType::String));
        }
    }
    let ver = match bin.sections.get("version") {
        Some(v) => match v {
            BinValue::U32(x) => *x,
            _ => {
                return Err(BinError::InvalidValue(BinType::U32));
            },
        },
        None => {
            return Err(BinError::InvalidValue(BinType::U32));
        },
    };
    let mut buf: Vec<u8> = Vec::new();
    if is_ptch {
        buf.push(80);
        buf.push(84);
        buf.push(67);
        buf.push(72);
        push_u32(&mut buf, 1);
        push_u32(&mut buf, 0);
        proof {
            assert(buf@ =~= ptch_prefix());
        }
    }
    buf.push(80);
    buf.push(82);
    buf.push(79);
    buf.push(80);
    push_u32(&mut buf, ver);
    let ghost header = (if is_ptch {
        ptch_prefix()
    } else {
        Seq::<u8>::empty()
    }) + prop_magic() + le32(ver);
    proof {
        assert(buf@ =~= header);
    }
    if ver >= 2 {
        let lo = bin.sections.get("linked");
        proof {
            assert(opt_vview(lo) == doc_get(sv, "linked"@));
        }
        match write_linked_block(&mut buf, lo) {
            Ok(_) => (),
            Err(e) => {
                return Err(e);
            },
        }
    }
    let eo = bin.sections.get("entries");
    proof {
        assert(opt_vview(eo) == doc_get(sv, "entries"@));
    }
    match write_entries_block(&mut buf, eo) {
        Ok(_) => (),
        Err(e) => {
            return Err(e);
        },
    }
    if is_ptch && ver >= 3 {
        let po = bin.sections.get("patches");
        proof {
            assert(opt_vview(po) == doc_get(sv, "patches"@));
        }
        match write_patches_block(&mut buf, po) {
            Ok(_) => (),
            Err(e) => {
                return Err(e);
            },
        }
    }
    proof {
        assert(buf@ =~= enc_doc(sv));
    }
    Ok(buf)
}

/// Read the entries section: the digest pre-table, then each entry's
/// length-delimited body.
#[verifier::loop_isolation(false)]
#[verifier::rlimit(100)]
fn read_entries(rd: &mut BinaryReader) -> (r: Result<Vec<MapEntry>, BinError>)
    requires
        old(rd).pos <= old(rd).data@.len(),
    ensures
        final(rd).data == old(rd).data,
        final(rd).pos <= final(rd).data@.len(),
        match r {
            Ok(items) => forall|j: int|
                0 <= j < vview_pairs(items@).len() ==> (#[trigger] vview_pairs(items@)[j]).0
                    is Hash && vview_pairs(items@)[j].1 is Embed && wf_value(
                    vview_pairs(items@)[j].0,
                ) && wf_value(vview_pairs(items@)[j].1) && vtag(vview_pairs(items@)[j].0)
                    == BinType::Hash && vtag(vview_pairs(items@)[j].1) == BinType::Embed
                    && names_clear(vview_pairs(items@)[j].0) && names_clear(
                    vview_pairs(items@)[j].1,
                ),
            Err(e) => e != BinError::InvalidMagic,
        },
{
    let entry_count = rd.read_u32()?;
    let mut digests: Vec<u32> = Vec::new();
    let mut i: u32 = 0;
    while i < entry_count
        invariant
            rd.data == old(rd).data,
            rd.pos <= rd.data@.len(),
            i <= entry_count,
            digests@.len() == i,
        decreases entry_count - i,
    {
        digests.push(rd.read_u32()?);
        i = i + 1;
    }
    let mut entries_items: Vec<MapEntry> = Vec::new();
    let mut e: usize = 0;
    while e < digests.len()
        invariant
            rd.data == old(rd).data,
            rd.pos <= rd.data@.len(),
            e <= digests@.len(),
            forall|j: int|
                0 <= j < entries_items@.len() ==> (#[trigger] vview_pairs(entries_items@)[j]).0
                    is Hash && vview_pairs(entries_items@)[j].1 is Embed && wf_value(
                    vview_pairs(entries_items@)[j].0,
                ) && wf_value(vview_pairs(entries_items@)[j].1) && vtag(
                    vview_pairs(entries_items@)[j].0,
                ) == BinType::Hash && vtag(vview_pairs(entries_items@)[j].1) == BinType::Embed
                    && names_clear(vview_pairs(entries_items@)[j].0) && names_clear(
                    vview_pairs(entries_items@)[j].1,
                ),
        decreases digests@.len() - e,
    {
        let entry_length = rd.read_u32()?;
        let start = rd.position();
        let entry_key = rd.read_u32()?;
        let field_count = rd.read_u16()?;
        let mut fields: Vec<Field> = Vec::new();
        let mut f: u16 = 0;
        while f < field_count
            invariant
                rd.data == old(rd).data,
                rd.pos <= rd.data@.len(),
                start <= rd.pos,
                f <= field_count,
                forall|j: int|
                    0 <= j < fields@.len() ==> wf_value(
                        (#[trigger] vview_fields(fields@)[j]).value,
                    ) && vview_fields(fields@)[j].key_str is None && names_clear(
                        vview_fields(fields@)[j].value,
                    ),
            decreases field_count - f,
        {
            let key = rd.read_u32()?;
            let ftype = rd.read_type()?;
            let value = rd.read_value(&ftype)?;
            let ghost pre = fields@;
            fields.push(Field { key, key_str: None, value });
            proof {
                lemma_vview_fields_index(pre);
                lemma_vview_fields_index(fields@);
                assert(fields@.drop_last() =~= pre);
            }
            f = f + 1;
        }
        rd.seek_region_end(start, entry_length, BinType::Embed)?;
        let ghost pre = entries_items@;
        proof {
            lemma_vview_fields_index(fields@);
            crate::model::lemma_wf_embed(digests@[e as int], None, vview_fields(fields@));
        }
        entries_items.push(
            MapEntry {
                key: BinValue::Hash { value: entry_key, name: None },
                value: BinValue::Embed { name: digests[e], name_str: None, items: fields },
            },
        );
        proof {
            lemma_vview_pairs_index(pre);
            lemma_vview_pairs_index(entries_items@);
            assert(entries_items@.drop_last() =~= pre);
        }
        e = e + 1;
    }
    proof {
        lemma_vview_pairs_index(entries_items@);
    }
    Ok(entries_items)
}

/// Read the patches section of a patch document: each patch is
/// reified as an embed with a "path" and a "value" field.
#[verifier::loop_isolation(false)]
#[verifier::rlimit(100)]
fn read_patches(rd: &mut BinaryReader) -> (r: Result<Vec<MapEntry>, BinError>)
    requires
        old(rd).pos <= old(rd).data@.len(),
    ensures
        final(rd).data == old(rd).data,
        final(rd).pos <= final(rd).data@.len(),
        match r {
            Ok(items) => forall|j: int|
                0 <= j < vview_pairs(items@).len() ==> (#[trigger] vview_pairs(items@)[j]).0
                    is Hash && vview_pairs(items@)[j].1 is Embed && wf_value(
                    vview_pairs(items@)[j].0,
                ) && wf_value(vview_pairs(items@)[j].1) && vtag(vview_pairs(items@)[j].0)
                    == BinType::Hash && vtag(vview_pairs(items@)[j].1) == BinType::Embed,
            Err(e) => e != BinError::InvalidMagic,
        },
{
    let patch_count = rd.read_u32()?;
    let mut patch_items: Vec<MapEntry> = Vec::new();
    let pk = crate::hash::fnv1a("path");
    let vk = crate::hash::fnv1a("value");
    let ek = crate::hash::fnv1a("patch");
    let mut p: u32 = 0;
    while p < patch_count
        invariant
            rd.data == old(rd).data,
            rd.pos <= rd.data@.len(),
            p <= patch_count,
            forall|j: int|
                0 <= j < patch_items@.len() ==> (#[trigger] vview_pairs(patch_items@)[j]).0
                    is Hash && vview_pairs(patch_items@)[j].1 is Embed && wf_value(
                    vview_pairs(patch_items@)[j].0,
                ) && wf_value(vview_pairs(patch_items@)[j].1) && vtag(
                    vview_pairs(patch_items@)[j].0,
                ) == BinType::Hash && vtag(vview_pairs(patch_items@)[j].1) == BinType::Embed,
        decreases patch_count - p,
    {
        let patch_key = rd.read_u32()?;
        let patch_length = rd.read_u32()?;
        let start = rd.position();
        let vtype = rd.read_type()?;
        let path = rd.read_string()?;
        let value = rd.read_value(&vtype)?;
        rd.seek_region_end(start, patch_length, BinType::Embed)?;
        let mut fields: Vec<Field> = Vec::new();
        fields.push(
            Field {
                key: pk,
                key_str: Some(String::from_str("path")),
                value: BinValue::String(path),
            },
        );
        fields.push(Field { key: vk, key_str: Some(String::from_str("value")), value });
        let ghost pre = patch_items@;
        proof {
            lemma_vview_fields_index(fields@);
            crate::model::lemma_wf_embed(ek, None, vview_fields(fields@));
            assert(vview_fields(fields@)[0].value == vview(fields@[0].value));
            assert(vview_fields(fields@)[1].value == vview(fields@[1].value));
            assert(wf_value(vview_fields(fields@)[0].value));
            assert(wf_value(vview_fields(fields@)[1].value));
        }
        patch_items.push(
            MapEntry {
                key: BinValue::Hash { value: patch_key, name: None },
                value: BinValue::Embed { name: ek, name_str: None, items: fields },
            },
        );
        proof {
            lemma_vview_pairs_index(pre);
            lemma_vview_pairs_index(patch_items@);
            assert(patch_items@.drop_last() =~= pre);
        }
        p = p + 1;
    }
    proof {
        lemma_vview_pairs_index(patch_items@);
    }
    Ok(patch_items)
}

/// Deserialise a binary property document.
///
/// On success the sections appear in file order: "type" (the string
/// "PROP" or "PTCH" as the magic says), "version" (the 32-bit word
/// after the header), "linked" exactly when the version is 2 or more,
/// "entries" (a map of hashes to embeds), and "patches" exactly for a
/// patch document. Every section value is structurally wellformed and
/// every recovered-name slot outside the synthesised "patches"
/// section is empty: the wire format does not carry names. A bad
/// magic is reported exactly on the inputs `bad_magic` describes.
#[verifier::loop_isolation(false)]
#[verifier::rlimit(100)]
pub fn read_bin(data: &[u8]) -> (r: Result<Bin, BinError>)
    ensures
        match r {
            Ok(bin) => {
                let sv = sections_view(&bin.sections);
                let ptch = data@.subrange(0, 4) == ptch_magic();
                let hdr: int = if ptch {
                    16
                } else {
                    4
                };
                let ver = sv[1].1->U32_0;
                &&& data@.len() >= hdr + 4
                &&& (if ptch {
                    data@.subrange(12, 16) == prop_magic()
                } else {
                    data@.subrange(0, 4) == prop_magic()
                })
                &&& sv[0].0 == "type"@
                &&& sv[0].1 == ValV::String(
                    if ptch {
                        "PTCH"@
                    } else {
                        "PROP"@
                    },
                )
                &&& sv[1].0 == "version"@
                &&& sv[1].1 is U32
                &&& data@.subrange(hdr, hdr + 4) == le32(ver)
                &&& sv.len() == 3 + (if ver >= 2 {
                    1int
                } else {
                    0
                }) + (if ptch {
                    1int
                } else {
                    0
                })
                &&& (has_key(sv, "linked"@) <==> ver >= 2)
                &&& (ver >= 2 ==> sv[2].0 == "linked"@ && sv[2].1 matches ValV::List {
                    value_type: BinType::String,
                    ..
                })
                &&& key_index(sv, "entries"@) == (if ver >= 2 {
                    3int
                } else {
                    2
                })
                &&& (doc_get(sv, "entries"@) matches Some(ev) && ev matches ValV::Dict {
                    key_type: BinType::Hash,
                    value_type: BinType::Embed,
                    ..
                })
                &&& (has_key(sv, "patches"@) <==> ptch)
                &&& (ptch ==> sv[sv.len() - 1].0 == "patches"@ && sv[sv.len() - 1].1
                    matches ValV::Dict { key_type: BinType::Hash, value_type: BinType::Embed, .. })
                &&& forall|i: int| 0 <= i < sv.len() ==> wf_value((#[trigger] sv[i]).1)
                &&& forall|i: int|
                    0 <= i < sv.len() && (#[trigger] sv[i]).0 != "patches"@ ==> names_clear(
                        sv[i].1,
                    )
            },
            Err(e) => e == BinError::InvalidMagic <==> bad_magic(data@),
        },
{
    proof {
        reveal_strlit("type");
        reveal_strlit("version");
        reveal_strlit("linked");
        reveal_strlit("entries");
        reveal_strlit("patches");
        reveal_strlit("PROP");
        reveal_strlit("PTCH");
    }
    let mut rd = BinaryReader::new(data);
    let m0 = rd.read_u8()?;
    let m1 = rd.read_u8()?;
    let m2 = rd.read_u8()?;
    let m3 = rd.read_u8()?;
    proof {
        assert(data@.subrange(0, 4) =~= seq![m0, m1, m2, m3]);
        assert(prop_magic() != ptch_magic());
    }
    let is_ptch = m0 == 80 && m1 == 84 && m2 == 67 && m3 == 72;
    if is_ptch {
        proof {
            assert(data@.subrange(0, 4) == ptch_magic());
        }
        let _legacy = rd.read_u64()?;
        let p0 = rd.read_u8()?;
        let p1 = rd.read_u8()?;
        let p2 = rd.read_u8()?;
        let p3 = rd.read_u8()?;
        proof {
            assert(data@.subrange(12, 16) =~= seq![p0, p1, p2, p3]);
        }
        if !(p0 == 80 && p1 == 82 && p2 == 79 && p3 == 80) {
            proof {
                assert(data@.subrange(12, 16) != prop_magic());
            }
            return Err(BinError::InvalidMagic);
        }
        proof {
            assert(data@.subrange(12, 16) == prop_magic());
        }
    } else {
        if !(m0 == 80 && m1 == 82 && m2 == 79 && m3 == 80) {
            proof {
                assert(data@.subrange(0, 4) != prop_magic() && data@.subrange(0, 4)
                    != ptch_magic());
            }
            return Err(BinError::InvalidMagic);
        }
        proof {
            assert(data@.subrange(0, 4) == prop_magic());
        }
    }
    let mut bin = Bin::new();
    let tname = if is_ptch {
        String::from_str("PTCH")
    } else {
        String::from_str("PROP")
    };
    let ghost ts_g = tname@;
    bin.sections.insert(String::from_str("type"), BinValue::String(tname));
    let ghost sv1 = sections_view(&bin.sections);
    proof {
        assert(key_index(Seq::<(Seq<char>, ValV)>::empty(), "type"@) == -1);
        assert(sv1.len() == 1 && sv1[0].0 == "type"@);
        assert("type"@.len() == 4 && "version"@.len() == 7 && "linked"@.len() == 6 && "entries"@
            .len() == 7 && "patches"@.len() == 7);
        assert("version"@[0] == 'v' && "entries"@[0] == 'e' && "patches"@[0] == 'p');
        assert("type"@ != "version"@ && "type"@ != "linked"@ && "type"@ != "entries"@ && "type"@
            != "patches"@);
        assert("version"@ != "linked"@ && "version"@ != "entries"@ && "version"@ != "patches"@);
        assert("linked"@ != "entries"@ && "linked"@ != "patches"@);
        assert("entries"@ != "patches"@);
        lemma_key_index(sv1, "version"@);
    }
    let version = rd.read_u32()?;
    bin.sections.insert(String::from_str("version"), BinValue::U32(version));
    let ghost sv2 = sections_view(&bin.sections);
    proof {
        assert(sv2 == sv1.push(("version"@, ValV::U32(version))));
        lemma_key_index(sv2, "linked"@);
    }
    proof {
        assert(sv2[0] == ("type"@, ValV::String(ts_g)));
        assert(sv2[1] == ("version"@, ValV::U32(version)));
        assert forall|i: int| 0 <= i < sv2.len() implies (#[trigger] sv2[i]).0 != "linked"@ by {
            if i == 0 {
            } else {
                assert(sv2[i].0 == "version"@);
            }
        }
        lemma_key_index(sv2, "linked"@);
    }
    if version >= 2 {
        let linked_count = rd.read_u32()?;
        let mut linked_items: Vec<BinValue> = Vec::new();
        let mut i: u32 = 0;
        while i < linked_count
            invariant
                rd.data@ == data@,
                rd.pos <= rd.data@.len(),
                i <= linked_count,
                forall|j: int|
                    0 <= j < linked_items@.len() ==> (#[trigger] vview_seq(linked_items@)[j])
                        is String && wf_value(vview_seq(linked_items@)[j]) && vtag(
                        vview_seq(linked_items@)[j],
                    ) == BinType::String && names_clear(vview_seq(linked_items@)[j]),
            decreases linked_count - i,
        {
            let st = rd.read_string()?;
            let ghost pre = linked_items@;
            linked_items.push(BinValue::String(st));
            proof {
                lemma_vview_seq_index(pre);
                lemma_vview_seq_index(linked_items@);
                assert(linked_items@.drop_last() =~= pre);
            }
            i = i + 1;
        }
        proof {
            lemma_vview_seq_index(linked_items@);
            crate::model::lemma_wf_list(BinType::String, vview_seq(linked_items@));
            assert(wf_value(
                ValV::List { value_type: BinType::String, items: vview_seq(linked_items@) },
            ));
            assert(names_clear(
                ValV::List { value_type: BinType::String, items: vview_seq(linked_items@) },
            ));
        }
        bin.sections.insert(
            String::from_str("linked"),
            BinValue::List { value_type: BinType::String, items: linked_items },
        );
    }
    let ghost sv3 = sections_view(&bin.sections);
    proof {
        assert(sv3[0] == ("type"@, ValV::String(ts_g)));
        assert(sv3[1] == ("version"@, ValV::U32(version)));
        assert forall|i: int| 0 <= i < sv3.len() implies (#[trigger] sv3[i]).0 != "entries"@ by {
            if i == 0 {
            } else if i == 1 {
            } else {
                assert(sv3[i].0 == "linked"@);
            }
        }
        lemma_key_index(sv3, "entries"@);
        assert(key_index(sv3, "entries"@) == -1);
    }
    let entries_items = read_entries(&mut rd)?;
    let ghost gv = ValV::Dict {
        key_type: BinType::Hash,
        value_type: BinType::Embed,
        items: vview_pairs(entries_items@),
    };
    proof {
        lemma_vview_pairs_index(entries_items@);
        crate::model::lemma_wf_dict(
            BinType::Hash,
            BinType::Embed,
            vview_pairs(entries_items@),
        );
        assert((17u8 & 0x80u8) == 0u8) by (bit_vector);
        assert(spec_is_primitive(BinType::Hash));
        assert(wf_value(gv));
        assert(names_clear(gv));
    }
    bin.sections.insert(
        String::from_str("entries"),
        BinValue::Dict {
            key_type: BinType::Hash,
            value_type: BinType::Embed,
            items: entries_items,
        },
    );
    let ghost sv4 = sections_view(&bin.sections);
    proof {
        assert(sv4 == sv3.push(("entries"@, gv)));
        assert(sv4[sv3.len() as int] == ("entries"@, gv));
        assert forall|i: int| 0 <= i < sv4.len() implies (#[trigger] sv4[i]).0 != "patches"@ by {
            if i < sv3.len() {
                assert(sv4[i] == sv3[i]);
                if i == 0 {
                } else if i == 1 {
                } else {
                    assert(sv3[i].0 == "linked"@);
                }
            }
        }
        lemma_key_index(sv4, "patches"@);
        lemma_key_index_first(sv3, sv4, "entries"@, gv);
    }
    if is_ptch {
        let patch_items = read_patches(&mut rd)?;
        let ghost pv = ValV::Dict {
            key_type: BinType::Hash,
            value_type: BinType::Embed,
            items: vview_pairs(patch_items@),
        };
        proof {
            lemma_vview_pairs_index(patch_items@);
            crate::model::lemma_wf_dict(
                BinType::Hash,
                BinType::Embed,
                vview_pairs(patch_items@),
            );
            assert((17u8 & 0x80u8) == 0u8) by (bit_vector);
            assert(spec_is_primitive(BinType::Hash));
            assert(wf_value(pv));
        }
        bin.sections.insert(
            String::from_str("patches"),
            BinValue::Dict {
                key_type: BinType::Hash,
                value_type: BinType::Embed,
                items: patch_items,
            },
        );
    }
    let ghost svf = sections_view(&bin.sections);
    proof {
        if is_ptch {
            crate::sections::lemma_key_index_push(sv4, svf.last(), "entries"@);
            assert(svf == sv4.push(svf.last()));
            assert(key_index(svf, "entries"@) == key_index(sv4, "entries"@));
            assert(svf[key_index(svf, "entries"@)] == sv4[key_index(sv4, "entries"@)]);
            crate::sections::lemma_key_index_push(sv4, svf.last(), "patches"@);
            assert(key_index(svf, "patches"@) == sv4.len());
        } else {
            lemma_key_index(svf, "patches"@);
            assert(key_index(svf, "patches"@) == -1);
        }
        assert(svf[0] == ("type"@, ValV::String(ts_g)));
        assert(svf[1] == ("version"@, ValV::U32(version)));
        assert(doc_get(svf, "entries"@) == Some(gv));
        assert(key_index(svf, "entries"@) == sv3.len());
        if version >= 2 {
            assert(sv3[2].0 == "linked"@);
            lemma_key_index(svf, "linked"@);
            assert(svf[2] == sv3[2]);
            assert(key_index(svf, "linked"@) != -1);
        } else {
            assert(sv3 == sv2);
            assert forall|i: int| 0 <= i < svf.len() implies (#[trigger] svf[i]).0 != "linked"@
                by {
                if i == 0 {
                } else if i == 1 {
                } else if i == sv3.len() {
                    assert(svf[i].0 == "entries"@);
                } else {
                    assert(is_ptch && i == sv4.len());
                    assert(svf[i].0 == "patches"@);
                }
            }
            lemma_key_index(svf, "linked"@);
        }
        assert forall|i: int| 0 <= i < svf.len() implies wf_value((#[trigger] svf[i]).1) by {
            if i == 0 {
            } else if i == 1 {
            } else if version >= 2 && i == 2 {
            } else if i == sv3.len() {
                assert(svf[i].1 == gv);
            } else {
                assert(is_ptch && i == sv4.len());
            }
        }
        assert forall|i: int|
            0 <= i < svf.len() && (#[trigger] svf[i]).0 != "patches"@ implies names_clear(
            svf[i].1,
        ) by {
            if i == 0 {
            } else if i == 1 {
            } else if version >= 2 && i == 2 {
            } else if i == sv3.len() {
                assert(svf[i].1 == gv);
            } else {
                assert(is_ptch && i == sv4.len());
                assert(svf[i].0 == "patches"@);
            }
        }
    }
    Ok(bin)
}

/// A key absent before a push and matching the pushed entry indexes
/// the pushed position.
pub proof fn lemma_key_index_first(
    s: Seq<(Seq<char>, ValV)>,
    s2: Seq<(Seq<char>, ValV)>,
    k: Seq<char>,
    v: ValV,
)
    requires
        key_index(s, k) == -1,
        s2 == s.push((k, v)),
    ensures
        key_index(s2, k) == s.len(),
        s2[key_index(s2, k)].1 == v,
{
    crate::sections::lemma_key_index_push(s, (k, v), k);
}

} // verus!
