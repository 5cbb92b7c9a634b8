use vstd::prelude::*;

verus! {

/// Type descriptor for the values of a binary property document.
///
/// The wire format identifies every value with a single-byte code:
/// primitive types use codes 0 through 18, while the structured types
/// have the high bit (0x80) set.
#[derive(Clone, Copy, Debug, PartialEq, Eq, Structural)]
pub enum BinType {
    Null,
    Bool,
    I8,
    U8,
    I16,
    U16,
    I32,
    U32,
    I64,
    U64,
    F32,
    Vec2,
    Vec3,
    Vec4,
    Mtx44,
    Rgba,
    String,
    Hash,
    File,
    List,
    List2,
    Pointer,
    Embed,
    Link,
    Option,
    Dict,
    Flag,
}

/// The single-byte wire code of each type tag.
pub open spec fn spec_tag_code(t: BinType) -> u8 {
    match t {
        BinType::Null => 0,
        BinType::Bool => 1,
        BinType::I8 => 2,
        BinType::U8 => 3,
        BinType::I16 => 4,
        BinType::U16 => 5,
        BinType::I32 => 6,
        BinType::U32 => 7,
        BinType::I64 => 8,
        BinType::U64 => 9,
        BinType::F32 => 10,
        BinType::Vec2 => 11,
        BinType::Vec3 => 12,
        BinType::Vec4 => 13,
        BinType::Mtx44 => 14,
        BinType::Rgba => 15,
        BinType::String => 16,
        BinType::Hash => 17,
        BinType::File => 18,
        BinType::List => 0x80,
        BinType::List2 => 0x81,
        BinType::Pointer => 0x82,
        BinType::Embed => 0x83,
        BinType::Link => 0x84,
        BinType::Option => 0x85,
        BinType::Dict => 0x86,
        BinType::Flag => 0x87,
    }
}

/// The type tag encoded by a wire code, if the code is in the closed set.
pub open spec fn spec_tag_from_code(c: u8) -> Option<BinType> {
    match c {
        0u8 => Some(BinType::Null),
        1u8 => Some(BinType::Bool),
        2u8 => Some(BinType::I8),
        3u8 => Some(BinType::U8),
        4u8 => Some(BinType::I16),
        5u8 => Some(BinType::U16),
        6u8 => Some(BinType::I32),
        7u8 => Some(BinType::U32),
        8u8 => Some(BinType::I64),
        9u8 => Some(BinType::U64),
        10u8 => Some(BinType::F32),
        11u8 => Some(BinType::Vec2),
        12u8 => Some(BinType::Vec3),
        13u8 => Some(BinType::Vec4),
        14u8 => Some(BinType::Mtx44),
        15u8 => Some(BinType::Rgba),
        16u8 => Some(BinType::String),
        17u8 => Some(BinType::Hash),
        18u8 => Some(BinType::File),
        0x80u8 => Some(BinType::List),
        0x81u8 => Some(BinType::List2),
        0x82u8 => Some(BinType::Pointer),
        0x83u8 => Some(BinType::Embed),
        0x84u8 => Some(BinType::Link),
        0x85u8 => Some(BinType::Option),
        0x86u8 => Some(BinType::Dict),
        0x87u8 => Some(BinType::Flag),
        _ => None,
    }
}

/// A type is a container when it nests other values behind an element
/// tag: Option, List, List2 and Map. Pointer and Embed are structured
/// but not containers for the nesting rules.
pub open spec fn spec_is_container(t: BinType) -> bool {
    t == BinType::Option || t == BinType::List || t == BinType::List2 || t == BinType::Dict
}

/// A type is primitive when its wire code has the high bit clear.
pub open spec fn spec_is_primitive(t: BinType) -> bool {
    spec_tag_code(t) & 0x80 == 0
}

impl BinType {
    /// The single-byte wire code of this tag.
    pub fn code(&self) -> (c: u8)
        ensures
            c == spec_tag_code(*self),
    {
        match *self {
            BinType::Null => 0,
            BinType::Bool => 1,
            BinType::I8 => 2,
            BinType::U8 => 3,
            BinType::I16 => 4,
            BinType::U16 => 5,
            BinType::I32 => 6,
            BinType::U32 => 7,
            BinType::I64 => 8,
            BinType::U64 => 9,
            BinType::F32 => 10,
            BinType::Vec2 => 11,
            BinType::Vec3 => 12,
            BinType::Vec4 => 13,
            BinType::Mtx44 => 14,
            BinType::Rgba => 15,
            BinType::String => 16,
            BinType::Hash => 17,
            BinType::File => 18,
            BinType::List => 0x80,
            BinType::List2 => 0x81,
            BinType::Pointer => 0x82,
            BinType::Embed => 0x83,
            BinType::Link => 0x84,
            BinType::Option => 0x85,
            BinType::Dict => 0x86,
            BinType::Flag => 0x87,
        }
    }

    /// Decode a wire code into a tag; codes outside the closed set are
    /// rejected.
    pub fn from_code(c: u8) -> (r: Option<BinType>)
        ensures
            r == spec_tag_from_code(c),
    {
        match c {
            0 => Some(BinType::Null),
            1 => Some(BinType::Bool),
            2 => Some(BinType::I8),
            3 => Some(BinType::U8),
            4 => Some(BinType::I16),
            5 => Some(BinType::U16),
            6 => Some(BinType::I32),
            7 => Some(BinType::U32),
            8 => Some(BinType::I64),
            9 => Some(BinType::U64),
            10 => Some(BinType::F32),
            11 => Some(BinType::Vec2),
            12 => Some(BinType::Vec3),
            13 => Some(BinType::Vec4),
            14 => Some(BinType::Mtx44),
            15 => Some(BinType::Rgba),
            16 => Some(BinType::String),
            17 => Some(BinType::Hash),
            18 => Some(BinType::File),
            0x80 => Some(BinType::List),
            0x81 => Some(BinType::List2),
            0x82 => Some(BinType::Pointer),
            0x83 => Some(BinType::Embed),
            0x84 => Some(BinType::Link),
            0x85 => Some(BinType::Option),
            0x86 => Some(BinType::Dict),
            0x87 => Some(BinType::Flag),
            _ => None,
        }
    }

    /// True for the non-structured types, whose wire code has the high
    /// bit clear.
    pub fn is_primitive(&self) -> (r: bool)
        ensures
            r == spec_is_primitive(*self),
    {
        let c = self.code();
        assert(c & 0x80 == 0 <==> c < 0x80) by (bit_vector);
        c < 0x80
    }

    /// True for the container types, which nest values behind an
    /// element tag: Option, List, List2 and Map.
    pub fn is_container(&self) -> (r: bool)
        ensures
            r == spec_is_container(*self),
    {
        match *self {
            BinType::Option | BinType::List | BinType::List2 | BinType::Dict => true,
            _ => false,
        }
    }
}

/// Decoding a wire code is the inverse of producing one: every tag's
/// code decodes to that tag, and every code in the closed set encodes
/// the tag it decodes to.
pub proof fn lemma_tag_code_round_trip(t: BinType, c: u8)
    ensures
        spec_tag_from_code(spec_tag_code(t)) == Some(t),
        spec_tag_from_code(c) matches Some(u) ==> spec_tag_code(u) == c,
{
}

/// A value of a binary property document: one variant per type tag.
///
/// Single-precision components (F32, Vec2, Vec3, Vec4, Mtx44) are held
/// as their little-endian IEEE-754 bit patterns, which is exactly what
/// the wire formats carry; the textual codecs convert between bit
/// patterns and decimal notation.
#[derive(Debug, PartialEq)]
pub enum BinValue {
    Null,
    Bool(bool),
    I8(i8),
    U8(u8),
    I16(i16),
    U16(u16),
    I32(i32),
    U32(u32),
    I64(i64),
    U64(u64),
    /// IEEE-754 single-precision bit pattern.
    F32(u32),
    /// Two single-precision bit patterns [x, y].
    Vec2([u32; 2]),
    /// Three single-precision bit patterns [x, y, z].
    Vec3([u32; 3]),
    /// Four single-precision bit patterns [x, y, z, w].
    Vec4([u32; 4]),
    /// Sixteen single-precision bit patterns, row-major.
    Mtx44([u32; 16]),
    /// Four colour channel bytes [r, g, b, a].
    Rgba([u8; 4]),
    String(String),
    /// 32-bit name digest with an optional recovered name.
    Hash { value: u32, name: Option<String> },
    /// 64-bit path digest with an optional recovered name.
    File { value: u64, name: Option<String> },
    /// Ordered sequence of values of a single element type.
    List { value_type: BinType, items: Vec<BinValue> },
    /// Alternative list encoding with the same layout as List.
    List2 { value_type: BinType, items: Vec<BinValue> },
    /// Reference to a structure; a zero name digest is the null pointer.
    Pointer { name: u32, name_str: Option<String>, items: Vec<Field> },
    /// Inline structure with digest-keyed fields.
    Embed { name: u32, name_str: Option<String>, items: Vec<Field> },
    /// 32-bit digest referring to another entry.
    Link { value: u32, name: Option<String> },
    /// Zero or one value of the element type.
    Option { value_type: BinType, item: Option<Box<BinValue>> },
    /// Ordered key-value pairs; order is observable and preserved.
    Dict { key_type: BinType, value_type: BinType, items: Vec<MapEntry> },
    Flag(bool),
}

/// One key-value pair of a Dict value.
#[derive(Debug, PartialEq)]
pub struct MapEntry {
    pub key: BinValue,
    pub value: BinValue,
}

/// A digest-keyed, typed slot inside a Pointer or Embed structure.
#[derive(Debug, PartialEq)]
pub struct Field {
    /// 32-bit digest of the field name.
    pub key: u32,
    /// Recovered field name, when a dictionary supplied one.
    pub key_str: Option<String>,
    pub value: BinValue,
}

/// The type tag a value carries.
pub open spec fn spec_value_tag(v: BinValue) -> BinType {
    match v {
        BinValue::Null => BinType::Null,
        BinValue::Bool(_) => BinType::Bool,
        BinValue::I8(_) => BinType::I8,
        BinValue::U8(_) => BinType::U8,
        BinValue::I16(_) => BinType::I16,
        BinValue::U16(_) => BinType::U16,
        BinValue::I32(_) => BinType::I32,
        BinValue::U32(_) => BinType::U32,
        BinValue::I64(_) => BinType::I64,
        BinValue::U64(_) => BinType::U64,
        BinValue::F32(_) => BinType::F32,
        BinValue::Vec2(_) => BinType::Vec2,
        BinValue::Vec3(_) => BinType::Vec3,
        BinValue::Vec4(_) => BinType::Vec4,
        BinValue::Mtx44(_) => BinType::Mtx44,
        BinValue::Rgba(_) => BinType::Rgba,
        BinValue::String(_) => BinType::String,
        BinValue::Hash { .. } => BinType::Hash,
        BinValue::File { .. } => BinType::File,
        BinValue::List { .. } => BinType::List,
        BinValue::List2 { .. } => BinType::List2,
        BinValue::Pointer { .. } => BinType::Pointer,
        BinValue::Embed { .. } => BinType::Embed,
        BinValue::Link { .. } => BinType::Link,
        BinValue::Option { .. } => BinType::Option,
        BinValue::Dict { .. } => BinType::Dict,
        BinValue::Flag(_) => BinType::Flag,
    }
}

/// The type tag a value carries.
pub fn get_value_type(v: &BinValue) -> (t: BinType)
    ensures
        t == spec_value_tag(*v),
{
    match v {
        BinValue::Null => BinType::Null,
        BinValue::Bool(_) => BinType::Bool,
        BinValue::I8(_) => BinType::I8,
        BinValue::U8(_) => BinType::U8,
        BinValue::I16(_) => BinType::I16,
        BinValue::U16(_) => BinType::U16,
        BinValue::I32(_) => BinType::I32,
        BinValue::U32(_) => BinType::U32,
        BinValue::I64(_) => BinType::I64,
        BinValue::U64(_) => BinType::U64,
        BinValue::F32(_) => BinType::F32,
        BinValue::Vec2(_) => BinType::Vec2,
        BinValue::Vec3(_) => BinType::Vec3,
        BinValue::Vec4(_) => BinType::Vec4,
        BinValue::Mtx44(_) => BinType::Mtx44,
        BinValue::Rgba(_) => BinType::Rgba,
        BinValue::String(_) => BinType::String,
        BinValue::Hash { .. } => BinType::Hash,
        BinValue::File { .. } => BinType::File,
        BinValue::List { .. } => BinType::List,
        BinValue::List2 { .. } => BinType::List2,
        BinValue::Pointer { .. } => BinType::Pointer,
        BinValue::Embed { .. } => BinType::Embed,
        BinValue::Link { .. } => BinType::Link,
        BinValue::Option { .. } => BinType::Option,
        BinValue::Dict { .. } => BinType::Dict,
        BinValue::Flag(_) => BinType::Flag,
    }
}

/// Copy an optional recovered name.
pub fn clone_name(o: &Option<String>) -> (r: Option<String>)
    ensures
        r == *o,
{
    match o {
        Some(s) => Some(s.clone()),
        None => None,
    }
}

/// The mathematical view of a value tree: the same shape with
/// sequences for vectors and character sequences for strings.
pub enum ValV {
    Null,
    Bool(bool),
    I8(i8),
    U8(u8),
    I16(i16),
    U16(u16),
    I32(i32),
    U32(u32),
    I64(i64),
    U64(u64),
    F32(u32),
    Vec2(Seq<u32>),
    Vec3(Seq<u32>),
    Vec4(Seq<u32>),
    Mtx44(Seq<u32>),
    Rgba(Seq<u8>),
    String(Seq<char>),
    Hash { value: u32, name: Option<Seq<char>> },
    File { value: u64, name: Option<Seq<char>> },
    List { value_type: BinType, items: Seq<ValV> },
    List2 { value_type: BinType, items: Seq<ValV> },
    Pointer { name: u32, name_str: Option<Seq<char>>, items: Seq<FieldV> },
    Embed { name: u32, name_str: Option<Seq<char>>, items: Seq<FieldV> },
    Link { value: u32, name: Option<Seq<char>> },
    Option { value_type: BinType, item: Option<Box<ValV>> },
    Dict { key_type: BinType, value_type: BinType, items: Seq<(ValV, ValV)> },
    Flag(bool),
}

/// The view of a digest-keyed field.
pub struct FieldV {
    pub key: u32,
    pub key_str: Option<Seq<char>>,
    pub value: ValV,
}

/// The view of an optional recovered name.
pub open spec fn name_view(o: Option<String>) -> Option<Seq<char>> {
    match o {
        Some(s) => Some(s@),
        None => None,
    }
}

/// The view of a value tree.
pub open spec fn vview(v: BinValue) -> ValV
    decreases v,
{
    match v {
        BinValue::Null => ValV::Null,
        BinValue::Bool(b) => ValV::Bool(b),
        BinValue::I8(x) => ValV::I8(x),
        BinValue::U8(x) => ValV::U8(x),
        BinValue::I16(x) => ValV::I16(x),
        BinValue::U16(x) => ValV::U16(x),
        BinValue::I32(x) => ValV::I32(x),
        BinValue::U32(x) => ValV::U32(x),
        BinValue::I64(x) => ValV::I64(x),
        BinValue::U64(x) => ValV::U64(x),
        BinValue::F32(x) => ValV::F32(x),
        BinValue::Vec2(a) => ValV::Vec2(a@),
        BinValue::Vec3(a) => ValV::Vec3(a@),
        BinValue::Vec4(a) => ValV::Vec4(a@),
        BinValue::Mtx44(a) => ValV::Mtx44(a@),
        BinValue::Rgba(a) => ValV::Rgba(a@),
        BinValue::String(s) => ValV::String(s@),
        BinValue::Hash { value, name } => ValV::Hash { value, name: name_view(name) },
        BinValue::File { value, name } => ValV::File { value, name: name_view(name) },
        BinValue::Link { value, name } => ValV::Link { value, name: name_view(name) },
        BinValue::Flag(b) => ValV::Flag(b),
        BinValue::List { value_type, items } => ValV::List {
            value_type,
            items: vview_seq(items@),
        },
        BinValue::List2 { value_type, items } => ValV::List2 {
            value_type,
            items: vview_seq(items@),
        },
        BinValue::Option { value_type, item } => ValV::Option {
            value_type,
            item: match item {
                Some(b) => Some(Box::new(vview(*b))),
                None => None,
            },
        },
        BinValue::Dict { key_type, value_type, items } => ValV::Dict {
            key_type,
            value_type,
            items: vview_pairs(items@),
        },
        BinValue::Pointer { name, name_str, items } => ValV::Pointer {
            name,
            name_str: name_view(name_str),
            items: vview_fields(items@),
        },
        BinValue::Embed { name, name_str, items } => ValV::Embed {
            name,
            name_str: name_view(name_str),
            items: vview_fields(items@),
        },
    }
}

/// The view of a field.
pub open spec fn fview(f: Field) -> FieldV
    decreases f,
{
    FieldV { key: f.key, key_str: name_view(f.key_str), value: vview(f.value) }
}

/// The views of a sequence of values.
pub open spec fn vview_seq(s: Seq<BinValue>) -> Seq<ValV>
    decreases s,
{
    if s.len() == 0 {
        Seq::empty()
    } else {
        vview_seq(s.drop_last()).push(vview(s.last()))
    }
}

/// The views of a sequence of map entries.
pub open spec fn vview_pairs(s: Seq<MapEntry>) -> Seq<(ValV, ValV)>
    decreases s,
{
    if s.len() == 0 {
        Seq::empty()
    } else {
        vview_pairs(s.drop_last()).push((vview(s.last().key), vview(s.last().value)))
    }
}

/// The views of a sequence of fields.
pub open spec fn vview_fields(s: Seq<Field>) -> Seq<FieldV>
    decreases s,
{
    if s.len() == 0 {
        Seq::empty()
    } else {
        vview_fields(s.drop_last()).push(fview(s.last()))
    }
}

/// The view of a sequence is the sequence of views, element by
/// element.
pub proof fn lemma_vview_seq_index(s: Seq<BinValue>)
    ensures
        vview_seq(s).len() == s.len(),
        forall|i: int| 0 <= i < s.len() ==> vview_seq(s)[i] == vview(#[trigger] s[i]),
    decreases s.len(),
{
    if s.len() > 0 {
        lemma_vview_seq_index(s.drop_last());
        assert forall|i: int| 0 <= i < s.len() implies vview_seq(s)[i] == vview(s[i]) by {
            if i < s.len() - 1 {
                assert(s.drop_last()[i] == s[i]);
            } else {
                assert(s[i] == s.last());
            }
        }
    }
}

pub proof fn lemma_vview_pairs_index(s: Seq<MapEntry>)
    ensures
        vview_pairs(s).len() == s.len(),
        forall|i: int|
            0 <= i < s.len() ==> vview_pairs(s)[i] == (
                vview(#[trigger] s[i].key),
                vview(s[i].value),
            ),
    decreases s.len(),
{
    if s.len() > 0 {
        lemma_vview_pairs_index(s.drop_last());
        assert forall|i: int|
            0 <= i < s.len() implies vview_pairs(s)[i] == (
            vview(s[i].key),
            vview(s[i].value),
        ) by {
            if i < s.len() - 1 {
                assert(s.drop_last()[i] == s[i]);
            } else {
                assert(s[i] == s.last());
            }
        }
    }
}

pub proof fn lemma_vview_fields_index(s: Seq<Field>)
    ensures
        vview_fields(s).len() == s.len(),
        forall|i: int| 0 <= i < s.len() ==> vview_fields(s)[i] == fview(#[trigger] s[i]),
    decreases s.len(),
{
    if s.len() > 0 {
        lemma_vview_fields_index(s.drop_last());
        assert forall|i: int| 0 <= i < s.len() implies vview_fields(s)[i] == fview(s[i]) by {
            if i < s.len() - 1 {
                assert(s.drop_last()[i] == s[i]);
            } else {
                assert(s[i] == s.last());
            }
        }
    }
}

/// Structural wellformedness of a value tree:
/// - the element tag of List, List2 and Option and the value tag of
///   Dict are never container tags, and the key tag of Dict is
///   primitive;
/// - every element carries exactly the tag its container declares;
/// - a Pointer whose name digest is zero has no fields.
pub open spec fn wf_value(v: ValV) -> bool
    decreases v,
{
    match v {
        ValV::List { value_type, items } => {
            &&& !spec_is_container(value_type)
            &&& forall|i: int|
                0 <= i < items.len() ==> wf_value(#[trigger] items[i]) && vtag(items[i])
                    == value_type
        },
        ValV::List2 { value_type, items } => {
            &&& !spec_is_container(value_type)
            &&& forall|i: int|
                0 <= i < items.len() ==> wf_value(#[trigger] items[i]) && vtag(items[i])
                    == value_type
        },
        ValV::Option { value_type, item } => {
            &&& !spec_is_container(value_type)
            &&& item matches Some(b) ==> wf_value(*b) && vtag(*b) == value_type
        },
        ValV::Dict { key_type, value_type, items } => {
            &&& spec_is_primitive(key_type)
            &&& !spec_is_container(value_type)
            &&& forall|i: int|
                0 <= i < items.len() ==> wf_value((#[trigger] items[i]).0) && wf_value(items[i].1)
                    && vtag(items[i].0) == key_type && vtag(items[i].1) == value_type
        },
        ValV::Pointer { name, name_str: _, items } => {
            &&& name == 0 ==> items.len() == 0
            &&& forall|i: int|
                0 <= i < items.len() ==> wf_value((#[trigger] items[i]).value)
        },
        ValV::Embed { name: _, name_str: _, items } => {
            forall|i: int| 0 <= i < items.len() ==> wf_value((#[trigger] items[i]).value)
        },
        _ => true,
    }
}

/// True when every recovered-name slot in the tree is empty, as after a
/// read of the binary format, which does not carry names.
pub open spec fn names_clear(v: ValV) -> bool
    decreases v,
{
    match v {
        ValV::Hash { value: _, name } => name is None,
        ValV::File { value: _, name } => name is None,
        ValV::Link { value: _, name } => name is None,
        ValV::List { value_type: _, items } => {
            &&& items.len() >= 0
            &&& forall|i: int| 0 <= i < items.len() ==> names_clear(#[trigger] items[i])
        },
        ValV::List2 { value_type: _, items } => {
            &&& items.len() >= 0
            &&& forall|i: int| 0 <= i < items.len() ==> names_clear(#[trigger] items[i])
        },
        ValV::Option { value_type: _, item } => item matches Some(b) ==> names_clear(*b),
        ValV::Dict { key_type: _, value_type: _, items } => {
            &&& items.len() >= 0
            &&& forall|i: int|
                0 <= i < items.len() ==> names_clear((#[trigger] items[i]).0) && names_clear(
                    items[i].1,
                )
        },
        ValV::Pointer { name: _, name_str, items } => {
            &&& name_str is None
            &&& forall|i: int|
                0 <= i < items.len() ==> (#[trigger] items[i]).key_str is None && names_clear(
                    items[i].value,
                )
        },
        ValV::Embed { name: _, name_str, items } => {
            &&& name_str is None
            &&& forall|i: int|
                0 <= i < items.len() ==> (#[trigger] items[i]).key_str is None && names_clear(
                    items[i].value,
                )
        },
        _ => true,
    }
}

/// The type tag a view carries.
pub open spec fn vtag(v: ValV) -> BinType {
    match v {
        ValV::Null => BinType::Null,
        ValV::Bool(_) => BinType::Bool,
        ValV::I8(_) => BinType::I8,
        ValV::U8(_) => BinType::U8,
        ValV::I16(_) => BinType::I16,
        ValV::U16(_) => BinType::U16,
        ValV::I32(_) => BinType::I32,
        ValV::U32(_) => BinType::U32,
        ValV::I64(_) => BinType::I64,
        ValV::U64(_) => BinType::U64,
        ValV::F32(_) => BinType::F32,
        ValV::Vec2(_) => BinType::Vec2,
        ValV::Vec3(_) => BinType::Vec3,
        ValV::Vec4(_) => BinType::Vec4,
        ValV::Mtx44(_) => BinType::Mtx44,
        ValV::Rgba(_) => BinType::Rgba,
        ValV::String(_) => BinType::String,
        ValV::Hash { .. } => BinType::Hash,
        ValV::File { .. } => BinType::File,
        ValV::List { .. } => BinType::List,
        ValV::List2 { .. } => BinType::List2,
        ValV::Pointer { .. } => BinType::Pointer,
        ValV::Embed { .. } => BinType::Embed,
        ValV::Link { .. } => BinType::Link,
        ValV::Option { .. } => BinType::Option,
        ValV::Dict { .. } => BinType::Dict,
        ValV::Flag(_) => BinType::Flag,
    }
}

/// The view carries the same tag as the value.
pub proof fn lemma_vtag_vview(v: BinValue)
    ensures
        vtag(vview(v)) == spec_value_tag(v),
{
}


/// Unfolding of the wellformedness and clear-name predicates at each
/// composite constructor, stated once so that proofs about freshly
/// built values need no manual quantifier work.
pub proof fn lemma_wf_list(value_type: BinType, items: Seq<ValV>)
    ensures
        wf_value(ValV::List { value_type, items }) == (!spec_is_container(value_type) && (forall|
            i: int,
        |
            0 <= i < items.len() ==> wf_value(#[trigger] items[i]) && vtag(items[i])
                == value_type)),
        names_clear(ValV::List { value_type, items }) == (forall|i: int|
            0 <= i < items.len() ==> names_clear(#[trigger] items[i])),
{

}

pub proof fn lemma_wf_list2(value_type: BinType, items: Seq<ValV>)
    ensures
        wf_value(ValV::List2 { value_type, items }) == (!spec_is_container(value_type) && (forall|
            i: int,
        |
            0 <= i < items.len() ==> wf_value(#[trigger] items[i]) && vtag(items[i])
                == value_type)),
        names_clear(ValV::List2 { value_type, items }) == (forall|i: int|
            0 <= i < items.len() ==> names_clear(#[trigger] items[i])),
{
}

pub proof fn lemma_wf_dict(key_type: BinType, value_type: BinType, items: Seq<(ValV, ValV)>)
    ensures
        wf_value(ValV::Dict { key_type, value_type, items }) == (spec_is_primitive(key_type)
            && !spec_is_container(value_type) && (forall|i: int|
            0 <= i < items.len() ==> wf_value((#[trigger] items[i]).0) && wf_value(items[i].1)
                && vtag(items[i].0) == key_type && vtag(items[i].1) == value_type)),
        names_clear(ValV::Dict { key_type, value_type, items }) == (forall|i: int|
            0 <= i < items.len() ==> names_clear((#[trigger] items[i]).0) && names_clear(
                items[i].1,
            )),
{
}

pub proof fn lemma_wf_pointer(name: u32, name_str: Option<Seq<char>>, items: Seq<FieldV>)
    ensures
        wf_value(ValV::Pointer { name, name_str, items }) == ((name == 0 ==> items.len() == 0) && (
        forall|i: int| 0 <= i < items.len() ==> wf_value((#[trigger] items[i]).value))),
        names_clear(ValV::Pointer { name, name_str, items }) == (name_str is None && (forall|
            i: int,
        |
            0 <= i < items.len() ==> (#[trigger] items[i]).key_str is None && names_clear(
                items[i].value,
            ))),
{
}

pub proof fn lemma_wf_embed(name: u32, name_str: Option<Seq<char>>, items: Seq<FieldV>)
    ensures
        wf_value(ValV::Embed { name, name_str, items }) == (forall|i: int|
            0 <= i < items.len() ==> wf_value((#[trigger] items[i]).value)),
        names_clear(ValV::Embed { name, name_str, items }) == (name_str is None && (forall|i: int|
            0 <= i < items.len() ==> (#[trigger] items[i]).key_str is None && names_clear(
                items[i].value,
            ))),
{
}

pub proof fn lemma_wf_option(value_type: BinType, item: Option<Box<ValV>>)
    ensures
        wf_value(ValV::Option { value_type, item }) == (!spec_is_container(value_type) && (
        item matches Some(b) ==> wf_value(*b) && vtag(*b) == value_type)),
        names_clear(ValV::Option { value_type, item }) == (item matches Some(b) ==> names_clear(
            *b,
        )),
{
}

} // verus!
