use vstd::prelude::*;
use crate::model::{BinValue, Field, MapEntry, ValV, FieldV, vview, vview_seq, vview_pairs,
    vview_fields, lemma_vview_seq_index, lemma_vview_pairs_index, lemma_vview_fields_index};
use crate::sections::{Bin, sections_view, lemma_key_index_unique};
use crate::hash_binary::{BinaryHashReader, BinaryHashWriter, DictError, enc_dict, dec_dict,
    fnv_view, xxh_view};

verus! {

/// The name recorded for a 32-bit digest: the first table entry with
/// that digest, if any.
pub open spec fn lk32(t: Seq<(u32, String)>, k: u32) -> Option<Seq<char>>
    decreases t.len(),
{
    if t.len() == 0 {
        None
    } else if t[0].0 == k {
        Some(t[0].1@)
    } else {
        lk32(t.drop_first(), k)
    }
}

/// The name recorded for a 64-bit digest.
pub open spec fn lk64(t: Seq<(u64, String)>, k: u64) -> Option<Seq<char>>
    decreases t.len(),
{
    if t.len() == 0 {
        None
    } else if t[0].0 == k {
        Some(t[0].1@)
    } else {
        lk64(t.drop_first(), k)
    }
}

/// An empty name slot is filled from the table; a present name is
/// never rewritten.
pub open spec fn resolve32(t: Seq<(u32, String)>, k: u32, name: Option<Seq<char>>) -> Option<
    Seq<char>,
> {
    match name {
        Some(n) => Some(n),
        None => lk32(t, k),
    }
}

pub open spec fn resolve64(t: Seq<(u64, String)>, k: u64, name: Option<Seq<char>>) -> Option<
    Seq<char>,
> {
    match name {
        Some(n) => Some(n),
        None => lk64(t, k),
    }
}

/// The value tree with every empty Hash/Link/Pointer/Embed/Field name
/// slot filled from the 32-bit table and every empty File name slot
/// from the 64-bit table. Digest values are never touched, present
/// names never rewritten, and everything else is left as it is.
pub open spec fn unh_val(f: Seq<(u32, String)>, x: Seq<(u64, String)>, v: ValV) -> ValV
    decreases v,
{
    match v {
        ValV::Hash { value, name } => ValV::Hash { value, name: resolve32(f, value, name) },
        ValV::File { value, name } => ValV::File { value, name: resolve64(x, value, name) },
        ValV::Link { value, name } => ValV::Link { value, name: resolve32(f, value, name) },
        ValV::List { value_type, items } => ValV::List { value_type, items: unh_seq(f, x, items) },
        ValV::List2 { value_type, items } => ValV::List2 {
            value_type,
            items: unh_seq(f, x, items),
        },
        ValV::Option { value_type, item } => ValV::Option {
            value_type,
            item: match item {
                Some(b) => Some(Box::new(unh_val(f, x, *b))),
                None => None,
            },
        },
        ValV::Dict { key_type, value_type, items } => ValV::Dict {
            key_type,
            value_type,
            items: unh_pairs(f, x, items),
        },
        ValV::Pointer { name, name_str, items } => ValV::Pointer {
            name,
            name_str: resolve32(f, name, name_str),
            items: unh_fields(f, x, items),
        },
        ValV::Embed { name, name_str, items } => ValV::Embed {
            name,
            name_str: resolve32(f, name, name_str),
            items: unh_fields(f, x, items),
        },
        _ => v,
    }
}

pub open spec fn unh_seq(f: Seq<(u32, String)>, x: Seq<(u64, String)>, s: Seq<ValV>) -> Seq<ValV>
    decreases s,
{
    if s.len() == 0 {
        Seq::empty()
    } else {
        unh_seq(f, x, s.drop_last()).push(unh_val(f, x, s.last()))
    }
}

pub open spec fn unh_pairs(f: Seq<(u32, String)>, x: Seq<(u64, String)>, s: Seq<(ValV, ValV)>)
    -> Seq<(ValV, ValV)>
    decreases s,
{
    if s.len() == 0 {
        Seq::empty()
    } else {
        unh_pairs(f, x, s.drop_last()).push(
            (unh_val(f, x, s.last().0), unh_val(f, x, s.last().1)),
        )
    }
}

/// Field keys are unhashed through the 32-bit table like structure
/// names.
pub open spec fn unh_field(f: Seq<(u32, String)>, x: Seq<(u64, String)>, fd: FieldV) -> FieldV
    decreases fd,
{
    FieldV {
        key: fd.key,
        key_str: resolve32(f, fd.key, fd.key_str),
        value: unh_val(f, x, fd.value),
    }
}

pub open spec fn unh_fields(f: Seq<(u32, String)>, x: Seq<(u64, String)>, s: Seq<FieldV>) -> Seq<
    FieldV,
>
    decreases s,
{
    if s.len() == 0 {
        Seq::empty()
    } else {
        unh_fields(f, x, s.drop_last()).push(unh_field(f, x, s.last()))
    }
}

pub proof fn lemma_unh_seq_index(f: Seq<(u32, String)>, x: Seq<(u64, String)>, s: Seq<ValV>)
    ensures
        unh_seq(f, x, s).len() == s.len(),
        forall|i: int| 0 <= i < s.len() ==> unh_seq(f, x, s)[i] == unh_val(f, x, #[trigger] s[i]),
    decreases s.len(),
{
    if s.len() > 0 {
        lemma_unh_seq_index(f, x, s.drop_last());
        assert forall|i: int|
            0 <= i < s.len() implies unh_seq(f, x, s)[i] == unh_val(f, x, s[i]) by {
            if i < s.len() - 1 {
                assert(s.drop_last()[i] == s[i]);
            } else {
                assert(s[i] == s.last());
            }
        }
    }
}

pub proof fn lemma_unh_pairs_index(
    f: Seq<(u32, String)>,
    x: Seq<(u64, String)>,
    s: Seq<(ValV, ValV)>,
)
    ensures
        unh_pairs(f, x, s).len() == s.len(),
        forall|i: int|
            0 <= i < s.len() ==> unh_pairs(f, x, s)[i] == (
                unh_val(f, x, (#[trigger] s[i]).0),
                unh_val(f, x, s[i].1),
            ),
    decreases s.len(),
{
    if s.len() > 0 {
        lemma_unh_pairs_index(f, x, s.drop_last());
        assert forall|i: int|
            0 <= i < s.len() implies unh_pairs(f, x, s)[i] == (
            unh_val(f, x, s[i].0),
            unh_val(f, x, s[i].1),
        ) by {
            if i < s.len() - 1 {
                assert(s.drop_last()[i] == s[i]);
            } else {
                assert(s[i] == s.last());
            }
        }
    }
}

pub proof fn lemma_unh_fields_index(
    f: Seq<(u32, String)>,
    x: Seq<(u64, String)>,
    s: Seq<FieldV>,
)
    ensures
        unh_fields(f, x, s).len() == s.len(),
        forall|i: int|
            0 <= i < s.len() ==> unh_fields(f, x, s)[i] == unh_field(f, x, #[trigger] s[i]),
    decreases s.len(),
{
    if s.len() > 0 {
        lemma_unh_fields_index(f, x, s.drop_last());
        assert forall|i: int|
            0 <= i < s.len() implies unh_fields(f, x, s)[i] == unh_field(f, x, s[i]) by {
            if i < s.len() - 1 {
                assert(s.drop_last()[i] == s[i]);
            } else {
                assert(s[i] == s.last());
            }
        }
    }
}

/// A document with every section value unhashed.
pub open spec fn unhash_doc(
    f: Seq<(u32, String)>,
    x: Seq<(u64, String)>,
    sv: Seq<(Seq<char>, ValV)>,
) -> Seq<(Seq<char>, ValV)> {
    Seq::new(sv.len(), |i: int| (sv[i].0, unh_val(f, x, sv[i].1)))
}

/// Filling name slots is idempotent: a second pass finds every slot
/// already resolved to the same name or still unmatched, and changes
/// nothing.
pub proof fn lemma_unhash_idempotent(f: Seq<(u32, String)>, x: Seq<(u64, String)>, v: ValV)
    ensures
        unh_val(f, x, unh_val(f, x, v)) == unh_val(f, x, v),
    decreases v,
{
    match v {
        ValV::List { value_type, items } => {
            lemma_unh_idem_seq(f, x, items);
        },
        ValV::List2 { value_type, items } => {
            lemma_unh_idem_seq(f, x, items);
        },
        ValV::Option { value_type, item } => {
            match item {
                Some(b) => {
                    lemma_unhash_idempotent(f, x, *b);
                },
                None => {},
            }
        },
        ValV::Dict { key_type, value_type, items } => {
            lemma_unh_idem_pairs(f, x, items);
        },
        ValV::Pointer { name, name_str, items } => {
            lemma_unh_idem_fields(f, x, items);
        },
        ValV::Embed { name, name_str, items } => {
            lemma_unh_idem_fields(f, x, items);
        },
        _ => {},
    }
}

proof fn lemma_unh_idem_seq(f: Seq<(u32, String)>, x: Seq<(u64, String)>, s: Seq<ValV>)
    ensures
        unh_seq(f, x, unh_seq(f, x, s)) == unh_seq(f, x, s),
    decreases s,
{
    if s.len() > 0 {
        lemma_unh_idem_seq(f, x, s.drop_last());
        lemma_unhash_idempotent(f, x, s.last());
        assert(unh_seq(f, x, s).drop_last() =~= unh_seq(f, x, s.drop_last()));
        assert(unh_seq(f, x, unh_seq(f, x, s)) =~= unh_seq(f, x, s));
    }
}

proof fn lemma_unh_idem_pairs(f: Seq<(u32, String)>, x: Seq<(u64, String)>, s: Seq<(ValV, ValV)>)
    ensures
        unh_pairs(f, x, unh_pairs(f, x, s)) == unh_pairs(f, x, s),
    decreases s,
{
    if s.len() > 0 {
        lemma_unh_idem_pairs(f, x, s.drop_last());
        lemma_unhash_idempotent(f, x, s.last().0);
        lemma_unhash_idempotent(f, x, s.last().1);
        assert(unh_pairs(f, x, s).drop_last() =~= unh_pairs(f, x, s.drop_last()));
        assert(unh_pairs(f, x, unh_pairs(f, x, s)) =~= unh_pairs(f, x, s));
    }
}

proof fn lemma_unh_idem_fields(f: Seq<(u32, String)>, x: Seq<(u64, String)>, s: Seq<FieldV>)
    ensures
        unh_fields(f, x, unh_fields(f, x, s)) == unh_fields(f, x, s),
    decreases s,
{
    if s.len() > 0 {
        lemma_unh_idem_fields(f, x, s.drop_last());
        lemma_unhash_idempotent(f, x, s.last().value);
        assert(unh_fields(f, x, s).drop_last() =~= unh_fields(f, x, s.drop_last()));
        assert(unh_fields(f, x, s).last() == unh_field(f, x, s.last()));
        assert(unh_field(f, x, unh_field(f, x, s.last())) == unh_field(f, x, s.last()));
        assert(unh_fields(f, x, unh_fields(f, x, s)) =~= unh_fields(f, x, s));
    }
}

/// Digest dictionaries and the tree walk that fills recovered names
/// from them.
pub struct BinUnhasher {
    /// 32-bit digest names, looked up for Hash, Link, structure names
    /// and field keys.
    pub fnv1a: Vec<(u32, String)>,
    /// 64-bit digest names, looked up for File values.
    pub xxh64: Vec<(u64, String)>,
}

fn lookup32(t: &Vec<(u32, String)>, k: u32) -> (r: Option<String>)
    ensures
        match r {
            Some(s) => lk32(t@, k) == Some(s@),
            None => lk32(t@, k) is None,
        },
{
    proof {
        assert(t@.skip(0) =~= t@);
    }
    let mut i: usize = 0;
    while i < t.len()
        invariant
            i <= t@.len(),
            lk32(t@, k) == lk32(t@.skip(i as int), k),
        decreases t@.len() - i,
    {
        proof {
            assert(t@.skip(i as int)[0] == t@[i as int]);
            assert(t@.skip(i as int).drop_first() =~= t@.skip(i + 1));
        }
        if t[i].0 == k {
            return Some(t[i].1.clone());
        }
        i = i + 1;
    }
    proof {
        assert(t@.skip(t@.len() as int) =~= Seq::<(u32, String)>::empty());
    }
    None
}

fn lookup64(t: &Vec<(u64, String)>, k: u64) -> (r: Option<String>)
    ensures
        match r {
            Some(s) => lk64(t@, k) == Some(s@),
            None => lk64(t@, k) is None,
        },
{
    proof {
        assert(t@.skip(0) =~= t@);
    }
    let mut i: usize = 0;
    while i < t.len()
        invariant
            i <= t@.len(),
            lk64(t@, k) == lk64(t@.skip(i as int), k),
        decreases t@.len() - i,
    {
        proof {
            assert(t@.skip(i as int)[0] == t@[i as int]);
            assert(t@.skip(i as int).drop_first() =~= t@.skip(i + 1));
        }
        if t[i].0 == k {
            return Some(t[i].1.clone());
        }
        i = i + 1;
    }
    proof {
        assert(t@.skip(t@.len() as int) =~= Seq::<(u64, String)>::empty());
    }
    None
}

impl BinUnhasher {
    /// An unhasher with two empty dictionaries.
    pub fn new() -> (r: BinUnhasher)
        ensures
            r.fnv1a@ == Seq::<(u32, String)>::empty(),
            r.xxh64@ == Seq::<(u64, String)>::empty(),
    {
        BinUnhasher { fnv1a: Vec::new(), xxh64: Vec::new() }
    }

    fn resolve32_exec(&self, k: u32, name: Option<String>) -> (r: Option<String>)
        ensures
            crate::model::name_view(r) == resolve32(self.fnv1a@, k, crate::model::name_view(
                name,
            )),
    {
        match name {
            Some(n) => Some(n),
            None => lookup32(&self.fnv1a, k),
        }
    }

    fn resolve64_exec(&self, k: u64, name: Option<String>) -> (r: Option<String>)
        ensures
            crate::model::name_view(r) == resolve64(self.xxh64@, k, crate::model::name_view(
                name,
            )),
    {
        match name {
            Some(n) => Some(n),
            None => lookup64(&self.xxh64, k),
        }
    }

    /// Rebuild a value with every empty name slot filled from the
    /// dictionaries; digests and present names are never touched.
    #[verifier::loop_isolation(false)]
    #[verifier::rlimit(100)]
    pub fn unhash_value(&self, v: &BinValue) -> (r: BinValue)
        ensures
            vview(r) == unh_val(self.fnv1a@, self.xxh64@, vview(*v)),
        decreases *v,
    {
        let ghost f = self.fnv1a@;
        let ghost x = self.xxh64@;
        match v {
            BinValue::Hash { value, name } => BinValue::Hash {
                value: *value,
                name: self.resolve32_exec(*value, crate::model::clone_name(name)),
            },
            BinValue::File { value, name } => BinValue::File {
                value: *value,
                name: self.resolve64_exec(*value, crate::model::clone_name(name)),
            },
            BinValue::Link { value, name } => BinValue::Link {
                value: *value,
                name: self.resolve32_exec(*value, crate::model::clone_name(name)),
            },
            BinValue::List { value_type, items } => {
                let mut out: Vec<BinValue> = Vec::new();
                let mut i: usize = 0;
                while i < items.len()
                    invariant
                        i <= items@.len(),
                        vview_seq(out@) == unh_seq(f, x, vview_seq(items@).subrange(0, i as int)),
                    decreases items@.len() - i,
                {
                    proof {
                        assert(decreases_to!(*v => (*v)->List_items));
                        assert((*v)->List_items == *items);
                        assert(decreases_to!(*items => items@[i as int]));
                        lemma_vview_seq_index(items@);
                    }
                    let nv = self.unhash_value(&items[i]);
                    let ghost pre = out@;
                    out.push(nv);
                    proof {
                        lemma_vview_seq_index(pre);
                        lemma_vview_seq_index(out@);
                        assert(out@.drop_last() =~= pre);
                        let base = vview_seq(items@);
                        let cur = base.subrange(0, i + 1);
                        assert(cur.drop_last() =~= base.subrange(0, i as int));
                        assert(cur.last() == base[i as int]);
                        assert(vview_seq(out@) =~= unh_seq(f, x, cur));
                    }
                    i = i + 1;
                }
                proof {
                    lemma_vview_seq_index(items@);
                    assert(vview_seq(items@).subrange(0, items@.len() as int) =~= vview_seq(
                        items@,
                    ));
                }
                BinValue::List { value_type: *value_type, items: out }
            },
            BinValue::List2 { value_type, items } => {
                let mut out: Vec<BinValue> = Vec::new();
                let mut i: usize = 0;
                while i < items.len()
                    invariant
                        i <= items@.len(),
                        vview_seq(out@) == unh_seq(f, x, vview_seq(items@).subrange(0, i as int)),
                    decreases items@.len() - i,
                {
                    proof {
                        assert(decreases_to!(*v => (*v)->List2_items));
                        assert((*v)->List2_items == *items);
                        assert(decreases_to!(*items => items@[i as int]));
                        lemma_vview_seq_index(items@);
                    }
                    let nv = self.unhash_value(&items[i]);
                    let ghost pre = out@;
                    out.push(nv);
                    proof {
                        lemma_vview_seq_index(pre);
                        lemma_vview_seq_index(out@);
                        assert(out@.drop_last() =~= pre);
                        let base = vview_seq(items@);
                        let cur = base.subrange(0, i + 1);
                        assert(cur.drop_last() =~= base.subrange(0, i as int));
                        assert(cur.last() == base[i as int]);
                        assert(vview_seq(out@) =~= unh_seq(f, x, cur));
                    }
                    i = i + 1;
                }
                proof {
                    lemma_vview_seq_index(items@);
                    assert(vview_seq(items@).subrange(0, items@.len() as int) =~= vview_seq(
                        items@,
                    ));
                }
                BinValue::List2 { value_type: *value_type, items: out }
            },
            BinValue::Option { value_type, item } => {
                let inner = match item {
                    Some(b) => {
                        proof {
                            assert(decreases_to!(*v => (*v)->Option_item));
                        }
                        Some(Box::new(self.unhash_value(&**b)))
                    },
                    None => None,
                };
                BinValue::Option { value_type: *value_type, item: inner }
            },
            BinValue::Dict { key_type, value_type, items } => {
                let mut out: Vec<MapEntry> = Vec::new();
                let mut i: usize = 0;
                while i < items.len()
                    invariant
                        i <= items@.len(),
                        vview_pairs(out@) == unh_pairs(
                            f,
                            x,
                            vview_pairs(items@).subrange(0, i as int),
                        ),
                    decreases items@.len() - i,
                {
                    proof {
                        assert(decreases_to!(*v => (*v)->Dict_items));
                        assert((*v)->Dict_items == *items);
                        assert(decreases_to!(*items => items@[i as int]));
                        assert(decreases_to!(items@[i as int] => items@[i as int].key));
                        assert(decreases_to!(items@[i as int] => items@[i as int].value));
                        lemma_vview_pairs_index(items@);
                    }
                    let nk = self.unhash_value(&items[i].key);
                    let nv = self.unhash_value(&items[i].value);
                    let ghost pre = out@;
                    out.push(MapEntry { key: nk, value: nv });
                    proof {
                        lemma_vview_pairs_index(pre);
                        lemma_vview_pairs_index(out@);
                        assert(out@.drop_last() =~= pre);
                        let base = vview_pairs(items@);
                        let cur = base.subrange(0, i + 1);
                        assert(cur.drop_last() =~= base.subrange(0, i as int));
                        assert(cur.last() == base[i as int]);
                        assert(vview_pairs(out@) =~= unh_pairs(f, x, cur));
                    }
                    i = i + 1;
                }
                proof {
                    lemma_vview_pairs_index(items@);
                    assert(vview_pairs(items@).subrange(0, items@.len() as int) =~= vview_pairs(
                        items@,
                    ));
                }
                BinValue::Dict {
                    key_type: *key_type,
                    value_type: *value_type,
                    items: out,
                }
            },
            BinValue::Pointer { name, name_str, items } => {
                let out = self.unhash_field_vec(items, Ghost((*v)->Pointer_items));
                BinValue::Pointer {
                    name: *name,
                    name_str: self.resolve32_exec(*name, crate::model::clone_name(name_str)),
                    items: out,
                }
            },
            BinValue::Embed { name, name_str, items } => {
                let out = self.unhash_field_vec(items, Ghost((*v)->Embed_items));
                BinValue::Embed {
                    name: *name,
                    name_str: self.resolve32_exec(*name, crate::model::clone_name(name_str)),
                    items: out,
                }
            },
            BinValue::Null => BinValue::Null,
            BinValue::Bool(b) => BinValue::Bool(*b),
            BinValue::I8(y) => BinValue::I8(*y),
            BinValue::U8(y) => BinValue::U8(*y),
            BinValue::I16(y) => BinValue::I16(*y),
            BinValue::U16(y) => BinValue::U16(*y),
            BinValue::I32(y) => BinValue::I32(*y),
            BinValue::U32(y) => BinValue::U32(*y),
            BinValue::I64(y) => BinValue::I64(*y),
            BinValue::U64(y) => BinValue::U64(*y),
            BinValue::F32(y) => BinValue::F32(*y),
            BinValue::Vec2(a) => BinValue::Vec2(*a),
            BinValue::Vec3(a) => BinValue::Vec3(*a),
            BinValue::Vec4(a) => BinValue::Vec4(*a),
            BinValue::Mtx44(a) => BinValue::Mtx44(*a),
            BinValue::Rgba(a) => BinValue::Rgba(*a),
            BinValue::String(s) => BinValue::String(s.clone()),
            BinValue::Flag(b) => BinValue::Flag(*b),
        }
    }

    /// Unhash every field of a structure: the key digest resolves its
    /// key name, the value recurses.
    #[verifier::loop_isolation(false)]
    fn unhash_field_vec(&self, items: &Vec<Field>, m: Ghost<Vec<Field>>) -> (r: Vec<Field>)
        requires
            m@ == *items,
        ensures
            vview_fields(r@) == unh_fields(self.fnv1a@, self.xxh64@, vview_fields(items@)),
        decreases m@, 0int,
    {
        let ghost f = self.fnv1a@;
        let ghost x = self.xxh64@;
        let mut out: Vec<Field> = Vec::new();
        let mut i: usize = 0;
        while i < items.len()
            invariant
                i <= items@.len(),
                vview_fields(out@) == unh_fields(f, x, vview_fields(items@).subrange(0, i as int)),
            decreases items@.len() - i,
        {
            proof {
                assert(decreases_to!(m@ => m@[i as int]));
                assert(decreases_to!(m@[i as int] => m@[i as int].value));
                lemma_vview_fields_index(items@);
            }
            let nv = self.unhash_value(&items[i].value);
            let nf = Field {
                key: items[i].key,
                key_str: self.resolve32_exec(
                    items[i].key,
                    crate::model::clone_name(&items[i].key_str),
                ),
                value: nv,
            };
            let ghost pre = out@;
            out.push(nf);
            proof {
                lemma_vview_fields_index(pre);
                lemma_vview_fields_index(out@);
                assert(out@.drop_last() =~= pre);
                let base = vview_fields(items@);
                let cur = base.subrange(0, i + 1);
                assert(cur.drop_last() =~= base.subrange(0, i as int));
                assert(cur.last() == base[i as int]);
                assert(base[i as int] == crate::model::fview(items@[i as int]));
                assert(vview_fields(out@).last() == crate::model::fview(out@.last()));
                assert(crate::model::fview(out@.last()) == unh_field(f, x, base[i as int]));
                assert(vview_fields(out@) =~= unh_fields(f, x, cur));
            }
            i = i + 1;
        }
        proof {
            lemma_vview_fields_index(items@);
            assert(vview_fields(items@).subrange(0, items@.len() as int) =~= vview_fields(
                items@,
            ));
        }
        out
    }

    /// Fill every empty name slot of every section from the
    /// dictionaries, in place; section keys, order and digest values
    /// are untouched.
    #[verifier::loop_isolation(false)]
    pub fn unhash_bin(&self, bin: &mut Bin)
        ensures
            sections_view(&final(bin).sections) == unhash_doc(
                self.fnv1a@,
                self.xxh64@,
                sections_view(&old(bin).sections),
            ),
    {
        let ghost f = self.fnv1a@;
        let ghost x = self.xxh64@;
        let ghost sv0 = sections_view(&old(bin).sections);
        let n = bin.sections.len();
        let mut i: usize = 0;
        while i < n
            invariant
                n == sv0.len(),
                i <= n,
                sections_view(&bin.sections).len() == sv0.len(),
                forall|j: int|
                    0 <= j < i ==> #[trigger] sections_view(&bin.sections)[j] == (
                        sv0[j].0,
                        unh_val(f, x, sv0[j].1),
                    ),
                forall|j: int|
                    i <= j < sv0.len() ==> #[trigger] sections_view(&bin.sections)[j] == sv0[j],
            decreases n - i,
        {
            let ghost svc = sections_view(&bin.sections);
            let (kref, vref) = bin.sections.get_index(i);
            let key = kref.clone();
            let nv = self.unhash_value(vref);
            proof {
                lemma_key_index_unique(svc, i as int);
                assert(crate::sections::key_index(svc, key@) == i);
            }
            bin.sections.insert(key, nv);
            proof {
                assert(sections_view(&bin.sections) == svc.update(
                    i as int,
                    (sv0[i as int].0, unh_val(f, x, sv0[i as int].1)),
                ));
            }
            i = i + 1;
        }
        proof {
            assert(sections_view(&bin.sections) =~= unhash_doc(f, x, sv0));
        }
    }

    /// Merge a binary dictionary: both tables are decoded and each
    /// entry upserted, later entries overwriting earlier names for the
    /// same digest.
    pub fn load_binary(&mut self, data: &[u8]) -> (r: Result<(), DictError>)
        ensures
            match r {
                Ok(_) => dec_dict(data@) matches Some(t) && fnv_view(final(self).fnv1a@)
                    == merge32(fnv_view(old(self).fnv1a@), t.0) && xxh_view(final(self).xxh64@)
                    == merge64(xxh_view(old(self).xxh64@), t.1),
                Err(_) => dec_dict(data@) is None && *final(self) == *old(self),
            },
    {
        let mut reader = BinaryHashReader::new(data);
        let (fnv, xxh) = match reader.read_hashes() {
            Ok(t) => t,
            Err(e) => {
                return Err(e);
            },
        };
        proof {
            lemma_fnv_view_index(fnv@);
            lemma_xxh_view_index(xxh@);
        }
        let mut i: usize = 0;
        while i < fnv.len()
            invariant
                i <= fnv@.len(),
                self.xxh64 == old(self).xxh64,
                fnv_view(self.fnv1a@) == merge32(
                    fnv_view(old(self).fnv1a@),
                    fnv_view(fnv@.subrange(0, i as int)),
                ),
            decreases fnv@.len() - i,
        {
            let (k, s) = (fnv[i].0, fnv[i].1.clone());
            upsert32(&mut self.fnv1a, k, s);
            proof {
                let base = fnv_view(fnv@);
                let pre = fnv_view(fnv@.subrange(0, i as int));
                let cur = fnv_view(fnv@.subrange(0, i + 1));
                lemma_fnv_view_index(fnv@.subrange(0, i as int));
                lemma_fnv_view_index(fnv@.subrange(0, i + 1));
                assert(cur.drop_last() =~= pre);
                assert(cur.last() == (fnv@[i as int].0, fnv@[i as int].1@));
            }
            i = i + 1;
        }
        proof {
            assert(fnv@.subrange(0, fnv@.len() as int) =~= fnv@);
        }
        let mut j: usize = 0;
        while j < xxh.len()
            invariant
                j <= xxh@.len(),
                fnv_view(self.fnv1a@) == merge32(fnv_view(old(self).fnv1a@), fnv_view(fnv@)),
                xxh_view(self.xxh64@) == merge64(
                    xxh_view(old(self).xxh64@),
                    xxh_view(xxh@.subrange(0, j as int)),
                ),
            decreases xxh@.len() - j,
        {
            let (k, s) = (xxh[j].0, xxh[j].1.clone());
            upsert64(&mut self.xxh64, k, s);
            proof {
                let pre = xxh_view(xxh@.subrange(0, j as int));
                let cur = xxh_view(xxh@.subrange(0, j + 1));
                lemma_xxh_view_index(xxh@.subrange(0, j as int));
                lemma_xxh_view_index(xxh@.subrange(0, j + 1));
                assert(cur.drop_last() =~= pre);
                assert(cur.last() == (xxh@[j as int].0, xxh@[j as int].1@));
            }
            j = j + 1;
        }
        proof {
            assert(xxh@.subrange(0, xxh@.len() as int) =~= xxh@);
        }
        Ok(())
    }

    /// Serialise both dictionaries to the binary dictionary format.
    /// The format's counts are 32-bit signed words, so tables of two
    /// billion entries and more are refused.
    pub fn save_binary(&self) -> (r: Result<Vec<u8>, DictError>)
        ensures
            match r {
                Ok(bytes) => self.fnv1a@.len() < 0x80000000 && self.xxh64@.len() < 0x80000000
                    && bytes@ == enc_dict(self.fnv1a@, self.xxh64@),
                Err(_) => self.fnv1a@.len() >= 0x80000000 || self.xxh64@.len() >= 0x80000000,
            },
    {
        if self.fnv1a.len() as u64 >= 0x80000000u64 || self.xxh64.len() as u64 >= 0x80000000u64 {
            return Err(DictError::InvalidData);
        }
        let mut writer = BinaryHashWriter::new();
        writer.write_hashes(&self.fnv1a, &self.xxh64);
        Ok(writer.into_inner())
    }
}

/// Index of the first table entry with digest `k`, or -1, over the
/// character view of a table.
pub open spec fn idx32(t: Seq<(u32, Seq<char>)>, k: u32) -> int
    decreases t.len(),
{
    if t.len() == 0 {
        -1
    } else if t[0].0 == k {
        0
    } else {
        let r = idx32(t.drop_first(), k);
        if r == -1 {
            -1
        } else {
            r + 1
        }
    }
}

pub open spec fn idx64(t: Seq<(u64, Seq<char>)>, k: u64) -> int
    decreases t.len(),
{
    if t.len() == 0 {
        -1
    } else if t[0].0 == k {
        0
    } else {
        let r = idx64(t.drop_first(), k);
        if r == -1 {
            -1
        } else {
            r + 1
        }
    }
}

/// The table after recording one 32-bit name: an existing digest's
/// name is replaced in place, a new digest is appended at the end.
pub open spec fn upsert32_spec(t: Seq<(u32, Seq<char>)>, p: (u32, Seq<char>)) -> Seq<
    (u32, Seq<char>),
> {
    if idx32(t, p.0) >= 0 {
        t.update(idx32(t, p.0), p)
    } else {
        t.push(p)
    }
}

pub open spec fn upsert64_spec(t: Seq<(u64, Seq<char>)>, p: (u64, Seq<char>)) -> Seq<
    (u64, Seq<char>),
> {
    if idx64(t, p.0) >= 0 {
        t.update(idx64(t, p.0), p)
    } else {
        t.push(p)
    }
}

/// A table after merging decoded entries in order: later entries
/// overwrite earlier names for the same digest.
pub open spec fn merge32(t: Seq<(u32, Seq<char>)>, ps: Seq<(u32, Seq<char>)>) -> Seq<
    (u32, Seq<char>),
>
    decreases ps.len(),
{
    if ps.len() == 0 {
        t
    } else {
        upsert32_spec(merge32(t, ps.drop_last()), ps.last())
    }
}

pub open spec fn merge64(t: Seq<(u64, Seq<char>)>, ps: Seq<(u64, Seq<char>)>) -> Seq<
    (u64, Seq<char>),
>
    decreases ps.len(),
{
    if ps.len() == 0 {
        t
    } else {
        upsert64_spec(merge64(t, ps.drop_last()), ps.last())
    }
}

pub proof fn lemma_idx32(t: Seq<(u32, Seq<char>)>, k: u32)
    ensures
        idx32(t, k) >= -1,
        idx32(t, k) >= 0 ==> idx32(t, k) < t.len() && t[idx32(t, k)].0 == k,
        idx32(t, k) == -1 <==> forall|i: int| 0 <= i < t.len() ==> (#[trigger] t[i]).0 != k,
    decreases t.len(),
{
    if t.len() > 0 && t[0].0 != k {
        lemma_idx32(t.drop_first(), k);
        assert(forall|i: int| 1 <= i < t.len() ==> (#[trigger] t[i]) == t.drop_first()[i - 1]);
        if idx32(t, k) == -1 {
            assert forall|i: int| 0 <= i < t.len() implies (#[trigger] t[i]).0 != k by {
                if i >= 1 {
                    assert(t.drop_first()[i - 1].0 != k);
                }
            }
        }
    }
}

pub proof fn lemma_idx64(t: Seq<(u64, Seq<char>)>, k: u64)
    ensures
        idx64(t, k) >= -1,
        idx64(t, k) >= 0 ==> idx64(t, k) < t.len() && t[idx64(t, k)].0 == k,
        idx64(t, k) == -1 <==> forall|i: int| 0 <= i < t.len() ==> (#[trigger] t[i]).0 != k,
    decreases t.len(),
{
    if t.len() > 0 && t[0].0 != k {
        lemma_idx64(t.drop_first(), k);
        assert(forall|i: int| 1 <= i < t.len() ==> (#[trigger] t[i]) == t.drop_first()[i - 1]);
        if idx64(t, k) == -1 {
            assert forall|i: int| 0 <= i < t.len() implies (#[trigger] t[i]).0 != k by {
                if i >= 1 {
                    assert(t.drop_first()[i - 1].0 != k);
                }
            }
        }
    }
}

proof fn lemma_idx32_first(t: Seq<(u32, Seq<char>)>, k: u32, i: int)
    requires
        0 <= i < t.len(),
        t[i].0 == k,
        forall|j: int| 0 <= j < i ==> (#[trigger] t[j]).0 != k,
    ensures
        idx32(t, k) == i,
    decreases i,
{
    if i > 0 {
        assert(t[0].0 != k);
        assert(forall|j: int| 1 <= j < t.len() ==> (#[trigger] t[j]) == t.drop_first()[j - 1]);
        assert(t.drop_first()[i - 1] == t[i]);
        assert forall|j: int| 0 <= j < i - 1 implies (#[trigger] t.drop_first()[j]).0 != k by {
            assert(t.drop_first()[j] == t[j + 1]);
        }
        lemma_idx32_first(t.drop_first(), k, i - 1);
    }
}

proof fn lemma_idx64_first(t: Seq<(u64, Seq<char>)>, k: u64, i: int)
    requires
        0 <= i < t.len(),
        t[i].0 == k,
        forall|j: int| 0 <= j < i ==> (#[trigger] t[j]).0 != k,
    ensures
        idx64(t, k) == i,
    decreases i,
{
    if i > 0 {
        assert(t[0].0 != k);
        assert(forall|j: int| 1 <= j < t.len() ==> (#[trigger] t[j]) == t.drop_first()[j - 1]);
        assert(t.drop_first()[i - 1] == t[i]);
        assert forall|j: int| 0 <= j < i - 1 implies (#[trigger] t.drop_first()[j]).0 != k by {
            assert(t.drop_first()[j] == t[j + 1]);
        }
        lemma_idx64_first(t.drop_first(), k, i - 1);
    }
}

fn upsert32(t: &mut Vec<(u32, String)>, k: u32, s: String)
    ensures
        fnv_view(final(t)@) == upsert32_spec(fnv_view(old(t)@), (k, s@)),
{
    proof {
        lemma_fnv_view_index(t@);
    }
    let mut i: usize = 0;
    while i < t.len()
        invariant
            i <= t@.len(),
            t@ == old(t)@,
            forall|j: int| 0 <= j < i ==> (#[trigger] fnv_view(t@)[j]).0 != k,
        decreases t@.len() - i,
    {
        if t[i].0 == k {
            proof {
                lemma_idx32_first(fnv_view(t@), k, i as int);
            }
            t.set(i, (k, s));
            proof {
                lemma_fnv_view_index(t@);
                lemma_fnv_view_index(old(t)@);
                assert(fnv_view(t@) =~= upsert32_spec(fnv_view(old(t)@), (k, s@)));
            }
            return ;
        }
        i = i + 1;
    }
    proof {
        lemma_idx32(fnv_view(t@), k);
    }
    t.push((k, s));
    proof {
        lemma_fnv_view_index(t@);
        lemma_fnv_view_index(old(t)@);
        assert(fnv_view(t@) =~= upsert32_spec(fnv_view(old(t)@), (k, s@)));
    }
}

fn upsert64(t: &mut Vec<(u64, String)>, k: u64, s: String)
    ensures
        xxh_view(final(t)@) == upsert64_spec(xxh_view(old(t)@), (k, s@)),
{
    proof {
        lemma_xxh_view_index(t@);
    }
    let mut i: usize = 0;
    while i < t.len()
        invariant
            i <= t@.len(),
            t@ == old(t)@,
            forall|j: int| 0 <= j < i ==> (#[trigger] xxh_view(t@)[j]).0 != k,
        decreases t@.len() - i,
    {
        if t[i].0 == k {
            proof {
                lemma_idx64_first(xxh_view(t@), k, i as int);
            }
            t.set(i, (k, s));
            proof {
                lemma_xxh_view_index(t@);
                lemma_xxh_view_index(old(t)@);
                assert(xxh_view(t@) =~= upsert64_spec(xxh_view(old(t)@), (k, s@)));
            }
            return ;
        }
        i = i + 1;
    }
    proof {
        lemma_idx64(xxh_view(t@), k);
    }
    t.push((k, s));
    proof {
        lemma_xxh_view_index(t@);
        lemma_xxh_view_index(old(t)@);
        assert(xxh_view(t@) =~= upsert64_spec(xxh_view(old(t)@), (k, s@)));
    }
}

pub proof fn lemma_fnv_view_index(v: Seq<(u32, String)>)
    ensures
        fnv_view(v).len() == v.len(),
        forall|i: int| 0 <= i < v.len() ==> fnv_view(v)[i] == ((#[trigger] v[i]).0, v[i].1@),
{
}

pub proof fn lemma_xxh_view_index(v: Seq<(u64, String)>)
    ensures
        xxh_view(v).len() == v.len(),
        forall|i: int| 0 <= i < v.len() ==> xxh_view(v)[i] == ((#[trigger] v[i]).0, v[i].1@),
{
}

/// Value of a hexadecimal digit character, if it is one.
pub open spec fn hex_digit(c: char) -> Option<u64> {
    if '0' <= c && c <= '9' {
        Some((c as u32 - 48) as u64)
    } else if 'a' <= c && c <= 'f' {
        Some((c as u32 - 87) as u64)
    } else if 'A' <= c && c <= 'F' {
        Some((c as u32 - 55) as u64)
    } else {
        None
    }
}

/// The 64-bit value of the hexadecimal digits in `s[a..b)`: None when
/// the span is empty, holds a non-digit, or overflows 64 bits.
pub open spec fn hex_val(s: Seq<char>, a: int, b: int) -> Option<u64>
    decreases b - a,
{
    if a >= b {
        None
    } else if a == b - 1 {
        hex_digit(s[a])
    } else {
        match (hex_val(s, a, b - 1), hex_digit(s[b - 1])) {
            (Some(p), Some(d)) => if p > (0xFFFFFFFFFFFFFFFF - d) / 16 {
                None
            } else {
                Some((16 * p + d) as u64)
            },
            _ => None,
        }
    }
}

/// Position of the first newline at or after `p`, or the end.
pub open spec fn line_end(s: Seq<char>, p: int) -> int
    decreases s.len() - p,
{
    if p < 0 || p >= s.len() {
        s.len() as int
    } else if s[p] == '\n' {
        p
    } else {
        line_end(s, p + 1)
    }
}

/// Position of the first space in `s[a..b)`, or -1.
pub open spec fn space_pos(s: Seq<char>, a: int, b: int) -> int
    decreases b - a,
{
    if a >= b {
        -1
    } else if s[a] == ' ' {
        a
    } else {
        space_pos(s, a + 1, b)
    }
}

/// One text dictionary line `<hex> <space> <name>`: the digest and
/// the name characters. Empty lines, lines without a space and lines
/// whose digest part is not hexadecimal of the right width parse to
/// nothing and are skipped.
pub open spec fn parse_line(s: Seq<char>, l: int, e: int) -> Option<(u64, Seq<char>)> {
    let ee = if e > l && s[e - 1] == '\r' {
        e - 1
    } else {
        e
    };
    let sp = space_pos(s, l, ee);
    if sp < 0 {
        None
    } else {
        match hex_val(s, l, sp) {
            Some(h) => Some((h, s.subrange(sp + 1, ee))),
            None => None,
        }
    }
}

/// The 32-bit table after merging every line of a text dictionary
/// from `p` on; digests above 32 bits are skipped.
pub open spec fn merge_text32(t: Seq<(u32, Seq<char>)>, s: Seq<char>, p: int) -> Seq<
    (u32, Seq<char>),
>
    decreases s.len() - p,
    via merge_text32_dec
{
    if p >= s.len() || p < 0 {
        t
    } else {
        let e = line_end(s, p);
        let t2 = match parse_line(s, p, e) {
            Some((h, name)) => if h <= 0xFFFFFFFF {
                upsert32_spec(t, (h as u32, name))
            } else {
                t
            },
            None => t,
        };
        if e >= s.len() {
            t2
        } else {
            merge_text32(t2, s, e + 1)
        }
    }
}

/// The 64-bit table after merging every line of a text dictionary.
pub open spec fn merge_text64(t: Seq<(u64, Seq<char>)>, s: Seq<char>, p: int) -> Seq<
    (u64, Seq<char>),
>
    decreases s.len() - p,
    via merge_text64_dec
{
    if p >= s.len() || p < 0 {
        t
    } else {
        let e = line_end(s, p);
        let t2 = match parse_line(s, p, e) {
            Some((h, name)) => upsert64_spec(t, (h, name)),
            None => t,
        };
        if e >= s.len() {
            t2
        } else {
            merge_text64(t2, s, e + 1)
        }
    }
}

#[via_fn]
proof fn merge_text32_dec(t: Seq<(u32, Seq<char>)>, s: Seq<char>, p: int) {
    if 0 <= p < s.len() {
        lemma_line_end(s, p);
    }
}

#[via_fn]
proof fn merge_text64_dec(t: Seq<(u64, Seq<char>)>, s: Seq<char>, p: int) {
    if 0 <= p < s.len() {
        lemma_line_end(s, p);
    }
}

/// A bound on `line_end`: it never runs past the input nor before the
/// start.
pub proof fn lemma_line_end(s: Seq<char>, p: int)
    requires
        0 <= p <= s.len(),
    ensures
        p <= line_end(s, p) <= s.len(),
        line_end(s, p) < s.len() ==> s[line_end(s, p)] == '\n',
        forall|q: int| p <= q < line_end(s, p) ==> s[q] != '\n',
    decreases s.len() - p,
{
    if p < s.len() && s[p] != '\n' {
        lemma_line_end(s, p + 1);
    }
}

/// Find the end of the line starting at `p`.
fn find_line_end(s: &str, n: usize, p: usize) -> (e: usize)
    requires
        n == s@.len(),
        p <= n,
    ensures
        e == line_end(s@, p as int),
{
    proof {
        lemma_line_end(s@, p as int);
    }
    let mut i: usize = p;
    while i < n
        invariant
            p <= i <= n,
            n == s@.len(),
            forall|q: int| p <= q < i ==> s@[q] != '\n',
            line_end(s@, p as int) == line_end(s@, i as int),
        decreases n - i,
    {
        if s.get_char(i) == '\n' {
            return i;
        }
        i = i + 1;
    }
    i
}

/// Find the first space strictly inside `[a, b)`.
fn find_space(s: &str, a: usize, b: usize) -> (r: Option<usize>)
    requires
        a <= b <= s@.len(),
    ensures
        match r {
            Some(sp) => sp == space_pos(s@, a as int, b as int) && a <= sp < b,
            None => space_pos(s@, a as int, b as int) == -1,
        },
{
    let mut i: usize = a;
    while i < b
        invariant
            a <= i <= b,
            b <= s@.len(),
            space_pos(s@, a as int, b as int) == space_pos(s@, i as int, b as int),
        decreases b - i,
    {
        if s.get_char(i) == ' ' {
            return Some(i);
        }
        i = i + 1;
    }
    None
}

/// Parse the hexadecimal digits of `s[a..b)`.
fn parse_hex(s: &str, a: usize, b: usize) -> (r: Option<u64>)
    requires
        a <= b <= s@.len(),
    ensures
        r == hex_val(s@, a as int, b as int),
{
    if a == b {
        return None;
    }
    let mut v: u64 = 0;
    let mut i: usize = a;
    while i < b
        invariant
            a <= i <= b,
            b <= s@.len(),
            a < b,
            i > a ==> hex_val(s@, a as int, i as int) == Some(v),
            i == a ==> v == 0,
        decreases b - i,
    {
        let c = s.get_char(i);
        let d: u64 = if c >= '0' && c <= '9' {
            (c as u32 - 48) as u64
        } else if c >= 'a' && c <= 'f' {
            (c as u32 - 87) as u64
        } else if c >= 'A' && c <= 'F' {
            (c as u32 - 55) as u64
        } else {
            proof {
                lemma_hex_val_bad(s@, a as int, b as int, i as int);
            }
            return None;
        };
        if i == a {
            v = d;
        } else {
            if v > (0xFFFFFFFFFFFFFFFFu64 - d) / 16 {
                proof {
                    lemma_hex_val_overflow(s@, a as int, b as int, i as int);
                }
                return None;
            }
            v = 16 * v + d;
        }
        i = i + 1;
    }
    Some(v)
}

/// A non-digit anywhere in the span makes the whole span parse to
/// nothing.
proof fn lemma_hex_val_bad(s: Seq<char>, a: int, b: int, i: int)
    requires
        a <= i < b <= s.len(),
        hex_digit(s[i]) is None,
    ensures
        hex_val(s, a, b) is None,
    decreases b - i,
{
    if i < b - 1 {
        lemma_hex_val_bad(s, a, b - 1, i);
    }
}

/// A prefix that already overflows makes the whole span parse to
/// nothing.
proof fn lemma_hex_val_overflow(s: Seq<char>, a: int, b: int, i: int)
    requires
        a < i < b <= s.len(),
        hex_val(s, a, i) is None || (hex_val(s, a, i) matches Some(p) && hex_digit(s[i]) matches
            Some(d) && p > (0xFFFFFFFFFFFFFFFF - d) / 16),
    ensures
        hex_val(s, a, b) is None,
    decreases b - i,
{
    if i < b - 1 {
        lemma_hex_val_overflow(s, a, b - 1, i);
    }
}

impl BinUnhasher {
    /// Merge a text dictionary of `<hex> <space> <name>` lines into
    /// the 32-bit table. Blank lines, lines without a space and lines
    /// whose digest is not a 32-bit hexadecimal number are skipped.
    #[verifier::loop_isolation(false)]
    pub fn merge_fnv_text(&mut self, text: &str)
        ensures
            final(self).xxh64 == old(self).xxh64,
            fnv_view(final(self).fnv1a@) == merge_text32(
                fnv_view(old(self).fnv1a@),
                text@,
                0,
            ),
    {
        let n = text.unicode_len();
        let mut p: usize = 0;
        while p < n
            invariant
                p <= n,
                n == text@.len(),
                self.xxh64 == old(self).xxh64,
                merge_text32(fnv_view(old(self).fnv1a@), text@, 0) == merge_text32(
                    fnv_view(self.fnv1a@),
                    text@,
                    p as int,
                ),
            decreases n - p,
        {
            let e = find_line_end(text, n, p);
            proof {
                lemma_line_end(text@, p as int);
            }
            let ee = if e > p && text.get_char(e - 1) == '\r' {
                e - 1
            } else {
                e
            };
            match find_space(text, p, ee) {
                Some(sp) => {
                    match parse_hex(text, p, sp) {
                        Some(h) => {
                            if h <= 0xFFFFFFFFu64 {
                                let name = text.substring_char(sp + 1, ee).to_owned();
                                proof {
                                    assert(name@ == text@.subrange(sp + 1, ee as int));
                                }
                                upsert32(&mut self.fnv1a, h as u32, name);
                            }
                        },
                        None => {},
                    }
                },
                None => {},
            }
            if e < n {
                p = e + 1;
            } else {
                p = n;
            }
        }
        proof {
            assert(merge_text32(fnv_view(self.fnv1a@), text@, p as int) == fnv_view(
                self.fnv1a@,
            ));
        }
    }

    /// Merge a text dictionary into the 64-bit table.
    #[verifier::loop_isolation(false)]
    pub fn merge_xxh_text(&mut self, text: &str)
        ensures
            final(self).fnv1a == old(self).fnv1a,
            xxh_view(final(self).xxh64@) == merge_text64(
                xxh_view(old(self).xxh64@),
                text@,
                0,
            ),
    {
        let n = text.unicode_len();
        let mut p: usize = 0;
        while p < n
            invariant
                p <= n,
                n == text@.len(),
                self.fnv1a == old(self).fnv1a,
                merge_text64(xxh_view(old(self).xxh64@), text@, 0) == merge_text64(
                    xxh_view(self.xxh64@),
                    text@,
                    p as int,
                ),
            decreases n - p,
        {
            let e = find_line_end(text, n, p);
            proof {
                lemma_line_end(text@, p as int);
            }
            let ee = if e > p && text.get_char(e - 1) == '\r' {
                e - 1
            } else {
                e
            };
            match find_space(text, p, ee) {
                Some(sp) => {
                    match parse_hex(text, p, sp) {
                        Some(h) => {
                            let name = text.substring_char(sp + 1, ee).to_owned();
                            proof {
                                assert(name@ == text@.subrange(sp + 1, ee as int));
                            }
                            upsert64(&mut self.xxh64, h, name);
                        },
                        None => {},
                    }
                },
                None => {},
            }
            if e < n {
                p = e + 1;
            } else {
                p = n;
            }
        }
        proof {
            assert(merge_text64(xxh_view(self.xxh64@), text@, p as int) == xxh_view(
                self.xxh64@,
            ));
        }
    }

    /// Convert one text dictionary to the binary dictionary format;
    /// the lines go into the 32-bit or the 64-bit table as told.
    /// Returns the serialised bytes and the number of entries.
    pub fn convert_text_to_binary(text: &str, is_xxh: bool) -> (r: Result<
        (Vec<u8>, usize),
        DictError,
    >)
        ensures
            ({
                let fv = if is_xxh {
                    Seq::<(u32, Seq<char>)>::empty()
                } else {
                    merge_text32(Seq::empty(), text@, 0)
                };
                let xv = if is_xxh {
                    merge_text64(Seq::empty(), text@, 0)
                } else {
                    Seq::<(u64, Seq<char>)>::empty()
                };
                match r {
                    Ok(t) => t.1 == fv.len() + xv.len() && (exists|
                        f: Seq<(u32, String)>,
                        x: Seq<(u64, String)>,
                    |
                        fnv_view(f) == fv && xxh_view(x) == xv && t.0@ == #[trigger] enc_dict(
                            f,
                            x,
                        )),
                    Err(_) => fv.len() >= 0x80000000 || xv.len() >= 0x80000000,
                }
            }),
    {
        let mut u = BinUnhasher::new();
        proof {
            assert(fnv_view(u.fnv1a@) =~= Seq::<(u32, Seq<char>)>::empty());
            assert(xxh_view(u.xxh64@) =~= Seq::<(u64, Seq<char>)>::empty());
        }
        if is_xxh {
            u.merge_xxh_text(text);
        } else {
            u.merge_fnv_text(text);
        }
        proof {
            lemma_fnv_view_index(u.fnv1a@);
            lemma_xxh_view_index(u.xxh64@);
        }
        let count = u.fnv1a.len() + u.xxh64.len();
        match u.save_binary() {
            Ok(bytes) => {
                proof {
                    let fw = u.fnv1a@;
                    let xw = u.xxh64@;
                    assert(fnv_view(fw) == fnv_view(u.fnv1a@) && xxh_view(xw) == xxh_view(
                        u.xxh64@,
                    ) && bytes@ == enc_dict(fw, xw));
                }
                Ok((bytes, count))
            },
            Err(e) => Err(e),
        }
    }
}

} // verus!
