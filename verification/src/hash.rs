use vstd::prelude::*;
use vstd::string::StringSliceAdditionalSpecFns;

verus! {

/// ASCII upper-case letters fold to lower case; every other byte is
/// left alone. Both digests apply this fold to their input.
pub open spec fn fold_byte(b: u8) -> u8 {
    if 65 <= b && b <= 90 {
        (b + 32) as u8
    } else {
        b
    }
}

/// Pointwise ASCII-lower-case fold of a byte sequence.
pub open spec fn fold_bytes(s: Seq<u8>) -> Seq<u8> {
    Seq::new(s.len(), |i: int| fold_byte(s[i]))
}

fn fold_byte_exec(b: u8) -> (r: u8)
    ensures
        r == fold_byte(b),
{
    if b >= 65 && b <= 90 {
        b + 32
    } else {
        b
    }
}

/// One step of FNV-1a-32 over an already-folded byte.
pub open spec fn fnv1a_step(h: u32, b: u8) -> u32 {
    vstd::wrapping::u32_specs::wrapping_mul(h ^ (b as u32), 0x01000193)
}

/// FNV-1a-32 of an already-folded byte sequence, seed 0x811C9DC5,
/// prime 0x01000193.
pub open spec fn fnv1a_of(s: Seq<u8>) -> u32
    decreases s.len(),
{
    if s.len() == 0 {
        0x811c9dc5u32
    } else {
        fnv1a_step(fnv1a_of(s.drop_last()), s.last())
    }
}

/// A computed FNV-1a-32 digest of a lower-case-folded name.
pub struct Fnv1a(pub u32);

impl Fnv1a {
    /// Digest a name: each byte is ASCII-lower-case folded, then mixed
    /// with the FNV-1a-32 step.
    pub fn new(s: &str) -> (r: Fnv1a)
        ensures
            r.0 == fnv1a_of(fold_bytes(s.spec_bytes())),
    {
        let bytes = s.as_bytes();
        let ghost fs = fold_bytes(s.spec_bytes());
        let mut h: u32 = 0x811c9dc5;
        let mut i: usize = 0;
        while i < bytes.len()
            invariant
                i <= bytes@.len(),
                bytes@ == s.spec_bytes(),
                fs == fold_bytes(s.spec_bytes()),
                h == fnv1a_of(fs.subrange(0, i as int)),
            decreases bytes@.len() - i,
        {
            let b = fold_byte_exec(bytes[i]);
            proof {
                assert(fs.subrange(0, i + 1).drop_last() =~= fs.subrange(0, i as int));
                assert(fs.subrange(0, i + 1).last() == fold_byte(bytes@[i as int]));
            }
            h = (h ^ (b as u32)).wrapping_mul(0x01000193);
            i = i + 1;
        }
        proof {
            assert(fs.subrange(0, i as int) =~= fs);
        }
        Fnv1a(h)
    }
}

/// FNV-1a-32 of a name after the ASCII-lower-case fold.
pub fn fnv1a(s: &str) -> (r: u32)
    ensures
        r == fnv1a_of(fold_bytes(s.spec_bytes())),
{
    Fnv1a::new(s).0
}

/// Two names with the same lower-case fold carry the same FNV-1a-32
/// digest: the digest is computed from the folded bytes alone.
pub proof fn lemma_fnv1a_case_insensitive(a: Seq<u8>, b: Seq<u8>)
    requires
        fold_bytes(a) == fold_bytes(b),
    ensures
        fnv1a_of(fold_bytes(a)) == fnv1a_of(fold_bytes(b)),
{
}

/// The FNV-1a-32 digest of the empty name is the seed itself.
pub proof fn lemma_fnv1a_empty()
    ensures
        fnv1a_of(fold_bytes(Seq::<u8>::empty())) == 0x811c9dc5u32,
{
    assert(fold_bytes(Seq::<u8>::empty()) =~= Seq::<u8>::empty());
}

pub open spec fn wadd(a: u64, b: u64) -> u64 {
    vstd::wrapping::u64_specs::wrapping_add(a, b)
}

pub open spec fn wmul(a: u64, b: u64) -> u64 {
    vstd::wrapping::u64_specs::wrapping_mul(a, b)
}

/// Left rotation of a 64-bit word by a fixed amount.
pub open spec fn rotl64(x: u64, r: u64) -> u64
    recommends
        0 < r < 64,
{
    (x << r) | (x >> ((64 - r) as u64))
}

fn rotl(x: u64, r: u64) -> (y: u64)
    requires
        0 < r < 64,
    ensures
        y == rotl64(x, r),
{
    (x << r) | (x >> (64 - r))
}

pub const XP1: u64 = 11400714785074694791;

pub const XP2: u64 = 14029467366897019727;

pub const XP3: u64 = 1609587929392839161;

pub const XP4: u64 = 9650029242287828579;

pub const XP5: u64 = 2870177450012600261;

/// Little-endian 64-bit word of eight already-folded bytes at `p`.
pub open spec fn lane64(s: Seq<u8>, p: int) -> u64
    recommends
        0 <= p,
        p + 8 <= s.len(),
{
    (s[p] as u64) | ((s[p + 1] as u64) << 8) | ((s[p + 2] as u64) << 16) | ((s[p + 3] as u64)
        << 24) | ((s[p + 4] as u64) << 32) | ((s[p + 5] as u64) << 40) | ((s[p + 6] as u64) << 48)
        | ((s[p + 7] as u64) << 56)
}

/// Little-endian 32-bit word of four already-folded bytes at `p`.
pub open spec fn lane32(s: Seq<u8>, p: int) -> u64
    recommends
        0 <= p,
        p + 4 <= s.len(),
{
    (s[p] as u64) | ((s[p + 1] as u64) << 8) | ((s[p + 2] as u64) << 16) | ((s[p + 3] as u64)
        << 24)
}

/// The XXH64 accumulator round.
#[verifier::opaque]
pub open spec fn xxh_round(acc: u64, input: u64) -> u64 {
    wmul(rotl64(wadd(acc, wmul(input, XP2)), 31), XP1)
}

/// Accumulator states after consuming whole 32-byte stripes from `p` on.
pub open spec fn xxh_stripes(s: Seq<u8>, p: int, a1: u64, a2: u64, a3: u64, a4: u64) -> (
    u64,
    u64,
    u64,
    u64,
)
    decreases s.len() - p,
{
    if p >= 0 && p + 32 <= s.len() {
        xxh_stripes(
            s,
            p + 32,
            xxh_round(a1, lane64(s, p)),
            xxh_round(a2, lane64(s, p + 8)),
            xxh_round(a3, lane64(s, p + 16)),
            xxh_round(a4, lane64(s, p + 24)),
        )
    } else {
        (a1, a2, a3, a4)
    }
}

/// Folding one accumulator into the converged hash.
#[verifier::opaque]
pub open spec fn xxh_merge(h: u64, acc: u64) -> u64 {
    wadd(wmul(h ^ wmul(rotl64(wmul(acc, XP2), 31), XP1), XP1), XP4)
}

/// One eight-byte tail round.
#[verifier::opaque]
pub open spec fn xxh_tail8_step(h: u64, input: u64) -> u64 {
    wadd(wmul(rotl64(h ^ wmul(rotl64(wmul(input, XP2), 31), XP1), 27), XP1), XP4)
}

/// Eight-byte tail rounds from `p` on.
pub open spec fn xxh_tail8(s: Seq<u8>, p: int, h: u64) -> u64
    decreases s.len() - p,
{
    if p >= 0 && p + 8 <= s.len() {
        xxh_tail8(s, p + 8, xxh_tail8_step(h, lane64(s, p)))
    } else {
        h
    }
}

/// One single-byte tail round.
#[verifier::opaque]
pub open spec fn xxh_tail1_step(h: u64, b: u8) -> u64 {
    wmul(rotl64(h ^ wmul(b as u64, XP5), 11), XP1)
}

/// Single-byte tail rounds from `p` on.
pub open spec fn xxh_tail1(s: Seq<u8>, p: int, h: u64) -> u64
    decreases s.len() - p,
{
    if p >= 0 && p + 1 <= s.len() {
        xxh_tail1(s, p + 1, xxh_tail1_step(h, s[p]))
    } else {
        h
    }
}

/// The four-byte tail round.
#[verifier::opaque]
pub open spec fn xxh_word_step(h: u64, input: u64) -> u64 {
    wadd(wmul(rotl64(h ^ wmul(input, XP1), 23), XP2), XP3)
}

/// Converging the four stripe accumulators.
#[verifier::opaque]
pub open spec fn xxh_converge(a1: u64, a2: u64, a3: u64, a4: u64) -> u64 {
    wadd(wadd(wadd(rotl64(a1, 1), rotl64(a2, 7)), rotl64(a3, 12)), rotl64(a4, 18))
}

/// The final avalanche of XXH64.
#[verifier::opaque]
pub open spec fn xxh_avalanche(h0: u64) -> u64 {
    let h1 = wmul(h0 ^ (h0 >> 33), XP2);
    let h2 = wmul(h1 ^ (h1 >> 29), XP3);
    h2 ^ (h2 >> 32)
}

/// XXH64 with seed 0 of an already-folded byte sequence.
pub open spec fn xxh64_of(s: Seq<u8>) -> u64 {
    let l = s.len() as int;
    let p1 = if l >= 32 {
        l - (l % 32)
    } else {
        0
    };
    let h0 = if l >= 32 {
        let (a1, a2, a3, a4) = xxh_stripes(
            s,
            0,
            wadd(wadd(0, XP1), XP2),
            wadd(0, XP2),
            0,
            vstd::wrapping::u64_specs::wrapping_sub(0, XP1),
        );
        let hc = xxh_converge(a1, a2, a3, a4);
        xxh_merge(xxh_merge(xxh_merge(xxh_merge(hc, a1), a2), a3), a4)
    } else {
        wadd(0, XP5)
    };
    let h1 = wadd(h0, s.len() as u64);
    let h2 = xxh_tail8(s, p1, h1);
    let p2 = p1 + ((l - p1) / 8) * 8;
    let (h3, p3) = if p2 + 4 <= l {
        (xxh_word_step(h2, lane32(s, p2)), p2 + 4)
    } else {
        (h2, p2)
    };
    let h4 = xxh_tail1(s, p3, h3);
    xxh_avalanche(h4)
}

/// A computed XXH64 digest of a lower-case-folded path.
pub struct Xxh64(pub u64);

impl Xxh64 {
    /// Digest a path name: each byte is ASCII-lower-case folded before
    /// the standard XXH64 schedule, seed 0.
    pub fn new(s: &str) -> (r: Xxh64)
        ensures
            r.0 == xxh64_of(fold_bytes(s.spec_bytes())),
    {
        Xxh64(xxh64_bytes(s.as_bytes()))
    }
}

/// XXH64 of a path after the ASCII-lower-case fold.
pub fn xxh64(s: &str) -> (r: u64)
    ensures
        r == xxh64_of(fold_bytes(s.spec_bytes())),
{
    Xxh64::new(s).0
}

/// Two paths with the same lower-case fold carry the same XXH64
/// digest: the digest is computed from the folded bytes alone.
pub proof fn lemma_xxh64_case_insensitive(a: Seq<u8>, b: Seq<u8>)
    requires
        fold_bytes(a) == fold_bytes(b),
    ensures
        xxh64_of(fold_bytes(a)) == xxh64_of(fold_bytes(b)),
{
}

fn lane64_exec(data: &[u8], p: usize) -> (w: u64)
    requires
        p + 8 <= data@.len(),
    ensures
        w == lane64(fold_bytes(data@), p as int),
{
    let b0 = fold_byte_exec(data[p]) as u64;
    let b1 = fold_byte_exec(data[p + 1]) as u64;
    let b2 = fold_byte_exec(data[p + 2]) as u64;
    let b3 = fold_byte_exec(data[p + 3]) as u64;
    let b4 = fold_byte_exec(data[p + 4]) as u64;
    let b5 = fold_byte_exec(data[p + 5]) as u64;
    let b6 = fold_byte_exec(data[p + 6]) as u64;
    let b7 = fold_byte_exec(data[p + 7]) as u64;
    b0 | (b1 << 8) | (b2 << 16) | (b3 << 24) | (b4 << 32) | (b5 << 40) | (b6 << 48) | (b7 << 56)
}

fn lane_round(acc: u64, input: u64) -> (r: u64)
    ensures
        r == xxh_round(acc, input),
{
    proof {
        reveal(xxh_round);
    }
    rotl(acc.wrapping_add(input.wrapping_mul(XP2)), 31).wrapping_mul(XP1)
}

fn merge_acc(h: u64, acc: u64) -> (r: u64)
    ensures
        r == xxh_merge(h, acc),
{
    proof {
        reveal(xxh_merge);
    }
    (h ^ rotl(acc.wrapping_mul(XP2), 31).wrapping_mul(XP1)).wrapping_mul(XP1).wrapping_add(XP4)
}

fn converge_accs(a1: u64, a2: u64, a3: u64, a4: u64) -> (r: u64)
    ensures
        r == xxh_converge(a1, a2, a3, a4),
{
    proof {
        reveal(xxh_converge);
    }
    rotl(a1, 1).wrapping_add(rotl(a2, 7)).wrapping_add(rotl(a3, 12)).wrapping_add(rotl(a4, 18))
}

fn tail8_round(h: u64, input: u64) -> (r: u64)
    ensures
        r == xxh_tail8_step(h, input),
{
    proof {
        reveal(xxh_tail8_step);
    }
    let k1 = input.wrapping_mul(XP2);
    let h1 = h ^ rotl(k1, 31).wrapping_mul(XP1);
    rotl(h1, 27).wrapping_mul(XP1).wrapping_add(XP4)
}

fn word_round(h: u64, input: u64) -> (r: u64)
    ensures
        r == xxh_word_step(h, input),
{
    proof {
        reveal(xxh_word_step);
    }
    rotl(h ^ input.wrapping_mul(XP1), 23).wrapping_mul(XP2).wrapping_add(XP3)
}

fn tail1_round(h: u64, b: u8) -> (r: u64)
    ensures
        r == xxh_tail1_step(h, b),
{
    proof {
        reveal(xxh_tail1_step);
    }
    rotl(h ^ (b as u64).wrapping_mul(XP5), 11).wrapping_mul(XP1)
}

fn avalanche(h0: u64) -> (r: u64)
    ensures
        r == xxh_avalanche(h0),
{
    proof {
        reveal(xxh_avalanche);
    }
    let h1 = (h0 ^ (h0 >> 33)).wrapping_mul(XP2);
    let h2 = (h1 ^ (h1 >> 29)).wrapping_mul(XP3);
    h2 ^ (h2 >> 32)
}

fn lane32_exec(data: &[u8], p: usize) -> (w: u64)
    requires
        p + 4 <= data@.len(),
    ensures
        w == lane32(fold_bytes(data@), p as int),
{
    let b0 = fold_byte_exec(data[p]) as u64;
    let b1 = fold_byte_exec(data[p + 1]) as u64;
    let b2 = fold_byte_exec(data[p + 2]) as u64;
    let b3 = fold_byte_exec(data[p + 3]) as u64;
    b0 | (b1 << 8) | (b2 << 16) | (b3 << 24)
}

/// XXH64 (seed 0) over a byte slice, folding each byte to ASCII lower
/// case before mixing.
#[verifier::rlimit(60)]
pub fn xxh64_bytes(data: &[u8]) -> (r: u64)
    ensures
        r == xxh64_of(fold_bytes(data@)),
{
    let ghost fs = fold_bytes(data@);
    let len: usize = data.len();
    let mut ptr: usize = 0;
    let mut h: u64;

    if len >= 32 {
        let mut a1: u64 = 0u64.wrapping_add(XP1).wrapping_add(XP2);
        let mut a2: u64 = 0u64.wrapping_add(XP2);
        let mut a3: u64 = 0;
        let mut a4: u64 = 0u64.wrapping_sub(XP1);
        while len - ptr >= 32
            invariant
                fs == fold_bytes(data@),
                len == data@.len(),
                ptr <= len,
                ptr % 32 == 0,
                xxh_stripes(fs, 0, wadd(wadd(0, XP1), XP2), wadd(0, XP2), 0,
                    vstd::wrapping::u64_specs::wrapping_sub(0, XP1))
                    == xxh_stripes(fs, ptr as int, a1, a2, a3, a4),
            decreases len - ptr,
        {
            let l1 = lane64_exec(data, ptr);
            let l2 = lane64_exec(data, ptr + 8);
            let l3 = lane64_exec(data, ptr + 16);
            let l4 = lane64_exec(data, ptr + 24);
            proof {
                assert(xxh_stripes(fs, ptr as int, a1, a2, a3, a4) == xxh_stripes(
                    fs,
                    ptr as int + 32,
                    xxh_round(a1, lane64(fs, ptr as int)),
                    xxh_round(a2, lane64(fs, ptr as int + 8)),
                    xxh_round(a3, lane64(fs, ptr as int + 16)),
                    xxh_round(a4, lane64(fs, ptr as int + 24)),
                ));
            }
            a1 = lane_round(a1, l1);
            a2 = lane_round(a2, l2);
            a3 = lane_round(a3, l3);
            a4 = lane_round(a4, l4);
            ptr = ptr + 32;
        }
        h = converge_accs(a1, a2, a3, a4);
        h = merge_acc(h, a1);
        h = merge_acc(h, a2);
        h = merge_acc(h, a3);
        h = merge_acc(h, a4);
        proof {
            assert(ptr as int == fs.len() as int - (fs.len() as int % 32));
        }
    } else {
        h = 0u64.wrapping_add(XP5);
    }

    h = h.wrapping_add(len as u64);

    let ghost h_before8 = h;
    let ghost p_before8 = ptr as int;
    while len - ptr >= 8
        invariant
            fs == fold_bytes(data@),
            len == data@.len(),
            ptr <= len,
            p_before8 <= ptr,
            (ptr - p_before8) % 8 == 0,
            xxh_tail8(fs, p_before8, h_before8) == xxh_tail8(fs, ptr as int, h),
        decreases len - ptr,
    {
        proof {
            assert(xxh_tail8(fs, ptr as int, h) == xxh_tail8(
                fs,
                ptr as int + 8,
                xxh_tail8_step(h, lane64(fs, ptr as int)),
            ));
        }
        let w = lane64_exec(data, ptr);
        h = tail8_round(h, w);
        ptr = ptr + 8;
    }
    proof {
        assert(ptr as int == p_before8 + ((len - p_before8) / 8) * 8);
    }

    if len - ptr >= 4 {
        let k1 = lane32_exec(data, ptr);
        h = word_round(h, k1);
        ptr = ptr + 4;
    }

    let ghost h_before1 = h;
    let ghost p_before1 = ptr as int;
    while ptr < len
        invariant
            fs == fold_bytes(data@),
            len == data@.len(),
            ptr <= len,
            p_before1 <= ptr,
            xxh_tail1(fs, p_before1, h_before1) == xxh_tail1(fs, ptr as int, h),
        decreases len - ptr,
    {
        proof {
            assert(xxh_tail1(fs, ptr as int, h) == xxh_tail1(
                fs,
                ptr as int + 1,
                xxh_tail1_step(h, fs[ptr as int]),
            ));
        }
        let b = fold_byte_exec(data[ptr]);
        h = tail1_round(h, b);
        ptr = ptr + 1;
    }

    let r = avalanche(h);
    r
}

} // verus!
