use vstd::prelude::*;
use vstd::string::StringSliceAdditionalSpecFns;
use crate::wire::{le32, le64, word32, word64, push_u32, push_u64, make_u32, make_u64};
use vstd::utf8::{valid_utf8, decode_utf8, encode_utf8};

verus! {

/// Errors of the binary dictionary codec.
#[derive(Debug, Clone, Copy, PartialEq, Eq, Structural)]
pub enum DictError {
    /// The first four bytes are not the dictionary magic.
    InvalidMagic,
    /// The version word is not 1.
    BadVersion(u32),
    /// A count is negative or a name is not valid UTF-8.
    InvalidData,
    /// The input ends before the structure it promises.
    UnexpectedEof,
}

/// The continuation-bit encoding of a length: each byte carries seven
/// low bits, least significant first; a set high bit means more bytes
/// follow.
pub open spec fn enc_7bit(v: nat) -> Seq<u8>
    decreases v,
{
    if v < 128 {
        seq![v as u8]
    } else {
        seq![(v % 128 + 128) as u8] + enc_7bit(v / 128)
    }
}

/// A length-prefixed string: the 7-bit-encoded byte count, then the
/// raw UTF-8 bytes.
pub open spec fn enc_str(bytes: Seq<u8>) -> Seq<u8> {
    enc_7bit(bytes.len()) + bytes
}

/// 128 raised to `k`.
pub open spec fn pow128(k: nat) -> nat
    decreases k,
{
    if k == 0 {
        1
    } else {
        128 * pow128((k - 1) as nat)
    }
}

/// Decode a 7-bit-encoded integer at `p`, reading at most `k` bytes.
pub open spec fn dec_7bit(s: Seq<u8>, p: int, k: nat) -> Option<(nat, int)>
    decreases k,
{
    if k == 0 || !(0 <= p < s.len()) {
        None
    } else {
        let b = s[p];
        if b < 128 {
            Some((b as nat, p + 1))
        } else {
            match dec_7bit(s, p + 1, (k - 1) as nat) {
                Some((v, q)) => Some(((b - 128) as nat + 128 * v, q)),
                None => None,
            }
        }
    }
}

/// 128^k is positive.
pub proof fn lemma_pow128_pos(k: nat)
    ensures
        pow128(k) >= 1,
    decreases k,
{
    if k > 0 {
        lemma_pow128_pos((k - 1) as nat);
    }
}

/// A decoded 7-bit integer of at most `k` bytes is below 128^k.
pub proof fn lemma_dec_7bit_bound(s: Seq<u8>, p: int, k: nat)
    ensures
        dec_7bit(s, p, k) matches Some(r) ==> r.0 < pow128(k) && p < r.1 <= p + k && r.1 <= s.len(),
    decreases k,
{
    if k > 0 && 0 <= p < s.len() {
        lemma_dec_7bit_bound(s, p + 1, (k - 1) as nat);
        lemma_pow128_pos((k - 1) as nat);
        assert(pow128(k) == 128 * pow128((k - 1) as nat));
    }
}

/// Decoding inverts encoding: wherever the bytes of `enc_7bit(v)` lie,
/// and the byte allowance covers them, the decoder returns `v` and
/// stops right after them.
pub proof fn lemma_7bit_round_trip(s: Seq<u8>, p: int, v: nat, k: nat)
    requires
        0 <= p,
        p + enc_7bit(v).len() <= s.len(),
        s.subrange(p, p + enc_7bit(v).len() as int) == enc_7bit(v),
        enc_7bit(v).len() <= k,
    ensures
        dec_7bit(s, p, k) == Some((v, p + enc_7bit(v).len() as int)),
    decreases v,
{
    let e = enc_7bit(v);
    assert(s[p] == e[0]);
    if v < 128 {
    } else {
        let e2 = enc_7bit(v / 128);
        assert(e == seq![(v % 128 + 128) as u8] + e2);
        assert(s.subrange(p + 1, p + 1 + e2.len() as int) =~= e2) by {
            assert(forall|i: int|
                0 <= i < e2.len() ==> #[trigger] s.subrange(p + 1, p + 1 + e2.len() as int)[i]
                    == s.subrange(p, p + e.len() as int)[i + 1]);
        }
        lemma_7bit_round_trip(s, p + 1, v / 128, (k - 1) as nat);
        assert(s[p] == (v % 128 + 128) as u8);
        assert((s[p] - 128) as nat + 128 * (v / 128) == v);
    }
}

/// The length of a 7-bit encoding grows only when the value crosses a
/// power of 128.
pub proof fn lemma_enc_7bit_len(v: nat, k: nat)
    requires
        k >= 1,
        v < pow128(k),
    ensures
        1 <= enc_7bit(v).len() <= k,
    decreases k,
{
    if v >= 128 {
        assert(pow128(k) == 128 * pow128((k - 1) as nat));
        if k == 1 {
            assert(pow128(1) == 128 * pow128(0));
            assert(pow128(0) == 1);
            assert(false);
        }
        assert(v / 128 < pow128((k - 1) as nat));
        lemma_enc_7bit_len(v / 128, (k - 1) as nat);
    }
}

/// Decode a length-prefixed string at `p`: the byte count (at most
/// five length bytes), then that many bytes, which must be valid
/// UTF-8. Yields the decoded characters and the next position.
pub open spec fn dec_str(s: Seq<u8>, p: int) -> Option<(Seq<char>, int)> {
    match dec_7bit(s, p, 5) {
        Some((n, q)) => if q + n <= s.len() && valid_utf8(s.subrange(q, q + n)) {
            Some((decode_utf8(s.subrange(q, q + n)), q + n))
        } else {
            None
        },
        None => None,
    }
}

/// The digest table of 32-bit entries, each a little-endian digest
/// followed by a length-prefixed name.
pub open spec fn enc_fnv_entries(t: Seq<(u32, String)>) -> Seq<u8>
    decreases t.len(),
{
    if t.len() == 0 {
        Seq::empty()
    } else {
        enc_fnv_entries(t.drop_last()) + le32(t.last().0) + enc_str(
            encode_utf8(t.last().1@),
        )
    }
}

/// The digest table of 64-bit entries.
pub open spec fn enc_xxh_entries(t: Seq<(u64, String)>) -> Seq<u8>
    decreases t.len(),
{
    if t.len() == 0 {
        Seq::empty()
    } else {
        enc_xxh_entries(t.drop_last()) + le64(t.last().0) + enc_str(
            encode_utf8(t.last().1@),
        )
    }
}

/// The dictionary magic bytes, "HHSH".
pub open spec fn dict_magic() -> Seq<u8> {
    seq![72u8, 72u8, 83u8, 72u8]
}

/// The whole binary dictionary: magic, version 1, the two table
/// lengths as little-endian 32-bit counts, then both tables.
pub open spec fn enc_dict(fnv: Seq<(u32, String)>, xxh: Seq<(u64, String)>) -> Seq<u8> {
    dict_magic() + le32(1) + le32(fnv.len() as u32) + le32(xxh.len() as u32) + enc_fnv_entries(fnv)
        + enc_xxh_entries(xxh)
}

/// Decode `n` 32-bit-digest entries starting at `p`, accumulating onto
/// `acc`.
pub open spec fn dec_fnv_from(s: Seq<u8>, p: int, n: nat, acc: Seq<(u32, Seq<char>)>) -> Option<
    (Seq<(u32, Seq<char>)>, int),
>
    decreases n,
{
    if n == 0 {
        Some((acc, p))
    } else if p + 4 <= s.len() && p >= 0 {
        let h = word32(s[p], s[p + 1], s[p + 2], s[p + 3]);
        match dec_str(s, p + 4) {
            Some((name, q)) => dec_fnv_from(s, q, (n - 1) as nat, acc.push((h, name))),
            None => None,
        }
    } else {
        None
    }
}

/// Decode `n` 64-bit-digest entries starting at `p`, accumulating onto
/// `acc`.
pub open spec fn dec_xxh_from(s: Seq<u8>, p: int, n: nat, acc: Seq<(u64, Seq<char>)>) -> Option<
    (Seq<(u64, Seq<char>)>, int),
>
    decreases n,
{
    if n == 0 {
        Some((acc, p))
    } else if p + 8 <= s.len() && p >= 0 {
        let h = word64(s[p], s[p + 1], s[p + 2], s[p + 3], s[p + 4], s[p + 5], s[p + 6], s[p + 7]);
        match dec_str(s, p + 8) {
            Some((name, q)) => dec_xxh_from(s, q, (n - 1) as nat, acc.push((h, name))),
            None => None,
        }
    } else {
        None
    }
}

/// Decode a whole binary dictionary: Some exactly when the magic is
/// "HHSH", the version word is 1, both counts are non-negative 32-bit
/// values and both tables decode.
pub open spec fn dec_dict(s: Seq<u8>) -> Option<(Seq<(u32, Seq<char>)>, Seq<(u64, Seq<char>)>)> {
    if s.len() >= 16 && s.subrange(0, 4) == dict_magic() && word32(s[4], s[5], s[6], s[7]) == 1
        && word32(s[8], s[9], s[10], s[11]) < 0x80000000 && word32(s[12], s[13], s[14], s[15])
        < 0x80000000 {
        let nf = word32(s[8], s[9], s[10], s[11]) as nat;
        let nx = word32(s[12], s[13], s[14], s[15]) as nat;
        match dec_fnv_from(s, 16, nf, Seq::empty()) {
            Some((fnv, p)) => match dec_xxh_from(s, p, nx, Seq::empty()) {
                Some((xxh, _)) => Some((fnv, xxh)),
                None => None,
            },
            None => None,
        }
    } else {
        None
    }
}

/// Writer for the binary dictionary format: an in-memory byte buffer
/// that the caller persists.
pub struct BinaryHashWriter {
    pub buf: Vec<u8>,
}

impl BinaryHashWriter {
    /// A writer with an empty buffer.
    pub fn new() -> (r: BinaryHashWriter)
        ensures
            r.buf@ == Seq::<u8>::empty(),
    {
        BinaryHashWriter { buf: Vec::new() }
    }

    /// The bytes written so far.
    pub fn into_inner(self) -> (r: Vec<u8>)
        ensures
            r == self.buf,
    {
        self.buf
    }

    /// Append the continuation-bit encoding of `value`, least
    /// significant seven bits first.
    pub fn write_7bit_encoded_int(&mut self, value: usize)
        ensures
            final(self).buf@ == old(self).buf@ + enc_7bit(value as nat),
    {
        let mut v: usize = value;
        while v >= 0x80
            invariant
                old(self).buf@ + enc_7bit(value as nat) == self.buf@ + enc_7bit(v as nat),
            decreases v,
        {
            proof {
                assert(enc_7bit(v as nat) == seq![(v as nat % 128 + 128) as u8] + enc_7bit(
                    v as nat / 128,
                ));
            }
            self.buf.push((v % 128 + 128) as u8);
            v = v / 128;
            proof {
                assert(self.buf@ + enc_7bit(v as nat) =~= old(self).buf@ + enc_7bit(value as nat));
            }
        }
        self.buf.push(v as u8);
        proof {
            assert(enc_7bit(v as nat) =~= seq![v as u8]);
            assert(self.buf@ =~= old(self).buf@ + enc_7bit(value as nat));
        }
    }

    /// Append a length-prefixed string: the UTF-8 byte count in the
    /// 7-bit encoding, then the bytes themselves.
    pub fn write_string(&mut self, s: &str)
        ensures
            final(self).buf@ == old(self).buf@ + enc_str(s.spec_bytes()),
    {
        let bytes = s.as_bytes();
        self.write_7bit_encoded_int(bytes.len());
        let mut i: usize = 0;
        while i < bytes.len()
            invariant
                i <= bytes@.len(),
                bytes@ == s.spec_bytes(),
                self.buf@ == old(self).buf@ + enc_7bit(s.spec_bytes().len()) + bytes@.subrange(
                    0,
                    i as int,
                ),
            decreases bytes@.len() - i,
        {
            self.buf.push(bytes[i]);
            proof {
                assert(self.buf@ =~= old(self).buf@ + enc_7bit(s.spec_bytes().len())
                    + bytes@.subrange(0, i + 1));
            }
            i = i + 1;
        }
        proof {
            assert(bytes@.subrange(0, bytes@.len() as int) =~= bytes@);
            assert(self.buf@ =~= old(self).buf@ + enc_str(s.spec_bytes()));
        }
    }

    /// Write a whole dictionary: magic, version 1, both counts, then
    /// the 32-bit and the 64-bit digest tables in order.
    pub fn write_hashes(&mut self, fnv: &Vec<(u32, String)>, xxh: &Vec<(u64, String)>)
        requires
            fnv@.len() < 0x80000000,
            xxh@.len() < 0x80000000,
        ensures
            final(self).buf@ == old(self).buf@ + enc_dict(fnv@, xxh@),
    {
        self.buf.push(72);
        self.buf.push(72);
        self.buf.push(83);
        self.buf.push(72);
        proof {
            assert(self.buf@ =~= old(self).buf@ + dict_magic());
        }
        push_u32(&mut self.buf, 1);
        push_u32(&mut self.buf, fnv.len() as u32);
        push_u32(&mut self.buf, xxh.len() as u32);
        let ghost header = old(self).buf@ + dict_magic() + le32(1) + le32(fnv@.len() as u32)
            + le32(xxh@.len() as u32);
        let mut i: usize = 0;
        while i < fnv.len()
            invariant
                i <= fnv@.len(),
                fnv@.len() < 0x80000000,
                xxh@.len() < 0x80000000,
                header == old(self).buf@ + dict_magic() + le32(1) + le32(fnv@.len() as u32) + le32(
                    xxh@.len() as u32,
                ),
                self.buf@ == header + enc_fnv_entries(fnv@.subrange(0, i as int)),
            decreases fnv@.len() - i,
        {
            push_u32(&mut self.buf, fnv[i].0);
            self.write_string(fnv[i].1.as_str());
            proof {
                assert(fnv@.subrange(0, i + 1).drop_last() =~= fnv@.subrange(0, i as int));
                assert(fnv@.subrange(0, i + 1).last() == fnv@[i as int]);
                assert(self.buf@ =~= header + enc_fnv_entries(fnv@.subrange(0, i + 1)));
            }
            i = i + 1;
        }
        proof {
            assert(fnv@.subrange(0, fnv@.len() as int) =~= fnv@);
        }
        let ghost mid = header + enc_fnv_entries(fnv@);
        let mut j: usize = 0;
        while j < xxh.len()
            invariant
                j <= xxh@.len(),
                mid == header + enc_fnv_entries(fnv@),
                self.buf@ == mid + enc_xxh_entries(xxh@.subrange(0, j as int)),
            decreases xxh@.len() - j,
        {
            push_u64(&mut self.buf, xxh[j].0);
            self.write_string(xxh[j].1.as_str());
            proof {
                assert(xxh@.subrange(0, j + 1).drop_last() =~= xxh@.subrange(0, j as int));
                assert(xxh@.subrange(0, j + 1).last() == xxh@[j as int]);
                assert(self.buf@ =~= mid + enc_xxh_entries(xxh@.subrange(0, j + 1)));
            }
            j = j + 1;
        }
        proof {
            assert(xxh@.subrange(0, xxh@.len() as int) =~= xxh@);
            assert(self.buf@ =~= old(self).buf@ + enc_dict(fnv@, xxh@));
        }
    }
}

/// The character view of a 32-bit digest table.
pub open spec fn fnv_view(v: Seq<(u32, String)>) -> Seq<(u32, Seq<char>)> {
    v.map_values(|p: (u32, String)| (p.0, p.1@))
}

/// The character view of a 64-bit digest table.
pub open spec fn xxh_view(v: Seq<(u64, String)>) -> Seq<(u64, Seq<char>)> {
    v.map_values(|p: (u64, String)| (p.0, p.1@))
}

/// 128^k grows with k.
pub proof fn lemma_pow128_mono(a: nat, b: nat)
    requires
        a <= b,
    ensures
        pow128(a) <= pow128(b),
    decreases b,
{
    if a < b {
        lemma_pow128_mono(a, (b - 1) as nat);
        lemma_pow128_pos((b - 1) as nat);
    }
}

/// Relies on String::from_utf8: it succeeds exactly on valid UTF-8 and
/// wraps the given bytes unchanged.
#[verifier::external_body]
fn bytes_to_string(v: Vec<u8>) -> (r: Option<String>)
    ensures
        match r {
            Some(s) => valid_utf8(v@) && encode_utf8(s@) == v@,
            None => !valid_utf8(v@),
        },
{
    String::from_utf8(v).ok()
}

/// Reader for the binary dictionary format over an in-memory byte
/// slice.
pub struct BinaryHashReader<'a> {
    pub data: &'a [u8],
    pub pos: usize,
}

impl<'a> BinaryHashReader<'a> {
    /// A reader at the start of the given bytes.
    pub fn new(data: &'a [u8]) -> (r: BinaryHashReader<'a>)
        ensures
            r.data@ == data@,
            r.pos == 0,
    {
        BinaryHashReader { data, pos: 0 }
    }

    fn read_u8(&mut self) -> (r: Result<u8, DictError>)
        ensures
            final(self).data == old(self).data,
            match r {
                Ok(b) => {
                    &&& old(self).pos < old(self).data@.len()
                    &&& b == old(self).data@[old(self).pos as int]
                    &&& final(self).pos == old(self).pos + 1
                },
                Err(e) => {
                    &&& e == DictError::UnexpectedEof
                    &&& old(self).pos >= old(self).data@.len()
                    &&& final(self).pos == old(self).pos
                },
            },
    {
        if self.pos < self.data.len() {
            let b = self.data[self.pos];
            self.pos = self.pos + 1;
            Ok(b)
        } else {
            Err(DictError::UnexpectedEof)
        }
    }

    fn read_u32(&mut self) -> (r: Result<u32, DictError>)
        ensures
            final(self).data == old(self).data,
            match r {
                Ok(v) => {
                    &&& old(self).pos + 4 <= old(self).data@.len()
                    &&& final(self).pos == old(self).pos + 4
                    &&& v == word32(
                        old(self).data@[old(self).pos as int],
                        old(self).data@[old(self).pos + 1],
                        old(self).data@[old(self).pos + 2],
                        old(self).data@[old(self).pos + 3],
                    )
                },
                Err(e) => {
                    &&& e == DictError::UnexpectedEof
                    &&& old(self).pos + 4 > old(self).data@.len()
                },
            },
    {
        if self.pos <= self.data.len() && self.data.len() - self.pos >= 4 {
            let v = make_u32(
                self.data[self.pos],
                self.data[self.pos + 1],
                self.data[self.pos + 2],
                self.data[self.pos + 3],
            );
            self.pos = self.pos + 4;
            Ok(v)
        } else {
            Err(DictError::UnexpectedEof)
        }
    }

    fn read_u64(&mut self) -> (r: Result<u64, DictError>)
        ensures
            final(self).data == old(self).data,
            match r {
                Ok(v) => {
                    &&& old(self).pos + 8 <= old(self).data@.len()
                    &&& final(self).pos == old(self).pos + 8
                    &&& v == word64(
                        old(self).data@[old(self).pos as int],
                        old(self).data@[old(self).pos + 1],
                        old(self).data@[old(self).pos + 2],
                        old(self).data@[old(self).pos + 3],
                        old(self).data@[old(self).pos + 4],
                        old(self).data@[old(self).pos + 5],
                        old(self).data@[old(self).pos + 6],
                        old(self).data@[old(self).pos + 7],
                    )
                },
                Err(e) => {
                    &&& e == DictError::UnexpectedEof
                    &&& old(self).pos + 8 > old(self).data@.len()
                },
            },
    {
        if self.pos <= self.data.len() && self.data.len() - self.pos >= 8 {
            let v = make_u64(
                self.data[self.pos],
                self.data[self.pos + 1],
                self.data[self.pos + 2],
                self.data[self.pos + 3],
                self.data[self.pos + 4],
                self.data[self.pos + 5],
                self.data[self.pos + 6],
                self.data[self.pos + 7],
            );
            self.pos = self.pos + 8;
            Ok(v)
        } else {
            Err(DictError::UnexpectedEof)
        }
    }

    fn read_7bit_rec(&mut self, k: u8) -> (r: Result<u64, DictError>)
        requires
            k <= 5,
        ensures
            final(self).data == old(self).data,
            match r {
                Ok(v) => {
                    &&& dec_7bit(old(self).data@, old(self).pos as int, k as nat) == Some(
                        ((v as nat), final(self).pos as int),
                    )
                    &&& (v as nat) < pow128(k as nat)
                },
                Err(_) => dec_7bit(old(self).data@, old(self).pos as int, k as nat) is None,
            },
        decreases k,
    {
        if k == 0 {
            return Err(DictError::InvalidData);
        }
        let b = match self.read_u8() {
            Ok(b) => b,
            Err(e) => {
                return Err(e);
            },
        };
        if b < 128 {
            proof {
                lemma_pow128_pos((k - 1) as nat);
                assert(pow128(k as nat) == 128 * pow128((k - 1) as nat));
            }
            Ok(b as u64)
        } else {
            let rest = match self.read_7bit_rec(k - 1) {
                Ok(v) => v,
                Err(e) => {
                    return Err(e);
                },
            };
            proof {
                lemma_pow128_mono((k - 1) as nat, 4);
                assert(pow128(4) == 128 * pow128(3));
                assert(pow128(3) == 128 * pow128(2));
                assert(pow128(2) == 128 * pow128(1));
                assert(pow128(1) == 128 * pow128(0));
                assert(pow128(0) == 1);
                assert(pow128(k as nat) == 128 * pow128((k - 1) as nat));
            }
            Ok((b - 128) as u64 + 128 * rest)
        }
    }

    /// Read a continuation-bit length of at most five bytes.
    pub fn read_7bit_encoded_int(&mut self) -> (r: Result<usize, DictError>)
        ensures
            final(self).data == old(self).data,
            match r {
                Ok(v) => dec_7bit(old(self).data@, old(self).pos as int, 5) == Some(
                    ((v as nat), final(self).pos as int),
                ),
                Err(_) => !(dec_7bit(old(self).data@, old(self).pos as int, 5) matches Some(x)
                    && x.0 <= usize::MAX as nat),
            },
    {
        let v = match self.read_7bit_rec(5) {
            Ok(v) => v,
            Err(e) => {
                return Err(e);
            },
        };
        if v <= usize::MAX as u64 {
            Ok(v as usize)
        } else {
            Err(DictError::InvalidData)
        }
    }

    /// Read a length-prefixed UTF-8 string.
    pub fn read_string(&mut self) -> (r: Result<String, DictError>)
        ensures
            final(self).data == old(self).data,
            match r {
                Ok(st) => dec_str(old(self).data@, old(self).pos as int) == Some(
                    (st@, final(self).pos as int),
                ),
                Err(_) => dec_str(old(self).data@, old(self).pos as int) is None,
            },
    {
        let ghost p0 = self.pos as int;
        let dlen: usize = self.data.len();
        let n = match self.read_7bit_encoded_int() {
            Ok(n) => n,
            Err(e) => {
                proof {
                    lemma_dec_7bit_bound(old(self).data@, p0, 5);
                }
                return Err(e);
            },
        };
        proof {
            lemma_dec_7bit_bound(old(self).data@, p0, 5);
        }
        if n > self.data.len() - self.pos {
            return Err(DictError::UnexpectedEof);
        }
        let mut bytes: Vec<u8> = Vec::new();
        let mut i: usize = 0;
        let start = self.pos;
        while i < n
            invariant
                start + n <= dlen,
                dlen == self.data@.len(),
                i <= n,
                bytes@ == self.data@.subrange(start as int, start as int + i as int),
                self.pos == start,
            decreases n - i,
        {
            bytes.push(self.data[start + i]);
            proof {
                assert(bytes@ =~= self.data@.subrange(start as int, start as int + i + 1));
            }
            i = i + 1;
        }
        self.pos = start + n;
        match bytes_to_string(bytes) {
            Some(st) => {
                proof {
                    vstd::utf8::encode_utf8_decode_utf8(st@);
                }
                Ok(st)
            },
            None => Err(DictError::InvalidData),
        }
    }

    /// Read a whole dictionary from the start of the bytes: the two
    /// digest tables, in file order.
    #[verifier::loop_isolation(false)]
    pub fn read_hashes(&mut self) -> (r: Result<
        (Vec<(u32, String)>, Vec<(u64, String)>),
        DictError,
    >)
        requires
            old(self).pos == 0,
        ensures
            final(self).data == old(self).data,
            match r {
                Ok(t) => dec_dict(old(self).data@) == Some((fnv_view(t.0@), xxh_view(t.1@))),
                Err(_) => dec_dict(old(self).data@) is None,
            },
    {
        let ghost s = self.data@;
        if self.data.len() < 16 {
            return Err(DictError::UnexpectedEof);
        }
        let m0 = self.data[0];
        let m1 = self.data[1];
        let m2 = self.data[2];
        let m3 = self.data[3];
        if !(m0 == 72 && m1 == 72 && m2 == 83 && m3 == 72) {
            proof {
                assert(s.subrange(0, 4) != dict_magic());
            }
            return Err(DictError::InvalidMagic);
        }
        proof {
            assert(s.subrange(0, 4) =~= dict_magic());
        }
        self.pos = 4;
        let version = match self.read_u32() {
            Ok(v) => v,
            Err(e) => {
                return Err(e);
            },
        };
        if version != 1 {
            return Err(DictError::BadVersion(version));
        }
        let nf = match self.read_u32() {
            Ok(v) => v,
            Err(e) => {
                return Err(e);
            },
        };
        let nx = match self.read_u32() {
            Ok(v) => v,
            Err(e) => {
                return Err(e);
            },
        };
        if nf >= 0x80000000 || nx >= 0x80000000 {
            return Err(DictError::InvalidData);
        }
        let mut fnv: Vec<(u32, String)> = Vec::new();
        proof {
            assert(fnv_view(fnv@) =~= Seq::<(u32, Seq<char>)>::empty());
        }
        let mut i: u32 = 0;
        while i < nf
            invariant
                self.data == old(self).data,
                i <= nf,
                dec_fnv_from(s, 16, nf as nat, Seq::empty()) == dec_fnv_from(
                    s,
                    self.pos as int,
                    (nf - i) as nat,
                    fnv_view(fnv@),
                ),
                self.pos <= s.len(),
            decreases nf - i,
        {
            let h = match self.read_u32() {
                Ok(v) => v,
                Err(e) => {
                    return Err(e);
                },
            };
            let name = match self.read_string() {
                Ok(st) => st,
                Err(e) => {
                    return Err(e);
                },
            };
            proof {
                lemma_dec_str_pos(s, self.pos as int - 0);
            }
            let ghost old_view = fnv_view(fnv@);
            fnv.push((h, name));
            proof {
                assert(fnv_view(fnv@) =~= old_view.push((h, name@)));
            }
            i = i + 1;
        }
        let mut xxh: Vec<(u64, String)> = Vec::new();
        proof {
            assert(dec_fnv_from(s, self.pos as int, 0, fnv_view(fnv@)) == Some(
                (fnv_view(fnv@), self.pos as int),
            ));
            assert(xxh_view(xxh@) =~= Seq::<(u64, Seq<char>)>::empty());
        }
        let mut j: u32 = 0;
        while j < nx
            invariant
                self.data == old(self).data,
                j <= nx,
                dec_fnv_from(s, 16, nf as nat, Seq::empty()) matches Some(ff) && ff.0 == fnv_view(
                    fnv@,
                ),
                dec_fnv_from(s, 16, nf as nat, Seq::empty()) matches Some(ff) ==> dec_xxh_from(
                    s,
                    ff.1,
                    nx as nat,
                    Seq::empty(),
                ) == dec_xxh_from(s, self.pos as int, (nx - j) as nat, xxh_view(xxh@)),
                self.pos <= s.len(),
            decreases nx - j,
        {
            let h = match self.read_u64() {
                Ok(v) => v,
                Err(e) => {
                    return Err(e);
                },
            };
            let name = match self.read_string() {
                Ok(st) => st,
                Err(e) => {
                    return Err(e);
                },
            };
            let ghost old_view = xxh_view(xxh@);
            xxh.push((h, name));
            proof {
                assert(xxh_view(xxh@) =~= old_view.push((h, name@)));
            }
            j = j + 1;
        }
        Ok((fnv, xxh))
    }
}

/// A successful string decode never moves the position backwards.
pub proof fn lemma_dec_str_pos(s: Seq<u8>, p: int)
    ensures
        dec_str(s, p) matches Some(r) ==> p < r.1 <= s.len(),
{
    lemma_dec_7bit_bound(s, p, 5);
}

} // verus!
