//! Binary archive codec.
//!
//! An archive is a little-endian byte stream: a length-prefixed tag string
//! and a version word, followed by resource data. [`Archive`] is a cursor
//! over an in-memory stream with checked primitive reads; the `sread_*`
//! spec functions define exactly what each read returns, and the `senc_*`
//! spec functions define the encoding the writers produce.

use vstd::prelude::*;
use vstd::bytes::{spec_u16_from_le_bytes, spec_u16_to_le_bytes, spec_u32_from_le_bytes, spec_u32_to_le_bytes, u16_from_le_bytes, u16_to_le_bytes, u32_from_le_bytes, u32_to_le_bytes};
use vstd::slice::{slice_subrange, slice_to_vec};
use vstd::utf8::{decode_utf8, encode_utf8, valid_utf8};
use crate::base::OzzError;
use crate::math::{SoaFloat4, SoaQuat, SoaTransform, SoaVec3};

verus! {

broadcast use vstd::seq_lib::group_seq_lib_default, vstd::seq::group_seq_axioms;

/// Outcome of reading one value from a byte stream at a position: the value
/// and the position after it, or the reason the read fails.
pub enum SRead<V> {
    /// The decoded value and the position just past it.
    Val(V, int),
    /// The data ends before the value is complete.
    Short,
    /// The bytes are not valid UTF-8 text.
    BadText,
}

/// Reading a little-endian u32.
pub open spec fn sread_u32(d: Seq<u8>, p: int) -> SRead<u32> {
    if 0 <= p && p + 4 <= d.len() {
        SRead::Val(spec_u32_from_le_bytes(d.subrange(p, p + 4)), p + 4)
    } else {
        SRead::Short
    }
}

/// Reading a little-endian i32: the u32 bit pattern reinterpreted.
pub open spec fn sread_i32(d: Seq<u8>, p: int) -> SRead<i32> {
    match sread_u32(d, p) {
        SRead::Val(v, q) => SRead::Val(v as i32, q),
        SRead::Short => SRead::Short,
        SRead::BadText => SRead::BadText,
    }
}

/// The `k`-th i16 of a packed little-endian run starting at `p`.
pub open spec fn i16_at(d: Seq<u8>, p: int, k: int) -> i16 {
    spec_u16_from_le_bytes(d.subrange(p + 2 * k, p + 2 * k + 2)) as i16
}

/// Reading `n` packed little-endian i16 values.
pub open spec fn sread_i16_seq(d: Seq<u8>, p: int, n: nat) -> SRead<Seq<i16>> {
    if 0 <= p && p + 2 * n <= d.len() {
        SRead::Val(Seq::new(n, |k: int| i16_at(d, p, k)), p + 2 * n)
    } else {
        SRead::Short
    }
}

/// The little-endian u32 at `p + 4k`.
pub open spec fn word_at(d: Seq<u8>, p: int, k: int) -> u32 {
    spec_u32_from_le_bytes(d.subrange(p + 4 * k, p + 4 * k + 4))
}

/// The SoA lane quad whose words start at `p`.
pub open spec fn sf4_at(d: Seq<u8>, p: int) -> SoaFloat4 {
    SoaFloat4 { x0: word_at(d, p, 0), x1: word_at(d, p, 1), x2: word_at(d, p, 2), x3: word_at(d, p, 3) }
}

/// The SoA 3-vector whose words start at `p`.
pub open spec fn svec3_at(d: Seq<u8>, p: int) -> SoaVec3 {
    SoaVec3 { x: sf4_at(d, p), y: sf4_at(d, p + 16), z: sf4_at(d, p + 32) }
}

/// The SoA quaternion whose words start at `p`.
pub open spec fn squat_at(d: Seq<u8>, p: int) -> SoaQuat {
    SoaQuat { x: sf4_at(d, p), y: sf4_at(d, p + 16), z: sf4_at(d, p + 32), w: sf4_at(d, p + 48) }
}

/// The SoA transform record whose words start at `p`: translation,
/// rotation, scale, 160 bytes in all.
pub open spec fn soa_at(d: Seq<u8>, p: int) -> SoaTransform {
    SoaTransform {
        translation: svec3_at(d, p),
        rotation: squat_at(d, p + 48),
        scale: svec3_at(d, p + 112),
    }
}

/// Reading one SoA transform record.
pub open spec fn sread_soa(d: Seq<u8>, p: int) -> SRead<SoaTransform> {
    if 0 <= p && p + 160 <= d.len() {
        SRead::Val(soa_at(d, p), p + 160)
    } else {
        SRead::Short
    }
}

/// Reading `n` SoA transform records.
pub open spec fn sread_soa_seq(d: Seq<u8>, p: int, n: nat) -> SRead<Seq<SoaTransform>> {
    if 0 <= p && p + 160 * n <= d.len() {
        SRead::Val(Seq::new(n, |k: int| soa_at(d, p + 160 * k)), p + 160 * n)
    } else {
        SRead::Short
    }
}

/// Reading one length-prefixed UTF-8 string: a u32 byte count, then that
/// many bytes of text.
pub open spec fn sread_string(d: Seq<u8>, p: int) -> SRead<Seq<char>> {
    match sread_u32(d, p) {
        SRead::Val(n, q) => if q + n <= d.len() {
            let bytes = d.subrange(q, q + n);
            if valid_utf8(bytes) {
                SRead::Val(decode_utf8(bytes), q + n)
            } else {
                SRead::BadText
            }
        } else {
            SRead::Short
        },
        SRead::Short => SRead::Short,
        SRead::BadText => SRead::BadText,
    }
}

/// Reading `n` length-prefixed strings in order.
pub open spec fn sread_strings(d: Seq<u8>, p: int, n: nat) -> SRead<Seq<Seq<char>>>
    decreases n,
{
    if n == 0 {
        SRead::Val(Seq::empty(), p)
    } else {
        match sread_string(d, p) {
            SRead::Val(s, q) => match sread_strings(d, q, (n - 1) as nat) {
                SRead::Val(ss, r) => SRead::Val(Seq::empty().push(s) + ss, r),
                SRead::Short => SRead::Short,
                SRead::BadText => SRead::BadText,
            },
            SRead::Short => SRead::Short,
            SRead::BadText => SRead::BadText,
        }
    }
}

/// Relies on `String::from_utf8`: succeeds exactly on valid UTF-8 and
/// yields the characters that byte sequence encodes.
#[verifier::external_body]
fn bytes_to_string(v: Vec<u8>) -> (res: Option<String>)
    ensures
        (res matches Some(s) ==> valid_utf8(v@) && s@ == decode_utf8(v@)),
        (res is None ==> !valid_utf8(v@)),
{
    match String::from_utf8(v) {
        Ok(s) => Some(s),
        Err(_) => None,
    }
}

/// A read cursor over an in-memory archive byte stream. Construction reads
/// the leading tag string and version word; resource decoders then pull
/// typed values off the stream in order.
pub struct Archive {
    data: Vec<u8>,
    pos: usize,
    tag: String,
    version: u32,
}

impl Archive {
    /// The whole byte stream.
    pub closed spec fn spec_data(&self) -> Seq<u8> {
        self.data@
    }

    /// The cursor position.
    pub closed spec fn spec_pos(&self) -> int {
        self.pos as int
    }

    /// The archive's tag string.
    pub closed spec fn spec_tag(&self) -> Seq<char> {
        self.tag@
    }

    /// The archive's version word.
    pub closed spec fn spec_version(&self) -> u32 {
        self.version
    }

    /// The cursor starts at or after the stream head and never passes the
    /// end of the data.
    pub open spec fn wf(&self) -> bool {
        0 <= self.spec_pos() <= self.spec_data().len()
    }

    /// Opens an archive over a byte stream: reads the tag string and the
    /// version word. Fails with `IO` on a truncated stream and `Utf8` on a
    /// malformed tag.
    pub fn from_bytes(data: Vec<u8>) -> (res: Result<Archive, OzzError>)
        ensures
            (match sread_string(data@, 0) {
                SRead::Val(tag, p1) => match sread_u32(data@, p1) {
                    SRead::Val(v, p2) => res matches Ok(a) && a.wf() && a.spec_data() == data@
                        && a.spec_pos() == p2 && a.spec_tag() == tag && a.spec_version() == v,
                    SRead::Short => res matches Err(e) && e is IO,
                    SRead::BadText => false,
                },
                SRead::Short => res matches Err(e) && e is IO,
                SRead::BadText => res matches Err(e) && e is Utf8,
            }),
    {
        let mut a = Archive { data, pos: 0, tag: String::new(), version: 0 };
        let tag = a.read_string()?;
        let version = a.read_u32()?;
        a.tag = tag;
        a.version = version;
        Ok(a)
    }

    /// The archive's tag string.
    pub fn tag(&self) -> (res: &String)
        ensures
            res@ == self.spec_tag(),
    {
        &self.tag
    }

    /// The archive's version word.
    pub fn version(&self) -> (res: u32)
        ensures
            res == self.spec_version(),
    {
        self.version
    }

    /// Reads a little-endian u32 and advances the cursor.
    pub fn read_u32(&mut self) -> (res: Result<u32, OzzError>)
        requires
            old(self).wf(),
        ensures
            final(self).wf(),
            final(self).spec_data() == old(self).spec_data(),
            final(self).spec_tag() == old(self).spec_tag(),
            final(self).spec_version() == old(self).spec_version(),
            (match sread_u32(old(self).spec_data(), old(self).spec_pos()) {
                SRead::Val(v, p) => res == Ok::<u32, OzzError>(v) && final(self).spec_pos() == p,
                _ => res matches Err(e) && e is IO && final(self).spec_pos() == old(self).spec_pos(),
            }),
    {
        if self.data.len() - self.pos >= 4 {
            let bytes = slice_subrange(self.data.as_slice(), self.pos, self.pos + 4);
            let v = u32_from_le_bytes(bytes);
            self.pos = self.pos + 4;
            Ok(v)
        } else {
            Err(OzzError::IO("unexpected end of archive".to_owned()))
        }
    }

    /// Reads a little-endian i32 and advances the cursor.
    pub fn read_i32(&mut self) -> (res: Result<i32, OzzError>)
        requires
            old(self).wf(),
        ensures
            final(self).wf(),
            final(self).spec_data() == old(self).spec_data(),
            final(self).spec_tag() == old(self).spec_tag(),
            final(self).spec_version() == old(self).spec_version(),
            (match sread_i32(old(self).spec_data(), old(self).spec_pos()) {
                SRead::Val(v, p) => res == Ok::<i32, OzzError>(v) && final(self).spec_pos() == p,
                _ => res matches Err(e) && e is IO && final(self).spec_pos() == old(self).spec_pos(),
            }),
    {
        match self.read_u32() {
            Ok(v) => Ok(v as i32),
            Err(e) => Err(e),
        }
    }

    /// Reads one length-prefixed UTF-8 string and advances the cursor.
    /// Fails with `IO` on a truncated stream and `Utf8` on malformed text.
    pub fn read_string(&mut self) -> (res: Result<String, OzzError>)
        requires
            old(self).wf(),
        ensures
            final(self).wf(),
            final(self).spec_data() == old(self).spec_data(),
            final(self).spec_tag() == old(self).spec_tag(),
            final(self).spec_version() == old(self).spec_version(),
            (match sread_string(old(self).spec_data(), old(self).spec_pos()) {
                SRead::Val(s, p) => res matches Ok(t) && t@ == s && final(self).spec_pos() == p,
                SRead::Short => res matches Err(e) && e is IO,
                SRead::BadText => res matches Err(e) && e is Utf8,
            }),
    {
        let n32 = self.read_u32()?;
        let n = n32 as usize;
        if self.data.len() - self.pos < n {
            return Err(OzzError::IO("unexpected end of archive".to_owned()));
        }
        let bytes = slice_to_vec(slice_subrange(self.data.as_slice(), self.pos, self.pos + n));
        match bytes_to_string(bytes) {
            Some(s) => {
                self.pos = self.pos + n;
                Ok(s)
            },
            None => Err(OzzError::Utf8("invalid text in archive".to_owned())),
        }
    }

    /// Reads `n` packed little-endian i16 values and advances the cursor.
    pub fn read_i16_vec(&mut self, n: usize) -> (res: Result<Vec<i16>, OzzError>)
        requires
            old(self).wf(),
        ensures
            final(self).wf(),
            final(self).spec_data() == old(self).spec_data(),
            final(self).spec_tag() == old(self).spec_tag(),
            final(self).spec_version() == old(self).spec_version(),
            (match sread_i16_seq(old(self).spec_data(), old(self).spec_pos(), n as nat) {
                SRead::Val(s, p) => res matches Ok(v) && v@ == s && final(self).spec_pos() == p,
                _ => res matches Err(e) && e is IO && final(self).spec_pos() == old(self).spec_pos(),
            }),
    {
        let ghost d = self.spec_data();
        let ghost p0 = self.spec_pos();
        if (self.data.len() - self.pos) / 2 < n {
            assert(p0 + 2 * (n as nat) > d.len());
            return Err(OzzError::IO("unexpected end of archive".to_owned()));
        }
        assert(p0 + 2 * (n as nat) <= d.len());
        let mut out: Vec<i16> = Vec::new();
        let mut i: usize = 0;
        while i < n
            invariant
                self.wf(),
                i <= n,
                self.spec_data() == d,
                self.spec_tag() == old(self).spec_tag(),
                self.spec_version() == old(self).spec_version(),
                self.spec_pos() == p0 + 2 * i,
                p0 + 2 * (n as nat) <= d.len(),
                out@.len() == i,
                forall|k: int| 0 <= k < i ==> out@[k] == i16_at(d, p0, k),
            decreases n - i,
        {
            let dl = self.data.len();
            assert(self.pos + 2 <= dl);
            let bytes = slice_subrange(self.data.as_slice(), self.pos, self.pos + 2);
            let w = u16_from_le_bytes(bytes);
            out.push(#[verifier::truncate] (w as i16));
            self.pos = self.pos + 2;
            i = i + 1;
        }
        proof {
            let target = Seq::new(n as nat, |k: int| i16_at(d, p0, k));
            assert(out@ =~= target);
        }
        Ok(out)
    }

    /// Reads one SoA lane quad (four u32 words) and advances the cursor.
    fn read_f4(&mut self) -> (res: Result<SoaFloat4, OzzError>)
        requires
            old(self).wf(),
        ensures
            final(self).wf(),
            final(self).spec_data() == old(self).spec_data(),
            final(self).spec_tag() == old(self).spec_tag(),
            final(self).spec_version() == old(self).spec_version(),
            (if old(self).spec_pos() + 16 <= old(self).spec_data().len() {
                res == Ok::<SoaFloat4, OzzError>(
                    sf4_at(old(self).spec_data(), old(self).spec_pos()),
                ) && final(self).spec_pos() == old(self).spec_pos() + 16
            } else {
                res matches Err(e) && e is IO
            }),
    {
        let x0 = self.read_u32()?;
        let x1 = self.read_u32()?;
        let x2 = self.read_u32()?;
        let x3 = self.read_u32()?;
        Ok(SoaFloat4 { x0, x1, x2, x3 })
    }

    /// Reads one SoA transform record (translation, rotation, scale) and
    /// advances the cursor.
    pub fn read_soa_transform(&mut self) -> (res: Result<SoaTransform, OzzError>)
        requires
            old(self).wf(),
        ensures
            final(self).wf(),
            final(self).spec_data() == old(self).spec_data(),
            final(self).spec_tag() == old(self).spec_tag(),
            final(self).spec_version() == old(self).spec_version(),
            (match sread_soa(old(self).spec_data(), old(self).spec_pos()) {
                SRead::Val(t, p) => res == Ok::<SoaTransform, OzzError>(t) && final(self).spec_pos() == p,
                _ => res matches Err(e) && e is IO,
            }),
    {
        let tx = self.read_f4()?;
        let ty = self.read_f4()?;
        let tz = self.read_f4()?;
        let rx = self.read_f4()?;
        let ry = self.read_f4()?;
        let rz = self.read_f4()?;
        let rw = self.read_f4()?;
        let sx = self.read_f4()?;
        let sy = self.read_f4()?;
        let sz = self.read_f4()?;
        Ok(
            SoaTransform {
                translation: SoaVec3 { x: tx, y: ty, z: tz },
                rotation: SoaQuat { x: rx, y: ry, z: rz, w: rw },
                scale: SoaVec3 { x: sx, y: sy, z: sz },
            },
        )
    }
}

/// Encoding of a u32 as little-endian bytes.
pub open spec fn senc_u32(v: u32) -> Seq<u8> {
    spec_u32_to_le_bytes(v)
}

/// Encoding of an i32: its u32 bit pattern, little-endian.
pub open spec fn senc_i32(v: i32) -> Seq<u8> {
    spec_u32_to_le_bytes(v as u32)
}

/// Encoding of an i16: its u16 bit pattern, little-endian.
pub open spec fn senc_i16(v: i16) -> Seq<u8> {
    spec_u16_to_le_bytes(v as u16)
}

/// Encoding of a string: a u32 byte count, then the UTF-8 bytes.
pub open spec fn senc_string(s: Seq<char>) -> Seq<u8> {
    senc_u32(encode_utf8(s).len() as u32) + encode_utf8(s)
}

/// Encoding of a run of strings, in order.
pub open spec fn senc_strings(ss: Seq<Seq<char>>) -> Seq<u8>
    decreases ss.len(),
{
    if ss.len() == 0 {
        Seq::empty()
    } else {
        senc_string(ss[0]) + senc_strings(ss.drop_first())
    }
}

/// Encoding of a packed run of i16 values.
pub open spec fn senc_i16_seq(s: Seq<i16>) -> Seq<u8>
    decreases s.len(),
{
    if s.len() == 0 {
        Seq::empty()
    } else {
        senc_i16(s[0]) + senc_i16_seq(s.drop_first())
    }
}

/// Encoding of an SoA lane quad: four u32 words.
pub open spec fn senc_f4(f: SoaFloat4) -> Seq<u8> {
    senc_u32(f.x0) + senc_u32(f.x1) + senc_u32(f.x2) + senc_u32(f.x3)
}

/// Encoding of an SoA 3-vector.
pub open spec fn senc_vec3(v: SoaVec3) -> Seq<u8> {
    senc_f4(v.x) + senc_f4(v.y) + senc_f4(v.z)
}

/// Encoding of an SoA quaternion.
pub open spec fn senc_quat(q: SoaQuat) -> Seq<u8> {
    senc_f4(q.x) + senc_f4(q.y) + senc_f4(q.z) + senc_f4(q.w)
}

/// Encoding of an SoA transform record: 160 bytes.
pub open spec fn senc_soa(t: SoaTransform) -> Seq<u8> {
    senc_vec3(t.translation) + senc_quat(t.rotation) + senc_vec3(t.scale)
}

/// Encoding of a run of SoA transform records.
pub open spec fn senc_soa_seq(s: Seq<SoaTransform>) -> Seq<u8>
    decreases s.len(),
{
    if s.len() == 0 {
        Seq::empty()
    } else {
        senc_soa(s[0]) + senc_soa_seq(s.drop_first())
    }
}

/// Appends the little-endian encoding of a u32.
pub fn write_u32(out: &mut Vec<u8>, v: u32)
    ensures
        final(out)@ == old(out)@ + senc_u32(v),
{
    let mut b = u32_to_le_bytes(v);
    out.append(&mut b);
}

/// Appends the little-endian encoding of an i32.
pub fn write_i32(out: &mut Vec<u8>, v: i32)
    ensures
        final(out)@ == old(out)@ + senc_i32(v),
{
    write_u32(out, #[verifier::truncate] (v as u32));
}

/// Appends the little-endian encoding of an i16.
pub fn write_i16(out: &mut Vec<u8>, v: i16)
    ensures
        final(out)@ == old(out)@ + senc_i16(v),
{
    let mut b = u16_to_le_bytes(#[verifier::truncate] (v as u16));
    out.append(&mut b);
}

/// Appends a length-prefixed string.
pub fn write_string(out: &mut Vec<u8>, s: &str)
    requires
        encode_utf8(s@).len() <= u32::MAX,
    ensures
        final(out)@ == old(out)@ + senc_string(s@),
{
    let bytes = s.as_bytes();
    write_u32(out, bytes.len() as u32);
    let mut b = slice_to_vec(bytes);
    out.append(&mut b);
}

/// Splitting a packed i16 run after its first element.
proof fn lemma_senc_i16_seq_snoc(s: Seq<i16>, v: i16)
    ensures
        senc_i16_seq(s.push(v)) == senc_i16_seq(s) + senc_i16(v),
    decreases s.len(),
{
    if s.len() == 0 {
        assert(s.push(v).drop_first() =~= s);
        assert(senc_i16_seq(s.push(v)) =~= senc_i16_seq(s) + senc_i16(v));
    } else {
        assert(s.push(v).drop_first() =~= s.drop_first().push(v));
        lemma_senc_i16_seq_snoc(s.drop_first(), v);
        assert(senc_i16_seq(s.push(v)) =~= senc_i16_seq(s) + senc_i16(v));
    }
}

/// Splitting an SoA record run after its first element.
proof fn lemma_senc_soa_seq_snoc(s: Seq<SoaTransform>, t: SoaTransform)
    ensures
        senc_soa_seq(s.push(t)) == senc_soa_seq(s) + senc_soa(t),
    decreases s.len(),
{
    if s.len() == 0 {
        assert(s.push(t).drop_first() =~= s);
        assert(senc_soa_seq(s.push(t)) =~= senc_soa_seq(s) + senc_soa(t));
    } else {
        assert(s.push(t).drop_first() =~= s.drop_first().push(t));
        lemma_senc_soa_seq_snoc(s.drop_first(), t);
        assert(senc_soa_seq(s.push(t)) =~= senc_soa_seq(s) + senc_soa(t));
    }
}

/// Splitting a string run after its first element.
pub proof fn lemma_senc_strings_snoc(ss: Seq<Seq<char>>, s: Seq<char>)
    ensures
        senc_strings(ss.push(s)) == senc_strings(ss) + senc_string(s),
    decreases ss.len(),
{
    if ss.len() == 0 {
        assert(ss.push(s).drop_first() =~= ss);
        assert(senc_strings(ss.push(s)) =~= senc_strings(ss) + senc_string(s));
    } else {
        assert(ss.push(s).drop_first() =~= ss.drop_first().push(s));
        lemma_senc_strings_snoc(ss.drop_first(), s);
        assert(senc_strings(ss.push(s)) =~= senc_strings(ss) + senc_string(s));
    }
}

/// Appends a packed run of i16 values.
pub fn write_i16_vec(out: &mut Vec<u8>, vs: &Vec<i16>)
    ensures
        final(out)@ == old(out)@ + senc_i16_seq(vs@),
{
    let ghost orig = out@;
    let mut i: usize = 0;
    while i < vs.len()
        invariant
            i <= vs@.len(),
            out@ == orig + senc_i16_seq(vs@.take(i as int)),
        decreases vs@.len() - i,
    {
        write_i16(out, vs[i]);
        proof {
            assert(vs@.take(i + 1) =~= vs@.take(i as int).push(vs@[i as int]));
            lemma_senc_i16_seq_snoc(vs@.take(i as int), vs@[i as int]);
            assert(orig + senc_i16_seq(vs@.take(i as int)) + senc_i16(vs@[i as int]) =~= orig
                + senc_i16_seq(vs@.take(i + 1)));
        }
        i = i + 1;
    }
    proof {
        assert(vs@.take(vs@.len() as int) =~= vs@);
    }
}

/// Appends one SoA lane quad.
fn write_f4(out: &mut Vec<u8>, f: &SoaFloat4)
    ensures
        final(out)@ == old(out)@ + senc_f4(*f),
{
    write_u32(out, f.x0);
    write_u32(out, f.x1);
    write_u32(out, f.x2);
    write_u32(out, f.x3);
    proof {
        assert(out@ =~= old(out)@ + senc_f4(*f));
    }
}

/// Appends one SoA transform record.
pub fn write_soa_transform(out: &mut Vec<u8>, t: &SoaTransform)
    ensures
        final(out)@ == old(out)@ + senc_soa(*t),
{
    write_f4(out, &t.translation.x);
    write_f4(out, &t.translation.y);
    write_f4(out, &t.translation.z);
    write_f4(out, &t.rotation.x);
    write_f4(out, &t.rotation.y);
    write_f4(out, &t.rotation.z);
    write_f4(out, &t.rotation.w);
    write_f4(out, &t.scale.x);
    write_f4(out, &t.scale.y);
    write_f4(out, &t.scale.z);
    proof {
        assert(out@ =~= old(out)@ + senc_soa(*t));
    }
}

/// Appends a run of SoA transform records.
pub fn write_soa_vec(out: &mut Vec<u8>, ts: &Vec<SoaTransform>)
    ensures
        final(out)@ == old(out)@ + senc_soa_seq(ts@),
{
    let ghost orig = out@;
    let mut i: usize = 0;
    while i < ts.len()
        invariant
            i <= ts@.len(),
            out@ == orig + senc_soa_seq(ts@.take(i as int)),
        decreases ts@.len() - i,
    {
        write_soa_transform(out, &ts[i]);
        proof {
            assert(ts@.take(i + 1) =~= ts@.take(i as int).push(ts@[i as int]));
            lemma_senc_soa_seq_snoc(ts@.take(i as int), ts@[i as int]);
            assert(orig + senc_soa_seq(ts@.take(i as int)) + senc_soa(ts@[i as int]) =~= orig
                + senc_soa_seq(ts@.take(i + 1)));
        }
        i = i + 1;
    }
    proof {
        assert(ts@.take(ts@.len() as int) =~= ts@);
    }
}

/// A u32 encoding is 4 bytes and decodes to the value.
pub proof fn lemma_u32_round(v: u32)
    ensures
        senc_u32(v).len() == 4,
        spec_u32_from_le_bytes(senc_u32(v)) == v,
{
    vstd::bytes::lemma_auto_spec_u32_to_from_le_bytes();
    assert(spec_u32_to_le_bytes(v).len() == 4);
}

/// A u16 encoding is 2 bytes and decodes to the value.
proof fn lemma_u16_round(v: u16)
    ensures
        spec_u16_to_le_bytes(v).len() == 2,
        spec_u16_from_le_bytes(spec_u16_to_le_bytes(v)) == v,
{
    vstd::bytes::lemma_auto_spec_u16_to_from_le_bytes();
    assert(spec_u16_to_le_bytes(v).len() == 2);
}

/// A string encoding is 4 bytes of length prefix plus the text bytes.
pub proof fn lemma_senc_string_len(s: Seq<char>)
    ensures
        senc_string(s).len() == 4 + encode_utf8(s).len(),
{
    lemma_u32_round(encode_utf8(s).len() as u32);
}

/// A lane quad encoding is 16 bytes.
proof fn lemma_senc_f4_len(f: SoaFloat4)
    ensures
        senc_f4(f).len() == 16,
{
    lemma_u32_round(f.x0);
    lemma_u32_round(f.x1);
    lemma_u32_round(f.x2);
    lemma_u32_round(f.x3);
}

/// A sub-window of a known window of `d` is the corresponding window of the
/// known bytes.
proof fn lemma_window(d: Seq<u8>, p: int, w: Seq<u8>, a: int, b: int)
    requires
        0 <= p,
        p + w.len() <= d.len(),
        d.subrange(p, p + w.len()) == w,
        0 <= a <= b <= w.len(),
    ensures
        d.subrange(p + a, p + b) == w.subrange(a, b),
{
    assert forall|i: int| 0 <= i < b - a implies d.subrange(p + a, p + b)[i] == w.subrange(
        a,
        b,
    )[i] by {
        assert(d.subrange(p, p + w.len())[a + i] == w[a + i]);
    }
    assert(d.subrange(p + a, p + b) =~= w.subrange(a, b));
}

/// An i16 survives the round trip through its u16 bit pattern.
proof fn lemma_i16_cast_round_trip(v: i16)
    ensures
        (v as u16) as i16 == v,
{
    assert((v as u16) as i16 == v) by (bit_vector);
}

/// An i32 survives the round trip through its u32 bit pattern.
proof fn lemma_i32_cast_round_trip(v: i32)
    ensures
        (v as u32) as i32 == v,
{
    assert((v as u32) as i32 == v) by (bit_vector);
}

/// Reading a u32 from its own encoding yields it back.
pub proof fn lemma_sread_u32_enc(d: Seq<u8>, p: int, v: u32)
    requires
        0 <= p,
        p + 4 <= d.len(),
        d.subrange(p, p + 4) == senc_u32(v),
    ensures
        sread_u32(d, p) == (SRead::Val(v, p + 4)),
{
    lemma_u32_round(v);
}

/// Reading an i32 from its own encoding yields it back.
pub proof fn lemma_sread_i32_enc(d: Seq<u8>, p: int, v: i32)
    requires
        0 <= p,
        p + 4 <= d.len(),
        d.subrange(p, p + 4) == senc_i32(v),
    ensures
        sread_i32(d, p) == (SRead::Val(v, p + 4)),
{
    lemma_sread_u32_enc(d, p, v as u32);
    lemma_i32_cast_round_trip(v);
}

/// A packed i16 run's encoding is two bytes per element.
pub proof fn lemma_senc_i16_seq_len(s: Seq<i16>)
    ensures
        senc_i16_seq(s).len() == 2 * s.len(),
    decreases s.len(),
{
    if s.len() > 0 {
        lemma_u16_round(s[0] as u16);
        lemma_senc_i16_seq_len(s.drop_first());
    }
}

/// Within a packed i16 run's encoding, element `k` occupies bytes
/// `[2k, 2k+2)`.
proof fn lemma_senc_i16_seq_index(s: Seq<i16>, k: int)
    requires
        0 <= k < s.len(),
    ensures
        senc_i16_seq(s).subrange(2 * k, 2 * k + 2) == senc_i16(s[k]),
    decreases k,
{
    lemma_u16_round(s[0] as u16);
    lemma_senc_i16_seq_len(s.drop_first());
    if k == 0 {
        assert(senc_i16_seq(s).subrange(0, 2) =~= senc_i16(s[0]));
    } else {
        lemma_senc_i16_seq_index(s.drop_first(), k - 1);
        assert(senc_i16_seq(s).subrange(2 * k, 2 * k + 2) =~= senc_i16_seq(
            s.drop_first(),
        ).subrange(2 * (k - 1), 2 * (k - 1) + 2));
    }
}

/// Reading a packed i16 run from its own encoding yields it back.
pub proof fn lemma_sread_i16_seq_enc(d: Seq<u8>, p: int, s: Seq<i16>)
    requires
        0 <= p,
        p + 2 * s.len() <= d.len(),
        d.subrange(p, p + 2 * s.len()) == senc_i16_seq(s),
    ensures
        sread_i16_seq(d, p, s.len()) == (SRead::Val(s, p + 2 * s.len())),
{
    lemma_senc_i16_seq_len(s);
    assert forall|k: int| 0 <= k < s.len() implies i16_at(d, p, k) == s[k] by {
        lemma_senc_i16_seq_index(s, k);
        lemma_window(d, p, senc_i16_seq(s), 2 * k, 2 * k + 2);
        lemma_u16_round(s[k] as u16);
        lemma_i16_cast_round_trip(s[k]);
    }
    assert(Seq::new(s.len(), |k: int| i16_at(d, p, k)) =~= s);
}

/// Reading a string from its own encoding yields it back.
pub proof fn lemma_sread_string_enc(d: Seq<u8>, p: int, s: Seq<char>)
    requires
        0 <= p,
        encode_utf8(s).len() <= u32::MAX,
        p + senc_string(s).len() <= d.len(),
        d.subrange(p, p + senc_string(s).len()) == senc_string(s),
    ensures
        sread_string(d, p) == (SRead::Val(s, p + senc_string(s).len())),
{
    broadcast use vstd::utf8::encode_utf8_valid_utf8, vstd::utf8::encode_utf8_decode_utf8;

    let eb = encode_utf8(s);
    let n = eb.len() as int;
    lemma_u32_round(eb.len() as u32);
    assert(senc_string(s).len() == 4 + n);
    lemma_window(d, p, senc_string(s), 0, 4);
    assert(senc_string(s).subrange(0, 4) =~= senc_u32(eb.len() as u32));
    lemma_sread_u32_enc(d, p, eb.len() as u32);
    lemma_window(d, p, senc_string(s), 4, 4 + n);
    assert(senc_string(s).subrange(4, 4 + n) =~= eb);
    assert(d.subrange(p + 4, p + 4 + n) == eb);
}

/// Reading a run of strings from its own encoding yields it back.
pub proof fn lemma_sread_strings_enc(d: Seq<u8>, p: int, ss: Seq<Seq<char>>)
    requires
        0 <= p,
        forall|i: int| 0 <= i < ss.len() ==> #[trigger] encode_utf8(ss[i]).len() <= u32::MAX,
        p + senc_strings(ss).len() <= d.len(),
        d.subrange(p, p + senc_strings(ss).len()) == senc_strings(ss),
    ensures
        sread_strings(d, p, ss.len()) == (SRead::Val(ss, p + senc_strings(ss).len())),
    decreases ss.len(),
{
    if ss.len() == 0 {
        assert(ss =~= Seq::<Seq<char>>::empty());
    } else {
        let first = senc_string(ss[0]);
        let rest = senc_strings(ss.drop_first());
        lemma_senc_string_len(ss[0]);
        assert(senc_strings(ss).len() == first.len() + rest.len());
        lemma_window(d, p, senc_strings(ss), 0, first.len() as int);
        assert(senc_strings(ss).subrange(0, first.len() as int) =~= first);
        lemma_sread_string_enc(d, p, ss[0]);
        let p1 = p + first.len();
        lemma_window(d, p, senc_strings(ss), first.len() as int, senc_strings(ss).len() as int);
        assert(senc_strings(ss).subrange(first.len() as int, senc_strings(ss).len() as int)
            =~= rest);
        assert(d.subrange(p1, p1 + rest.len()) == rest);
        assert(forall|i: int|
            0 <= i < ss.drop_first().len() ==> #[trigger] encode_utf8(
                ss.drop_first()[i],
            ).len() <= u32::MAX);
        lemma_sread_strings_enc(d, p1, ss.drop_first());
        assert(Seq::<Seq<char>>::empty().push(ss[0]) + ss.drop_first() =~= ss);
    }
}

/// Reading a lane quad from its own encoding yields it back.
proof fn lemma_sf4_enc(d: Seq<u8>, p: int, f: SoaFloat4)
    requires
        0 <= p,
        p + 16 <= d.len(),
        d.subrange(p, p + 16) == senc_f4(f),
    ensures
        sf4_at(d, p) == f,
{
    lemma_u32_round(f.x0);
    lemma_u32_round(f.x1);
    lemma_u32_round(f.x2);
    lemma_u32_round(f.x3);
    lemma_window(d, p, senc_f4(f), 0, 4);
    assert(senc_f4(f).subrange(0, 4) =~= senc_u32(f.x0));
    lemma_window(d, p, senc_f4(f), 4, 8);
    assert(senc_f4(f).subrange(4, 8) =~= senc_u32(f.x1));
    lemma_window(d, p, senc_f4(f), 8, 12);
    assert(senc_f4(f).subrange(8, 12) =~= senc_u32(f.x2));
    lemma_window(d, p, senc_f4(f), 12, 16);
    assert(senc_f4(f).subrange(12, 16) =~= senc_u32(f.x3));
}

/// An SoA record's encoding is 160 bytes.
pub proof fn lemma_senc_soa_len(t: SoaTransform)
    ensures
        senc_soa(t).len() == 160,
{
    lemma_senc_f4_len(t.translation.x);
    lemma_senc_f4_len(t.translation.y);
    lemma_senc_f4_len(t.translation.z);
    lemma_senc_f4_len(t.rotation.x);
    lemma_senc_f4_len(t.rotation.y);
    lemma_senc_f4_len(t.rotation.z);
    lemma_senc_f4_len(t.rotation.w);
    lemma_senc_f4_len(t.scale.x);
    lemma_senc_f4_len(t.scale.y);
    lemma_senc_f4_len(t.scale.z);
}

/// Reading an SoA record from its own encoding yields it back.
proof fn lemma_soa_enc(d: Seq<u8>, p: int, t: SoaTransform)
    requires
        0 <= p,
        p + 160 <= d.len(),
        d.subrange(p, p + 160) == senc_soa(t),
    ensures
        soa_at(d, p) == t,
{
    lemma_senc_f4_len(t.translation.x);
    lemma_senc_f4_len(t.translation.y);
    lemma_senc_f4_len(t.translation.z);
    lemma_senc_f4_len(t.rotation.x);
    lemma_senc_f4_len(t.rotation.y);
    lemma_senc_f4_len(t.rotation.z);
    lemma_senc_f4_len(t.rotation.w);
    lemma_senc_f4_len(t.scale.x);
    lemma_senc_f4_len(t.scale.y);
    lemma_senc_f4_len(t.scale.z);
    lemma_window(d, p, senc_soa(t), 0, 16);
    assert(senc_soa(t).subrange(0, 16) =~= senc_f4(t.translation.x));
    lemma_sf4_enc(d, p + 0, t.translation.x);
    lemma_window(d, p, senc_soa(t), 16, 32);
    assert(senc_soa(t).subrange(16, 32) =~= senc_f4(t.translation.y));
    lemma_sf4_enc(d, p + 16, t.translation.y);
    lemma_window(d, p, senc_soa(t), 32, 48);
    assert(senc_soa(t).subrange(32, 48) =~= senc_f4(t.translation.z));
    lemma_sf4_enc(d, p + 32, t.translation.z);
    lemma_window(d, p, senc_soa(t), 48, 64);
    assert(senc_soa(t).subrange(48, 64) =~= senc_f4(t.rotation.x));
    lemma_sf4_enc(d, p + 48, t.rotation.x);
    lemma_window(d, p, senc_soa(t), 64, 80);
    assert(senc_soa(t).subrange(64, 80) =~= senc_f4(t.rotation.y));
    lemma_sf4_enc(d, p + 64, t.rotation.y);
    lemma_window(d, p, senc_soa(t), 80, 96);
    assert(senc_soa(t).subrange(80, 96) =~= senc_f4(t.rotation.z));
    lemma_sf4_enc(d, p + 80, t.rotation.z);
    lemma_window(d, p, senc_soa(t), 96, 112);
    assert(senc_soa(t).subrange(96, 112) =~= senc_f4(t.rotation.w));
    lemma_sf4_enc(d, p + 96, t.rotation.w);
    lemma_window(d, p, senc_soa(t), 112, 128);
    assert(senc_soa(t).subrange(112, 128) =~= senc_f4(t.scale.x));
    lemma_sf4_enc(d, p + 112, t.scale.x);
    lemma_window(d, p, senc_soa(t), 128, 144);
    assert(senc_soa(t).subrange(128, 144) =~= senc_f4(t.scale.y));
    lemma_sf4_enc(d, p + 128, t.scale.y);
    lemma_window(d, p, senc_soa(t), 144, 160);
    assert(senc_soa(t).subrange(144, 160) =~= senc_f4(t.scale.z));
    lemma_sf4_enc(d, p + 144, t.scale.z);
}

/// An SoA record run's encoding is 160 bytes per record.
pub proof fn lemma_senc_soa_seq_len(s: Seq<SoaTransform>)
    ensures
        senc_soa_seq(s).len() == 160 * s.len(),
    decreases s.len(),
{
    if s.len() > 0 {
        lemma_senc_soa_len(s[0]);
        lemma_senc_soa_seq_len(s.drop_first());
    }
}

/// Within an SoA record run's encoding, record `k` occupies bytes
/// `[160k, 160k+160)`.
proof fn lemma_senc_soa_seq_index(s: Seq<SoaTransform>, k: int)
    requires
        0 <= k < s.len(),
    ensures
        senc_soa_seq(s).subrange(160 * k, 160 * k + 160) == senc_soa(s[k]),
    decreases k,
{
    lemma_senc_soa_len(s[0]);
    lemma_senc_soa_seq_len(s.drop_first());
    if k == 0 {
        assert(senc_soa_seq(s).subrange(0, 160) =~= senc_soa(s[0]));
    } else {
        lemma_senc_soa_seq_index(s.drop_first(), k - 1);
        assert(senc_soa_seq(s).subrange(160 * k, 160 * k + 160) =~= senc_soa_seq(
            s.drop_first(),
        ).subrange(160 * (k - 1), 160 * (k - 1) + 160));
    }
}

/// Reading an SoA record run from its own encoding yields it back.
pub proof fn lemma_sread_soa_seq_enc(d: Seq<u8>, p: int, s: Seq<SoaTransform>)
    requires
        0 <= p,
        p + 160 * s.len() <= d.len(),
        d.subrange(p, p + 160 * s.len()) == senc_soa_seq(s),
    ensures
        sread_soa_seq(d, p, s.len()) == (SRead::Val(s, p + 160 * s.len())),
{
    lemma_senc_soa_seq_len(s);
    assert forall|k: int| 0 <= k < s.len() implies soa_at(d, p + 160 * k) == s[k] by {
        lemma_senc_soa_seq_index(s, k);
        lemma_window(d, p, senc_soa_seq(s), 160 * k, 160 * k + 160);
        lemma_soa_enc(d, p + 160 * k, s[k]);
    }
    assert(Seq::new(s.len(), |k: int| soa_at(d, p + 160 * k)) =~= s);
}

/// A successfully read run of strings has one string per count, and each
/// string's UTF-8 encoding fits the u32 length prefix it was read from.
pub proof fn lemma_sread_strings_val(d: Seq<u8>, p: int, n: nat)
    ensures
        (match sread_strings(d, p, n) {
            SRead::Val(ss, e) => ss.len() == n && (forall|i: int|
                0 <= i < n ==> #[trigger] encode_utf8(ss[i]).len() <= u32::MAX),
            _ => true,
        }),
    decreases n,
{
    broadcast use vstd::utf8::decode_utf8_encode_utf8;

    if n > 0 {
        match sread_string(d, p) {
            SRead::Val(s, q) => {
                lemma_sread_strings_val(d, q, (n - 1) as nat);
                match sread_strings(d, q, (n - 1) as nat) {
                    SRead::Val(ss2, e) => {
                        match sread_u32(d, p) {
                            SRead::Val(len32, q1) => {
                                let bytes = d.subrange(q1, q1 + len32);
                                assert(encode_utf8(s) == bytes);
                                assert(encode_utf8(s).len() <= u32::MAX);
                            },
                            _ => {
                                assert(false);
                            },
                        }
                        let ss = Seq::<Seq<char>>::empty().push(s) + ss2;
                        assert forall|i: int| 0 <= i < n implies #[trigger] encode_utf8(
                            ss[i],
                        ).len() <= u32::MAX by {
                            if i == 0 {
                                assert(ss[0] == s);
                            } else {
                                assert(ss[i] == ss2[i - 1]);
                            }
                        }
                    },
                    _ => {},
                }
            },
            _ => {},
        }
    }
}

} // verus!
