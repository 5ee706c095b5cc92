//! Little-endian fields of the M3D format: the calls into `byteorder`, a
//! cursor that reads fields from a byte slice, and the writers that append
//! fields to an output buffer.

use vstd::prelude::*;
use vstd::bytes::{
    lemma_auto_spec_u32_to_from_le_bytes, lemma_auto_spec_u64_to_from_le_bytes,
    spec_u32_from_le_bytes, spec_u32_to_le_bytes, spec_u64_from_le_bytes, spec_u64_to_le_bytes,
};
use byteorder::{ByteOrder, LittleEndian};

verus! {

/// The four bytes of a signed 32-bit field: those of its two's complement bits.
pub open spec fn i32_bytes(x: i32) -> Seq<u8> {
    spec_u32_to_le_bytes(x as u32)
}

/// The value of a signed 32-bit field stored in `b`.
pub open spec fn i32_of_bytes(b: Seq<u8>) -> i32 {
    spec_u32_from_le_bytes(b) as i32
}

/// `byteorder::LittleEndian::read_u32` on the bytes from `pos` on: the
/// little-endian value of the four bytes at `pos`. It panics on fewer than four
/// bytes, which `requires` leaves out.
#[verifier::external_body]
fn le_read_u32(data: &[u8], pos: usize) -> (r: u32)
    requires
        pos + 4 <= data@.len(),
    ensures
        r == spec_u32_from_le_bytes(data@.subrange(pos as int, pos + 4)),
{
    LittleEndian::read_u32(&data[pos..])
}

/// `byteorder::LittleEndian::read_i32` on the bytes from `pos` on: the four
/// bytes at `pos` read as a little-endian `u32` and taken as an `i32`.
#[verifier::external_body]
fn le_read_i32(data: &[u8], pos: usize) -> (r: i32)
    requires
        pos + 4 <= data@.len(),
    ensures
        r == i32_of_bytes(data@.subrange(pos as int, pos + 4)),
{
    LittleEndian::read_i32(&data[pos..])
}

/// `byteorder::LittleEndian::read_u64` on the bytes from `pos` on: the
/// little-endian value of the eight bytes at `pos`.
#[verifier::external_body]
fn le_read_u64(data: &[u8], pos: usize) -> (r: u64)
    requires
        pos + 8 <= data@.len(),
    ensures
        r == spec_u64_from_le_bytes(data@.subrange(pos as int, pos + 8)),
{
    LittleEndian::read_u64(&data[pos..])
}

/// `byteorder::LittleEndian::write_u32` into a four-byte buffer: the
/// little-endian bytes of `n`.
#[verifier::external_body]
fn le_write_u32(n: u32) -> (r: [u8; 4])
    ensures
        r@ == spec_u32_to_le_bytes(n),
{
    let mut buf = [0u8; 4];
    LittleEndian::write_u32(&mut buf, n);
    buf
}

/// `byteorder::LittleEndian::write_i32` into a four-byte buffer: the
/// little-endian bytes of the two's complement bits of `n`.
#[verifier::external_body]
fn le_write_i32(n: i32) -> (r: [u8; 4])
    ensures
        r@ == i32_bytes(n),
{
    let mut buf = [0u8; 4];
    LittleEndian::write_i32(&mut buf, n);
    buf
}

/// `byteorder::LittleEndian::write_u64` into an eight-byte buffer: the
/// little-endian bytes of `n`.
#[verifier::external_body]
fn le_write_u64(n: u64) -> (r: [u8; 8])
    ensures
        r@ == spec_u64_to_le_bytes(n),
{
    let mut buf = [0u8; 8];
    LittleEndian::write_u64(&mut buf, n);
    buf
}

/// A `u32` field at the front of `s`, and what follows it.
pub open spec fn take_u32(s: Seq<u8>) -> Option<(u32, Seq<u8>)> {
    if s.len() >= 4 {
        Some((spec_u32_from_le_bytes(s.take(4)), s.skip(4)))
    } else {
        None
    }
}

/// An `i32` field at the front of `s`, and what follows it.
pub open spec fn take_i32(s: Seq<u8>) -> Option<(i32, Seq<u8>)> {
    if s.len() >= 4 {
        Some((i32_of_bytes(s.take(4)), s.skip(4)))
    } else {
        None
    }
}

/// A 64-bit field at the front of `s`, and what follows it.
pub open spec fn take_u64(s: Seq<u8>) -> Option<(u64, Seq<u8>)> {
    if s.len() >= 8 {
        Some((spec_u64_from_le_bytes(s.take(8)), s.skip(8)))
    } else {
        None
    }
}

/// An `i8` field at the front of `s`, and what follows it.
pub open spec fn take_i8(s: Seq<u8>) -> Option<(i8, Seq<u8>)> {
    if s.len() >= 1 {
        Some((s[0] as i8, s.skip(1)))
    } else {
        None
    }
}

/// Three `i32` fields at the front of `s`, and what follows them.
pub open spec fn take_vec_i32(s: Seq<u8>) -> Option<([i32; 3], Seq<u8>)> {
    if s.len() >= 12 {
        Some((
            [
                i32_of_bytes(s.subrange(0, 4)),
                i32_of_bytes(s.subrange(4, 8)),
                i32_of_bytes(s.subrange(8, 12)),
            ],
            s.skip(12),
        ))
    } else {
        None
    }
}

/// Three `i8` fields at the front of `s`, and what follows them.
pub open spec fn take_vec_i8(s: Seq<u8>) -> Option<([i8; 3], Seq<u8>)> {
    if s.len() >= 3 {
        Some(([s[0] as i8, s[1] as i8, s[2] as i8], s.skip(3)))
    } else {
        None
    }
}

/// The bytes of three `i32` fields.
pub open spec fn vec_i32_bytes(v: [i32; 3]) -> Seq<u8> {
    i32_bytes(v[0]) + i32_bytes(v[1]) + i32_bytes(v[2])
}

/// The bytes of three `i8` fields.
pub open spec fn vec_i8_bytes(v: [i8; 3]) -> Seq<u8> {
    seq![v[0] as u8, v[1] as u8, v[2] as u8]
}

/// The byte of an `i8` field.
pub open spec fn i8_bytes(x: i8) -> Seq<u8> {
    seq![x as u8]
}

/// What a reading step returned, `r`, and where it left the input, `after`,
/// agree with what the spec reader `p` takes from the input: nothing where `p`
/// fails, else its value and its rest.
pub open spec fn read_as<T>(r: Option<T>, after: Seq<u8>, p: Option<(T, Seq<u8>)>) -> bool {
    match p {
        Some((v, rest)) => r == Some(v) && after == rest,
        None => r is None,
    }
}

/// A reader of M3D fields over a byte slice: the slice and the position of the
/// next unread byte. A read that would run past the end of the bytes reads
/// nothing and returns `None`: a short file is an error that the caller gets
/// back, never a panic, and every reader built on the cursor passes it on.
pub struct Cursor<'a> {
    data: &'a [u8],
    pos: usize,
}

impl<'a> Cursor<'a> {
    #[verifier::type_invariant]
    spec fn inv(self) -> bool {
        self.pos <= self.data@.len()
    }

    /// The bytes not read yet.
    pub closed spec fn rest(self) -> Seq<u8> {
        self.data@.skip(self.pos as int)
    }

    /// The number of bytes read so far.
    pub closed spec fn consumed(self) -> int {
        self.pos as int
    }

    /// A cursor at the start of `data`.
    pub fn new(data: &'a [u8]) -> (c: Self)
        ensures
            c.rest() == data@,
            c.consumed() == 0,
    {
        assert(data@.skip(0) =~= data@);
        Cursor { data, pos: 0 }
    }

    /// The number of bytes read so far.
    pub fn position(&self) -> (p: usize)
        ensures
            p == self.consumed(),
    {
        self.pos
    }

    /// The number of bytes not read yet.
    pub fn remaining(&self) -> (n: usize)
        ensures
            n == self.rest().len(),
    {
        proof {
            use_type_invariant(self);
        }
        self.data.len() - self.pos
    }

    /// Reads a little-endian `u32`.
    pub fn read_u32(&mut self) -> (r: Option<u32>)
        ensures
            read_as(r, final(self).rest(), take_u32(old(self).rest())),
            r is Some ==> final(self).consumed() == old(self).consumed() + 4,
    {
        proof {
            use_type_invariant(&*self);
        }
        if self.data.len() - self.pos < 4 {
            return None;
        }
        let v = le_read_u32(self.data, self.pos);
        proof {
            assert(self.data@.subrange(self.pos as int, self.pos + 4) =~= self.rest().take(4));
        }
        self.pos = self.pos + 4;
        proof {
            assert(self.rest() =~= old(self).rest().skip(4));
        }
        Some(v)
    }
}


impl<'a> Cursor<'a> {
    /// Reads a little-endian `i32`.
    pub fn read_i32(&mut self) -> (r: Option<i32>)
        ensures
            read_as(r, final(self).rest(), take_i32(old(self).rest())),
            r is Some ==> final(self).consumed() == old(self).consumed() + 4,
    {
        proof {
            use_type_invariant(&*self);
        }
        if self.data.len() - self.pos < 4 {
            return None;
        }
        let v = le_read_i32(self.data, self.pos);
        proof {
            assert(self.data@.subrange(self.pos as int, self.pos + 4) =~= self.rest().take(4));
        }
        self.pos = self.pos + 4;
        proof {
            assert(self.rest() =~= old(self).rest().skip(4));
        }
        Some(v)
    }

    /// Reads a little-endian 64-bit word.
    pub fn read_u64(&mut self) -> (r: Option<u64>)
        ensures
            read_as(r, final(self).rest(), take_u64(old(self).rest())),
            r is Some ==> final(self).consumed() == old(self).consumed() + 8,
    {
        proof {
            use_type_invariant(&*self);
        }
        if self.data.len() - self.pos < 8 {
            return None;
        }
        let v = le_read_u64(self.data, self.pos);
        proof {
            assert(self.data@.subrange(self.pos as int, self.pos + 8) =~= self.rest().take(8));
        }
        self.pos = self.pos + 8;
        proof {
            assert(self.rest() =~= old(self).rest().skip(8));
        }
        Some(v)
    }

    /// Reads one byte as an `i8`.
    pub fn read_i8(&mut self) -> (r: Option<i8>)
        ensures
            read_as(r, final(self).rest(), take_i8(old(self).rest())),
            r is Some ==> final(self).consumed() == old(self).consumed() + 1,
    {
        proof {
            use_type_invariant(&*self);
        }
        if self.data.len() - self.pos < 1 {
            return None;
        }
        let b: u8 = self.data[self.pos];
        self.pos = self.pos + 1;
        proof {
            assert(self.rest() =~= old(self).rest().skip(1));
        }
        Some(b as i8)
    }
}

/// Reads three little-endian `i32` fields; `None`, a returned error and no
/// panic, where fewer than 12 bytes are left.
pub fn read_vec_i32(source: &mut Cursor) -> (r: Option<[i32; 3]>)
    ensures
        read_as(r, final(source).rest(), take_vec_i32(old(source).rest())),
{
    let ghost s = source.rest();
    let a = source.read_i32()?;
    let b = source.read_i32()?;
    let c = source.read_i32()?;
    proof {
        assert(s.take(4) =~= s.subrange(0, 4));
        assert(s.skip(4).take(4) =~= s.subrange(4, 8));
        assert(s.skip(8).take(4) =~= s.subrange(8, 12));
        assert(s.skip(4).skip(4) =~= s.skip(8));
        assert(s.skip(8).skip(4) =~= s.skip(12));
    }
    Some([a, b, c])
}

/// Reads three one-byte `i8` fields; `None`, a returned error and no panic,
/// where fewer than 3 bytes are left.
pub fn read_vec_i8(source: &mut Cursor) -> (r: Option<[i8; 3]>)
    ensures
        read_as(r, final(source).rest(), take_vec_i8(old(source).rest())),
{
    let ghost s = source.rest();
    let a = source.read_i8()?;
    let b = source.read_i8()?;
    let c = source.read_i8()?;
    proof {
        assert(s.skip(1).skip(1) =~= s.skip(2));
        assert(s.skip(2).skip(1) =~= s.skip(3));
    }
    Some([a, b, c])
}

/// Appends `n` as four little-endian bytes.
pub fn write_u32(dest: &mut Vec<u8>, n: u32)
    ensures
        final(dest)@ == old(dest)@ + spec_u32_to_le_bytes(n),
{
    let b = le_write_u32(n);
    dest.push(b[0]);
    dest.push(b[1]);
    dest.push(b[2]);
    dest.push(b[3]);
    assert(final(dest)@ =~= old(dest)@ + b@);
}

/// Appends `n` as four little-endian bytes of its two's complement bits.
pub fn write_i32(dest: &mut Vec<u8>, n: i32)
    ensures
        final(dest)@ == old(dest)@ + i32_bytes(n),
{
    let b = le_write_i32(n);
    dest.push(b[0]);
    dest.push(b[1]);
    dest.push(b[2]);
    dest.push(b[3]);
    assert(final(dest)@ =~= old(dest)@ + b@);
}

/// Appends `n` as eight little-endian bytes.
pub fn write_u64(dest: &mut Vec<u8>, n: u64)
    ensures
        final(dest)@ == old(dest)@ + spec_u64_to_le_bytes(n),
{
    let b = le_write_u64(n);
    let mut i: usize = 0;
    while i < 8
        invariant
            0 <= i <= 8,
            b@.len() == 8,
            dest@ == old(dest)@ + b@.take(i as int),
        decreases 8 - i,
    {
        dest.push(b[i]);
        i = i + 1;
        assert(dest@ =~= old(dest)@ + b@.take(i as int));
    }
    assert(b@.take(8) =~= b@);
}

/// Appends the byte of an `i8`.
pub fn write_i8(dest: &mut Vec<u8>, x: i8)
    ensures
        final(dest)@ == old(dest)@ + i8_bytes(x),
{
    dest.push(x as u8);
    assert(final(dest)@ =~= old(dest)@ + i8_bytes(x));
}

/// Appends three `i32` fields.
pub fn write_vec_i32(dest: &mut Vec<u8>, v: [i32; 3])
    ensures
        final(dest)@ == old(dest)@ + vec_i32_bytes(v),
{
    write_i32(dest, v[0]);
    write_i32(dest, v[1]);
    write_i32(dest, v[2]);
    assert(final(dest)@ =~= old(dest)@ + vec_i32_bytes(v));
}

/// Appends three `i8` fields.
pub fn write_vec_i8(dest: &mut Vec<u8>, v: [i8; 3])
    ensures
        final(dest)@ == old(dest)@ + vec_i8_bytes(v),
{
    write_i8(dest, v[0]);
    write_i8(dest, v[1]);
    write_i8(dest, v[2]);
    assert(final(dest)@ =~= old(dest)@ + vec_i8_bytes(v));
}


/// A `u32` field reads back as the value written, leaving what followed it.
pub proof fn lemma_take_u32(n: u32, rest: Seq<u8>)
    ensures
        take_u32(spec_u32_to_le_bytes(n) + rest) == Some((n, rest)),
{
    lemma_auto_spec_u32_to_from_le_bytes();
    let b = spec_u32_to_le_bytes(n);
    assert((b + rest).take(4) =~= b);
    assert((b + rest).skip(4) =~= rest);
}

/// An `i32` field reads back as the value written, leaving what followed it.
pub proof fn lemma_take_i32(n: i32, rest: Seq<u8>)
    ensures
        take_i32(i32_bytes(n) + rest) == Some((n, rest)),
{
    lemma_auto_spec_u32_to_from_le_bytes();
    let b = i32_bytes(n);
    assert((b + rest).take(4) =~= b);
    assert((b + rest).skip(4) =~= rest);
    assert((n as u32) as i32 == n) by (bit_vector);
}

/// A 64-bit field reads back as the value written, leaving what followed it.
pub proof fn lemma_take_u64(n: u64, rest: Seq<u8>)
    ensures
        take_u64(spec_u64_to_le_bytes(n) + rest) == Some((n, rest)),
{
    lemma_auto_spec_u64_to_from_le_bytes();
    let b = spec_u64_to_le_bytes(n);
    assert((b + rest).take(8) =~= b);
    assert((b + rest).skip(8) =~= rest);
}

/// An `i8` field reads back as the value written, leaving what followed it.
pub proof fn lemma_take_i8(x: i8, rest: Seq<u8>)
    ensures
        take_i8(i8_bytes(x) + rest) == Some((x, rest)),
{
    assert((i8_bytes(x) + rest).skip(1) =~= rest);
    assert((x as u8) as i8 == x) by (bit_vector);
}

/// Three `i32` fields read back as the values written.
pub proof fn lemma_take_vec_i32(v: [i32; 3], rest: Seq<u8>)
    ensures
        take_vec_i32(vec_i32_bytes(v) + rest) == Some((v, rest)),
{
    lemma_auto_spec_u32_to_from_le_bytes();
    let s = vec_i32_bytes(v) + rest;
    assert(s.subrange(0, 4) =~= i32_bytes(v[0]));
    assert(s.subrange(4, 8) =~= i32_bytes(v[1]));
    assert(s.subrange(8, 12) =~= i32_bytes(v[2]));
    assert(s.skip(12) =~= rest);
    let x = v[0];
    let y = v[1];
    let z = v[2];
    assert((x as u32) as i32 == x) by (bit_vector);
    assert((y as u32) as i32 == y) by (bit_vector);
    assert((z as u32) as i32 == z) by (bit_vector);
    let w: [i32; 3] = [
        i32_of_bytes(s.subrange(0, 4)),
        i32_of_bytes(s.subrange(4, 8)),
        i32_of_bytes(s.subrange(8, 12)),
    ];
    assert(w@ =~= v@);
}

/// Three `i8` fields read back as the values written.
pub proof fn lemma_take_vec_i8(v: [i8; 3], rest: Seq<u8>)
    ensures
        take_vec_i8(vec_i8_bytes(v) + rest) == Some((v, rest)),
{
    let s = vec_i8_bytes(v) + rest;
    assert(s.skip(3) =~= rest);
    let x = v[0];
    let y = v[1];
    let z = v[2];
    assert((x as u8) as i8 == x) by (bit_vector);
    assert((y as u8) as i8 == y) by (bit_vector);
    assert((z as u8) as i8 == z) by (bit_vector);
    let w: [i8; 3] = [s[0] as i8, s[1] as i8, s[2] as i8];
    assert(w@ =~= v@);
}

} // verus!
