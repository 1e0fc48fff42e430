//! Primitive readers for the binary files.
//!
//! All multi-byte integers are little-endian. An artist identifier is sixteen
//! bytes, read as one big-endian number. A string is a little-endian `u16`
//! length followed by that many bytes of UTF-8. A reader that finds fewer bytes
//! than it needs reports it and leaves the cursor where it was.

use byteorder::ByteOrder;
use byteorder::LittleEndian;
use uuid::Uuid;
use vstd::prelude::*;
use vstd::slice::slice_subrange;
use vstd::slice::slice_to_vec;
use vstd::utf8::decode_utf8;
use vstd::utf8::encode_utf8;
use vstd::utf8::valid_utf8;

verus! {

/// Why a read failed.
#[derive(Debug, Clone, Copy, PartialEq, Eq, Structural)]
pub enum ReadError {
    /// Fewer bytes are left than the value needs.
    Truncated,
    /// The bytes of a string are not UTF-8.
    InvalidUtf8,
    /// An adjacency record belongs to another artist than the one asked for.
    WrongArtist,
}

/// The number that the first two bytes of `b` spell, low byte first.
pub open spec fn spec_u16_le(b: Seq<u8>) -> u16 {
    (b[0] as int + b[1] as int * 0x100) as u16
}

/// The number that the first four bytes of `b` spell, low byte first.
pub open spec fn spec_u32_le(b: Seq<u8>) -> u32 {
    (b[0] as int + b[1] as int * 0x100 + b[2] as int * 0x1_0000 + b[3] as int * 0x100_0000) as u32
}

/// The number that the first eight bytes of `b` spell, low byte first.
pub open spec fn spec_u64_le(b: Seq<u8>) -> u64 {
    (spec_u32_le(b) as int + spec_u32_le(b.skip(4)) as int * 0x1_0000_0000) as u64
}

/// The number that the bytes of `b` spell, high byte first.
pub open spec fn be_value(b: Seq<u8>) -> nat
    decreases b.len(),
{
    if b.len() == 0 {
        0
    } else {
        be_value(b.drop_last()) * 256 + b.last() as nat
    }
}

/// The artist identifier that sixteen bytes spell.
pub open spec fn spec_id(b: Seq<u8>) -> u128 {
    be_value(b) as u128
}

/// The `u16` stored at `pos`.
pub open spec fn u16_at(data: Seq<u8>, pos: int) -> u16 {
    spec_u16_le(data.subrange(pos, pos + 2))
}

/// The `u32` stored at `pos`.
pub open spec fn u32_at(data: Seq<u8>, pos: int) -> u32 {
    spec_u32_le(data.subrange(pos, pos + 4))
}

/// The `u64` stored at `pos`.
pub open spec fn u64_at(data: Seq<u8>, pos: int) -> u64 {
    spec_u64_le(data.subrange(pos, pos + 8))
}

/// The artist identifier stored at `pos`.
pub open spec fn id_at(data: Seq<u8>, pos: int) -> u128 {
    spec_id(data.subrange(pos, pos + 16))
}


/// The two bytes that spell a number, low byte first.
pub open spec fn u16_bytes(v: u16) -> Seq<u8> {
    seq![(v % 0x100) as u8, (v / 0x100) as u8]
}

/// The four bytes that spell a number, low byte first.
pub open spec fn u32_bytes(v: u32) -> Seq<u8> {
    seq![
        (v % 0x100) as u8,
        ((v / 0x100) % 0x100) as u8,
        ((v / 0x1_0000) % 0x100) as u8,
        (v / 0x100_0000) as u8,
    ]
}

/// The eight bytes that spell a number, low byte first.
pub open spec fn u64_bytes(v: u64) -> Seq<u8> {
    u32_bytes((v % 0x1_0000_0000) as u32) + u32_bytes((v / 0x1_0000_0000) as u32)
}

/// The `n` bytes that spell a number, high byte first.
pub open spec fn be_bytes(v: nat, n: nat) -> Seq<u8>
    decreases n,
{
    if n == 0 {
        Seq::empty()
    } else {
        be_bytes(v / 256, (n - 1) as nat).push((v % 256) as u8)
    }
}

/// The sixteen bytes of an artist identifier.
pub open spec fn id_bytes(id: u128) -> Seq<u8> {
    be_bytes(id as nat, 16)
}

/// A string as it is stored: the length of its UTF-8 form, then that form.
pub open spec fn string_bytes(s: Seq<char>) -> Seq<u8> {
    u16_bytes(encode_utf8(s).len() as u16) + encode_utf8(s)
}

/// Whether `enc` stands in `data` at `pos`.
pub open spec fn placed(data: Seq<u8>, pos: int, enc: Seq<u8>) -> bool {
    0 <= pos && pos + enc.len() <= data.len() && data.subrange(pos, pos + enc.len()) == enc
}

/// Where two pieces stand one behind the other, each of them stands where
/// it does.
pub proof fn lemma_placed_split(data: Seq<u8>, pos: int, a: Seq<u8>, b: Seq<u8>)
    requires
        placed(data, pos, a + b),
    ensures
        placed(data, pos, a),
        placed(data, pos + a.len(), b),
{
    let whole = data.subrange(pos, pos + (a + b).len());
    assert(data.subrange(pos, pos + a.len()) =~= whole.subrange(0, a.len() as int));
    assert((a + b).subrange(0, a.len() as int) =~= a);
    assert(data.subrange(pos + a.len(), pos + a.len() + b.len()) =~= whole.subrange(
        a.len() as int,
        (a + b).len() as int,
    ));
    assert((a + b).subrange(a.len() as int, (a + b).len() as int) =~= b);
}

/// A `u16` that was stored is the one read.
pub proof fn lemma_u16_at(data: Seq<u8>, pos: int, v: u16)
    requires
        placed(data, pos, u16_bytes(v)),
    ensures
        u16_at(data, pos) == v,
{
}

/// A `u32` that was stored is the one read.
pub proof fn lemma_u32_at(data: Seq<u8>, pos: int, v: u32)
    requires
        placed(data, pos, u32_bytes(v)),
    ensures
        u32_at(data, pos) == v,
{
}

/// Four bytes that spell a number spell it back.
proof fn lemma_u32_round(v: u32)
    ensures
        spec_u32_le(u32_bytes(v)) == v,
{
}

/// What four bytes spell depends on those bytes alone.
proof fn lemma_u32_same(b: Seq<u8>, c: Seq<u8>)
    requires
        b.len() >= 4,
        c.len() >= 4,
        b[0] == c[0],
        b[1] == c[1],
        b[2] == c[2],
        b[3] == c[3],
    ensures
        spec_u32_le(b) == spec_u32_le(c),
{
}

/// A `u64` that was stored is the one read.
pub proof fn lemma_u64_at(data: Seq<u8>, pos: int, v: u64)
    requires
        placed(data, pos, u64_bytes(v)),
    ensures
        u64_at(data, pos) == v,
{
    let low = (v % 0x1_0000_0000) as u32;
    let high = (v / 0x1_0000_0000) as u32;
    let b = data.subrange(pos, pos + 8);
    assert(u64_bytes(v).len() == 8);
    assert(b == u32_bytes(low) + u32_bytes(high));
    lemma_u32_round(low);
    lemma_u32_round(high);
    lemma_u32_same(b, u32_bytes(low));
    lemma_u32_same(b.skip(4), u32_bytes(high));
    assert(v == low + high * 0x1_0000_0000);
}

/// The largest number that `n` bytes spell, and one.
pub open spec fn byte_limit(n: nat) -> nat
    decreases n,
{
    if n == 0 {
        1
    } else {
        256 * byte_limit((n - 1) as nat)
    }
}

/// Bytes that spell a number, high byte first, spell it back.
pub proof fn lemma_be_round(v: nat, n: nat)
    requires
        v < byte_limit(n),
    ensures
        be_bytes(v, n).len() == n,
        be_value(be_bytes(v, n)) == v,
    decreases n,
{
    if n > 0 {
        lemma_be_round(v / 256, (n - 1) as nat);
        let b = be_bytes(v, n);
        assert(b.drop_last() =~= be_bytes(v / 256, (n - 1) as nat));
        assert(b.last() == (v % 256) as u8);
    }
}

/// An identifier that was stored is the one read.
pub proof fn lemma_id_at(data: Seq<u8>, pos: int, id: u128)
    requires
        placed(data, pos, id_bytes(id)),
    ensures
        id_bytes(id).len() == 16,
        id_at(data, pos) == id,
{
    reveal_with_fuel(byte_limit, 17);
    assert(byte_limit(16) == 0x1_0000_0000_0000_0000_0000_0000_0000_0000);
    lemma_be_round(id as nat, 16);
}

/// A string that was stored is the one read.
pub proof fn lemma_string_at(data: Seq<u8>, pos: int, s: Seq<char>)
    requires
        encode_utf8(s).len() <= 0xffff,
        placed(data, pos, string_bytes(s)),
    ensures
        string_bytes(s).len() == 2 + encode_utf8(s).len(),
        string_at(data, pos) == Ok::<(Seq<char>, int), ReadError>(
            (s, pos + string_bytes(s).len()),
        ),
{
    let bytes = encode_utf8(s);
    lemma_placed_split(data, pos, u16_bytes(bytes.len() as u16), bytes);
    lemma_u16_at(data, pos, bytes.len() as u16);
    vstd::utf8::encode_utf8_valid_utf8(s);
    vstd::utf8::encode_utf8_decode_utf8(s);
}

/// `byteorder::LittleEndian::read_u16`: the first two bytes, low byte first.
#[verifier::external_body]
fn le_u16(buf: &[u8]) -> (r: u16)
    requires
        buf@.len() >= 2,
    ensures
        r == spec_u16_le(buf@),
{
    LittleEndian::read_u16(buf)
}

/// `byteorder::LittleEndian::read_u32`: the first four bytes, low byte first.
#[verifier::external_body]
fn le_u32(buf: &[u8]) -> (r: u32)
    requires
        buf@.len() >= 4,
    ensures
        r == spec_u32_le(buf@),
{
    LittleEndian::read_u32(buf)
}

/// `byteorder::LittleEndian::read_u64`: the first eight bytes, low byte first.
#[verifier::external_body]
fn le_u64(buf: &[u8]) -> (r: u64)
    requires
        buf@.len() >= 8,
    ensures
        r == spec_u64_le(buf@),
{
    LittleEndian::read_u64(buf)
}

/// `uuid::Uuid::from_slice` followed by `Uuid::as_u128`: the sixteen bytes
/// packed into one number, first byte highest.
#[verifier::external_body]
fn id_from_bytes(buf: &[u8]) -> (r: u128)
    requires
        buf@.len() == 16,
    ensures
        r == spec_id(buf@),
{
    match Uuid::from_slice(buf) {
        Ok(id) => id.as_u128(),
        Err(_) => 0,
    }
}

/// `String::from_utf8`: the string that the bytes encode, where they are
/// UTF-8, and nothing where they are not.
#[verifier::external_body]
fn string_from_utf8(bytes: Vec<u8>) -> (r: Option<String>)
    ensures
        r.is_some() == valid_utf8(bytes@),
        r.is_some() ==> r.unwrap()@ == decode_utf8(bytes@),
{
    match String::from_utf8(bytes) {
        Ok(s) => Some(s),
        Err(_) => None,
    }
}

/// The `u16` at `pos`, where two bytes are there.
pub fn read_u16_at(data: &[u8], pos: usize) -> (r: Option<u16>)
    ensures
        r == (if pos + 2 <= data@.len() { Some(u16_at(data@, pos as int)) } else { None::<u16> }),
{
    if pos <= data.len() && data.len() - pos >= 2 {
        Some(le_u16(slice_subrange(data, pos, pos + 2)))
    } else {
        None
    }
}

/// The `u32` at `pos`, where four bytes are there.
pub fn read_u32_at(data: &[u8], pos: usize) -> (r: Option<u32>)
    ensures
        r == (if pos + 4 <= data@.len() { Some(u32_at(data@, pos as int)) } else { None::<u32> }),
{
    if pos <= data.len() && data.len() - pos >= 4 {
        Some(le_u32(slice_subrange(data, pos, pos + 4)))
    } else {
        None
    }
}

/// The `u64` at `pos`, where eight bytes are there.
pub fn read_u64_at(data: &[u8], pos: usize) -> (r: Option<u64>)
    ensures
        r == (if pos + 8 <= data@.len() { Some(u64_at(data@, pos as int)) } else { None::<u64> }),
{
    if pos <= data.len() && data.len() - pos >= 8 {
        Some(le_u64(slice_subrange(data, pos, pos + 8)))
    } else {
        None
    }
}

/// The artist identifier at `pos`, where sixteen bytes are there.
pub fn read_id_at(data: &[u8], pos: usize) -> (r: Option<u128>)
    ensures
        r == (if pos + 16 <= data@.len() { Some(id_at(data@, pos as int)) } else { None::<u128> }),
{
    if pos <= data.len() && data.len() - pos >= 16 {
        Some(id_from_bytes(slice_subrange(data, pos, pos + 16)))
    } else {
        None
    }
}

/// What reading a length-prefixed string at `pos` gives: the string and the
/// position behind it.
pub open spec fn string_at(data: Seq<u8>, pos: int) -> Result<(Seq<char>, int), ReadError> {
    if pos + 2 > data.len() {
        Err(ReadError::Truncated)
    } else {
        let len = u16_at(data, pos) as int;
        if pos + 2 + len > data.len() {
            Err(ReadError::Truncated)
        } else {
            let bytes = data.subrange(pos + 2, pos + 2 + len);
            if valid_utf8(bytes) {
                Ok((decode_utf8(bytes), pos + 2 + len))
            } else {
                Err(ReadError::InvalidUtf8)
            }
        }
    }
}

/// A reading position in a byte range.
pub struct Cursor<'a> {
    data: &'a [u8],
    pos: usize,
}

impl<'a> Cursor<'a> {
    #[verifier::type_invariant]
    spec fn within(self) -> bool {
        self.pos <= self.data@.len()
    }

    /// The bytes that the cursor reads.
    pub closed spec fn bytes(self) -> Seq<u8> {
        self.data@
    }

    /// The offset of the next byte to read.
    pub closed spec fn offset(self) -> int {
        self.pos as int
    }

    /// A cursor at `pos`, or at the end of `data` where `pos` lies behind it.
    pub fn new(data: &'a [u8], pos: usize) -> (r: Self)
        ensures
            r.bytes() == data@,
            r.offset() == (if pos <= data@.len() { pos as int } else { data@.len() as int }),
    {
        let pos = if pos <= data.len() { pos } else { data.len() };
        Cursor { data, pos }
    }

    /// The offset of the next byte to read.
    pub fn position(&self) -> (r: usize)
        ensures
            r == self.offset(),
            r <= self.bytes().len(),
    {
        proof {
            use_type_invariant(self);
        }
        self.pos
    }

    /// Reads a little-endian `u16`.
    pub fn read_u16(&mut self) -> (r: Result<u16, ReadError>)
        ensures
            final(self).bytes() == old(self).bytes(),
            old(self).offset() + 2 <= old(self).bytes().len() ==> r == Ok::<u16, ReadError>(
                u16_at(old(self).bytes(), old(self).offset()),
            ) && final(self).offset() == old(self).offset() + 2,
            old(self).offset() + 2 > old(self).bytes().len() ==> r == Err::<u16, ReadError>(
                ReadError::Truncated,
            ) && final(self).offset() == old(self).offset(),
    {
        proof {
            use_type_invariant(&*self);
        }
        let pos = self.pos;
        let total = self.data.len();
        match read_u16_at(self.data, pos) {
            Some(v) => {
                assert(pos + 2 <= total);
                self.pos = pos + 2;
                Ok(v)
            },
            None => Err(ReadError::Truncated),
        }
    }

    /// Reads a little-endian `u32`.
    pub fn read_u32(&mut self) -> (r: Result<u32, ReadError>)
        ensures
            final(self).bytes() == old(self).bytes(),
            old(self).offset() + 4 <= old(self).bytes().len() ==> r == Ok::<u32, ReadError>(
                u32_at(old(self).bytes(), old(self).offset()),
            ) && final(self).offset() == old(self).offset() + 4,
            old(self).offset() + 4 > old(self).bytes().len() ==> r == Err::<u32, ReadError>(
                ReadError::Truncated,
            ) && final(self).offset() == old(self).offset(),
    {
        proof {
            use_type_invariant(&*self);
        }
        let pos = self.pos;
        let total = self.data.len();
        match read_u32_at(self.data, pos) {
            Some(v) => {
                assert(pos + 4 <= total);
                self.pos = pos + 4;
                Ok(v)
            },
            None => Err(ReadError::Truncated),
        }
    }

    /// Reads a little-endian `u64`.
    pub fn read_u64(&mut self) -> (r: Result<u64, ReadError>)
        ensures
            final(self).bytes() == old(self).bytes(),
            old(self).offset() + 8 <= old(self).bytes().len() ==> r == Ok::<u64, ReadError>(
                u64_at(old(self).bytes(), old(self).offset()),
            ) && final(self).offset() == old(self).offset() + 8,
            old(self).offset() + 8 > old(self).bytes().len() ==> r == Err::<u64, ReadError>(
                ReadError::Truncated,
            ) && final(self).offset() == old(self).offset(),
    {
        proof {
            use_type_invariant(&*self);
        }
        let pos = self.pos;
        let total = self.data.len();
        match read_u64_at(self.data, pos) {
            Some(v) => {
                assert(pos + 8 <= total);
                self.pos = pos + 8;
                Ok(v)
            },
            None => Err(ReadError::Truncated),
        }
    }

    /// Reads a sixteen-byte artist identifier.
    pub fn read_id(&mut self) -> (r: Result<u128, ReadError>)
        ensures
            final(self).bytes() == old(self).bytes(),
            old(self).offset() + 16 <= old(self).bytes().len() ==> r == Ok::<u128, ReadError>(
                id_at(old(self).bytes(), old(self).offset()),
            ) && final(self).offset() == old(self).offset() + 16,
            old(self).offset() + 16 > old(self).bytes().len() ==> r == Err::<u128, ReadError>(
                ReadError::Truncated,
            ) && final(self).offset() == old(self).offset(),
    {
        proof {
            use_type_invariant(&*self);
        }
        let pos = self.pos;
        let total = self.data.len();
        match read_id_at(self.data, pos) {
            Some(v) => {
                assert(pos + 16 <= total);
                self.pos = pos + 16;
                Ok(v)
            },
            None => Err(ReadError::Truncated),
        }
    }

    /// Reads a string: a `u16` length, then that many bytes of UTF-8.
    pub fn read_string(&mut self) -> (r: Result<String, ReadError>)
        ensures
            final(self).bytes() == old(self).bytes(),
            match string_at(old(self).bytes(), old(self).offset()) {
                Ok((chars, next)) => r.is_ok() && r.unwrap()@ == chars && final(self).offset()
                    == next,
                Err(e) => r == Err::<String, ReadError>(e) && final(self).offset() == old(
                    self,
                ).offset(),
            },
    {
        proof {
            use_type_invariant(&*self);
        }
        let pos = self.pos;
        let total = self.data.len();
        let len = match read_u16_at(self.data, pos) {
            Some(v) => v as usize,
            None => {
                return Err(ReadError::Truncated);
            },
        };
        assert(pos + 2 <= total);
        let start = pos + 2;
        if total - start < len {
            return Err(ReadError::Truncated);
        }
        let raw = slice_to_vec(slice_subrange(self.data, start, start + len));
        match string_from_utf8(raw) {
            Some(s) => {
                self.pos = start + len;
                Ok(s)
            },
            None => Err(ReadError::InvalidUtf8),
        }
    }
}

} // verus!
