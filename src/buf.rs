//! The position/limit-tracked byte buffer.
use vstd::prelude::*;
use vstd::string::*;
use vstd::utf8::{decode_utf8, encode_utf8_decode_utf8, valid_utf8};

use crate::codec::{
    decode_fixed, decode_fixed_exec, encode_fixed, encode_fixed_exec, lemma_fixed_round_trip,
    lemma_le_value_bound, lemma_pow256_values, lemma_varint_size_bounds, pow256, reversed,
    varint_bytes, varint_decode, varint_decoded, varint_decoded_len, varint_decodes, varint_encode,
    varint_len,
};
use crate::error::{IOError, IOErrorCode, IOResult};

verus! {

/// The backing storage of a buffer: owned by it, or lent to it for its lifetime.
pub enum Storage<'a> {
    Owned(Vec<u8>),
    Borrowed(&'a mut Vec<u8>),
}

/// A fixed-capacity byte region with a cursor (`position`) and a boundary
/// (`limit`) for reading and writing numbers, varints, strings and raw bytes.
pub struct ByteBuffer<'a> {
    storage: Storage<'a>,
    pos: usize,
    limit: usize,
    little_endian: bool,
}

/// `s` with the bytes from `at` on replaced by `t`.
pub open spec fn splice(s: Seq<u8>, at: int, t: Seq<u8>) -> Seq<u8> {
    s.subrange(0, at) + t + s.subrange(at + t.len(), s.len() as int)
}

/// The bytes of a string frame: the varint of the payload's length, then the payload.
pub open spec fn str_frame(payload: Seq<u8>) -> Seq<u8> {
    varint_bytes(payload.len()) + payload
}

/// `s` starts with a decodable length prefix followed by at least that many bytes.
pub open spec fn str_frame_fits(s: Seq<u8>) -> bool {
    varint_decodes(s) && varint_decoded_len(s) + varint_decoded(s) <= s.len()
}

/// The payload of the string frame at the start of `s`.
pub open spec fn str_payload(s: Seq<u8>) -> Seq<u8> {
    s.subrange(varint_decoded_len(s) as int, (varint_decoded_len(s) + varint_decoded(s)) as int)
}

/// Relies on u16::to_ne_bytes: the two bytes of `x` in the host's byte order,
/// which puts either the least or the most significant byte first.
#[verifier::external_body]
fn u16_native_bytes(x: u16) -> (r: [u8; 2])
    ensures
        r@ == encode_fixed(x as nat, 2, true) || r@ == encode_fixed(x as nat, 2, false),
{
    x.to_ne_bytes()
}

/// Relies on std::str::from_utf8: it accepts exactly the valid UTF-8 byte
/// sequences and returns them as text without copying.
#[verifier::external_body]
fn utf8_text(b: &[u8]) -> (r: Option<&str>)
    ensures
        r is Some <==> valid_utf8(b@),
        r matches Some(t) ==> t.spec_bytes() == b@,
{
    std::str::from_utf8(b).ok()
}

/// Whether the host stores the least significant byte first.
fn host_is_little_endian() -> bool {
    let b = u16_native_bytes(1);
    b[0] == 1
}

/// The bytes of the storage.
pub open spec fn storage_view(st: &Storage) -> Seq<u8> {
    match st {
        Storage::Owned(v) => v@,
        Storage::Borrowed(r) => (**r)@,
    }
}

fn storage_data<'b>(st: &'b Storage) -> (s: &'b [u8])
    ensures
        s@ == storage_view(st),
{
    match st {
        Storage::Owned(v) => v.as_slice(),
        Storage::Borrowed(r) => r.as_slice(),
    }
}

impl<'a> ByteBuffer<'a> {
    /// The whole backing storage; its length is the capacity.
    pub closed spec fn spec_bytes(&self) -> Seq<u8> {
        storage_view(&self.storage)
    }

    pub closed spec fn spec_position(&self) -> nat {
        self.pos as nat
    }

    pub closed spec fn spec_limit(&self) -> nat {
        self.limit as nat
    }

    /// The byte order of fixed-width values: the host's, fixed at creation.
    pub closed spec fn spec_little_endian(&self) -> bool {
        self.little_endian
    }

    pub closed spec fn spec_owned(&self) -> bool {
        self.storage is Owned
    }

    pub open spec fn spec_capacity(&self) -> nat {
        self.spec_bytes().len()
    }

    pub open spec fn spec_remaining(&self) -> int {
        self.spec_limit() - self.spec_position()
    }

    /// `0 <= position <= limit <= capacity`.
    pub open spec fn wf(&self) -> bool {
        self.spec_position() <= self.spec_limit() <= self.spec_capacity() <= usize::MAX
    }

    /// `self` and `o` agree on everything but the position.
    pub open spec fn same_but_position(&self, o: &Self) -> bool {
        &&& self.spec_bytes() == o.spec_bytes()
        &&& self.spec_limit() == o.spec_limit()
        &&& self.spec_little_endian() == o.spec_little_endian()
        &&& self.spec_owned() == o.spec_owned()
    }

    /// `self` and `o` agree on everything but the contents.
    pub open spec fn same_but_contents(&self, o: &Self) -> bool {
        &&& self.spec_bytes().len() == o.spec_bytes().len()
        &&& self.spec_position() == o.spec_position()
        &&& self.spec_limit() == o.spec_limit()
        &&& self.spec_little_endian() == o.spec_little_endian()
        &&& self.spec_owned() == o.spec_owned()
    }

    /// The bytes from `offset` up to the limit.
    pub open spec fn window(&self, offset: int) -> Seq<u8> {
        self.spec_bytes().subrange(offset, self.spec_limit() as int)
    }

    /// The number held in the `n` bytes at `offset`.
    pub open spec fn value_at(&self, offset: int, n: nat) -> nat {
        decode_fixed(self.spec_bytes().subrange(offset, offset + n), self.spec_little_endian())
    }

    /// The `n` bytes that encode `v` in this buffer's byte order.
    pub open spec fn encoded(&self, v: nat, n: nat) -> Seq<u8> {
        encode_fixed(v, n, self.spec_little_endian())
    }

    /// A new owned buffer of `capacity` zero bytes.
    pub fn with_capacity(capacity: usize) -> (r: Self)
        ensures
            r.wf(),
            r.spec_owned(),
            r.spec_bytes() == Seq::new(capacity as nat, |i: int| 0u8),
            r.spec_position() == 0,
            r.spec_limit() == capacity,
    {
        let mut v: Vec<u8> = Vec::with_capacity(capacity);
        let mut i: usize = 0;
        while i < capacity
            invariant
                i <= capacity,
                v@ == Seq::new(i as nat, |k: int| 0u8),
            decreases capacity - i,
        {
            v.push(0);
            i = i + 1;
            assert(v@ =~= Seq::new(i as nat, |k: int| 0u8));
        }
        ByteBuffer { storage: Storage::Owned(v), pos: 0, limit: capacity, little_endian: host_is_little_endian() }
    }

    /// A buffer that reads and writes through `buf`, which it never frees.
    pub fn wrap(buf: &'a mut Vec<u8>) -> (r: Self)
        ensures
            r.wf(),
            !r.spec_owned(),
            r.spec_bytes() == old(buf)@,
            r.spec_position() == 0,
            r.spec_limit() == old(buf)@.len(),
    {
        let limit = buf.len();
        ByteBuffer { storage: Storage::Borrowed(buf), pos: 0, limit, little_endian: host_is_little_endian() }
    }

    /// A new owned buffer over the bytes of `buf`.
    pub fn from(buf: Vec<u8>) -> (r: Self)
        ensures
            r.wf(),
            r.spec_owned(),
            r.spec_bytes() == buf@,
            r.spec_position() == 0,
            r.spec_limit() == buf@.len(),
    {
        let limit = buf.len();
        ByteBuffer { storage: Storage::Owned(buf), pos: 0, limit, little_endian: host_is_little_endian() }
    }

    /// The storage of an owned buffer, handed out whole.
    pub fn into_vec(self) -> (r: Vec<u8>)
        requires
            self.spec_owned(),
        ensures
            r@ == self.spec_bytes(),
    {
        match self.storage {
            Storage::Owned(v) => v,
            // excluded by `requires`: lent storage is never handed out
            Storage::Borrowed(_) => Vec::new(),
        }
    }

    pub fn is_owned(&self) -> (r: bool)
        ensures
            r == self.spec_owned(),
    {
        match &self.storage {
            Storage::Owned(_) => true,
            Storage::Borrowed(_) => false,
        }
    }

    fn data(&self) -> (s: &[u8])
        ensures
            s@ == self.spec_bytes(),
    {
        storage_data(&self.storage)
    }

    /// The bytes up to the limit.
    pub fn as_slice(&self) -> (s: &[u8])
        requires
            self.wf(),
        ensures
            s@ == self.spec_bytes().take(self.spec_limit() as int),
    {
        vstd::slice::slice_subrange(self.data(), 0, self.limit)
    }

    /// The bytes up to the limit, for writing in place; what is written
    /// through the result lands in the storage, and nothing else changes.
    pub fn as_slice_mut(&mut self) -> (s: &mut [u8])
        requires
            old(self).wf(),
        ensures
            s@ == old(self).spec_bytes().take(old(self).spec_limit() as int),
            final(self).spec_bytes() == final(s)@ + old(self).spec_bytes().skip(
                old(self).spec_limit() as int,
            ),
            final(self).spec_position() == old(self).spec_position(),
            final(self).spec_limit() == old(self).spec_limit(),
            final(self).spec_little_endian() == old(self).spec_little_endian(),
            final(self).spec_owned() == old(self).spec_owned(),
    {
        let limit = self.limit;
        let whole = match &mut self.storage {
            Storage::Owned(v) => v.as_mut_slice(),
            Storage::Borrowed(r) => r.as_mut_slice(),
        };
        let (head, _) = whole.split_at_mut(limit);
        head
    }

    fn store(&mut self, i: usize, b: u8)
        requires
            i < old(self).spec_bytes().len(),
        ensures
            final(self).spec_bytes() == old(self).spec_bytes().update(i as int, b),
            final(self).same_but_contents(old(self)),
    {
        match &mut self.storage {
            Storage::Owned(v) => {
                v.set(i, b);
            },
            Storage::Borrowed(r) => {
                r.set(i, b);
            },
        }
    }

    /// Copies `src` into the storage at `at`.
    fn copy_in(&mut self, at: usize, src: &[u8])
        requires
            at + src@.len() <= old(self).spec_bytes().len(),
        ensures
            final(self).spec_bytes() == splice(old(self).spec_bytes(), at as int, src@),
            final(self).same_but_contents(old(self)),
    {
        let n = src.len();
        let cap = self.data().len();
        let mut i: usize = 0;
        while i < n
            invariant
                n == src@.len(),
                cap == old(self).spec_bytes().len(),
                at + n <= old(self).spec_bytes().len(),
                i <= n,
                self.same_but_contents(old(self)),
                forall|k: int|
                    0 <= k < self.spec_bytes().len() ==> #[trigger] self.spec_bytes()[k] == if at
                        <= k < at + i {
                        src@[k - at]
                    } else {
                        old(self).spec_bytes()[k]
                    },
            decreases n - i,
        {
            self.store(at + i, src[i]);
            i = i + 1;
        }
        assert(self.spec_bytes() =~= splice(old(self).spec_bytes(), at as int, src@));
    }

    /// Whether `n` bytes at `offset` lie below the limit.
    fn fits_at(&self, offset: usize, n: usize) -> (r: bool)
        requires
            self.wf(),
        ensures
            r == (offset + n <= self.spec_limit()),
    {
        offset <= self.limit && n <= self.limit - offset
    }

    /// The number held in the `n` bytes at `offset`.
    fn read_fixed_at(&self, offset: usize, n: usize) -> (r: IOResult<u64>)
        requires
            self.wf(),
            n <= 8,
        ensures
            r is Ok <==> offset + n <= self.spec_limit(),
            r matches Ok(v) ==> v == self.value_at(offset as int, n as nat),
            r matches Ok(v) ==> v < pow256(n as nat),
            r matches Err(e) ==> e.spec_code() == IOErrorCode::BufferOverFlow,
    {
        if !self.fits_at(offset, n) {
            return Err(IOError::create_buffer_overflow_err());
        }
        let s = vstd::slice::slice_subrange(self.data(), offset, offset + n);
        proof {
            lemma_le_value_bound(s@);
            lemma_le_value_bound(reversed(s@));
        }
        Ok(decode_fixed_exec(s, self.little_endian))
    }

    /// Writes `v` as `n` bytes at `offset`.
    fn write_fixed_at(&mut self, offset: usize, n: usize, v: u64) -> (r: IOResult<()>)
        requires
            old(self).wf(),
            n <= 8,
            v < pow256(n as nat),
        ensures
            final(self).wf(),
            r is Ok <==> offset + n <= old(self).spec_limit(),
            r is Ok ==> final(self).spec_bytes() == splice(
                old(self).spec_bytes(),
                offset as int,
                old(self).encoded(v as nat, n as nat),
            ),
            r is Err ==> final(self).spec_bytes() == old(self).spec_bytes(),
            r matches Err(e) ==> e.spec_code() == IOErrorCode::BufferOverFlow,
            final(self).same_but_contents(old(self)),
    {
        if !self.fits_at(offset, n) {
            return Err(IOError::create_buffer_overflow_err());
        }
        let e = encode_fixed_exec(v, n, self.little_endian);
        proof {
            lemma_fixed_round_trip(v as nat, n as nat, self.little_endian);
        }
        self.copy_in(offset, e.as_slice());
        Ok(())
    }

    /// The number held in the `n` bytes at the position; moves past them.
    fn read_fixed(&mut self, n: usize) -> (r: IOResult<u64>)
        requires
            old(self).wf(),
            n <= 8,
        ensures
            final(self).wf(),
            final(self).same_but_position(old(self)),
            r is Ok <==> n <= old(self).spec_remaining(),
            r matches Ok(v) ==> v == old(self).value_at(old(self).spec_position() as int, n as nat),
            r matches Ok(v) ==> v < pow256(n as nat),
            r is Ok ==> final(self).spec_position() == old(self).spec_position() + n,
            r is Err ==> final(self).spec_position() == old(self).spec_position(),
            r matches Err(e) ==> e.spec_code() == IOErrorCode::BufferOverFlow,
    {
        let r = self.read_fixed_at(self.pos, n);
        if r.is_ok() {
            self.pos = self.pos + n;
        }
        r
    }

    /// Writes `v` as `n` bytes at the position; moves past them.
    fn write_fixed(&mut self, n: usize, v: u64) -> (r: IOResult<()>)
        requires
            old(self).wf(),
            n <= 8,
            v < pow256(n as nat),
        ensures
            final(self).wf(),
            r is Ok <==> n <= old(self).spec_remaining(),
            r is Ok ==> final(self).spec_bytes() == splice(
                old(self).spec_bytes(),
                old(self).spec_position() as int,
                old(self).encoded(v as nat, n as nat),
            ),
            r is Ok ==> final(self).spec_position() == old(self).spec_position() + n,
            r is Err ==> final(self).spec_bytes() == old(self).spec_bytes()
                && final(self).spec_position() == old(self).spec_position(),
            r matches Err(e) ==> e.spec_code() == IOErrorCode::BufferOverFlow,
            final(self).spec_limit() == old(self).spec_limit(),
            final(self).spec_little_endian() == old(self).spec_little_endian(),
            final(self).spec_owned() == old(self).spec_owned(),
    {
        let r = self.write_fixed_at(self.pos, n, v);
        if r.is_ok() {
            self.pos = self.pos + n;
        }
        r
    }

    /// Reads a `u8` at the position and moves past it.
    pub fn read_u8(&mut self) -> (r: IOResult<u8>)
        requires
            old(self).wf(),
        ensures
            final(self).wf(),
            final(self).same_but_position(old(self)),
            r is Ok <==> 1 <= old(self).spec_remaining(),
            r matches Ok(v) ==> v as nat == old(self).value_at(old(self).spec_position() as int, 1),
            r is Ok ==> final(self).spec_position() == old(self).spec_position() + 1,
            r is Err ==> final(self).spec_position() == old(self).spec_position(),
            r matches Err(e) ==> e.spec_code() == IOErrorCode::BufferOverFlow,
    {
        proof {
            lemma_pow256_values();
        }
        match self.read_fixed(1) {
            Ok(x) => Ok(x as u8),
            Err(e) => Err(e),
        }
    }

    /// Reads a `u8` at `offset`.
    pub fn read_u8_at(&self, offset: usize) -> (r: IOResult<u8>)
        requires
            self.wf(),
        ensures
            r is Ok <==> offset + 1 <= self.spec_limit(),
            r matches Ok(v) ==> v as nat == self.value_at(offset as int, 1),
            r matches Err(e) ==> e.spec_code() == IOErrorCode::BufferOverFlow,
    {
        proof {
            lemma_pow256_values();
        }
        match self.read_fixed_at(offset, 1) {
            Ok(x) => Ok(x as u8),
            Err(e) => Err(e),
        }
    }

    /// Writes `data` at the position and moves past it.
    pub fn write_u8(&mut self, data: u8) -> (r: IOResult<()>)
        requires
            old(self).wf(),
        ensures
            final(self).wf(),
            r is Ok <==> 1 <= old(self).spec_remaining(),
            r is Ok ==> final(self).spec_bytes() == splice(
                old(self).spec_bytes(),
                old(self).spec_position() as int,
                old(self).encoded(data as nat, 1),
            ),
            r is Ok ==> final(self).spec_position() == old(self).spec_position() + 1,
            r is Err ==> final(self).spec_bytes() == old(self).spec_bytes()
                && final(self).spec_position() == old(self).spec_position(),
            r matches Err(e) ==> e.spec_code() == IOErrorCode::BufferOverFlow,
            final(self).spec_limit() == old(self).spec_limit(),
            final(self).spec_little_endian() == old(self).spec_little_endian(),
            final(self).spec_owned() == old(self).spec_owned(),
    {
        proof {
            lemma_pow256_values();
        }
        self.write_fixed(1, data as u64)
    }

    /// Writes `data` at `offset`; the position stays.
    pub fn write_u8_at(&mut self, offset: usize, data: u8) -> (r: IOResult<()>)
        requires
            old(self).wf(),
        ensures
            final(self).wf(),
            final(self).same_but_contents(old(self)),
            r is Ok <==> offset + 1 <= old(self).spec_limit(),
            r is Ok ==> final(self).spec_bytes() == splice(
                old(self).spec_bytes(),
                offset as int,
                old(self).encoded(data as nat, 1),
            ),
            r is Err ==> final(self).spec_bytes() == old(self).spec_bytes(),
            r matches Err(e) ==> e.spec_code() == IOErrorCode::BufferOverFlow,
    {
        proof {
            lemma_pow256_values();
        }
        self.write_fixed_at(offset, 1, data as u64)
    }

    /// Reads a `u16` at the position and moves past it.
    pub fn read_u16(&mut self) -> (r: IOResult<u16>)
        requires
            old(self).wf(),
        ensures
            final(self).wf(),
            final(self).same_but_position(old(self)),
            r is Ok <==> 2 <= old(self).spec_remaining(),
            r matches Ok(v) ==> v as nat == old(self).value_at(old(self).spec_position() as int, 2),
            r is Ok ==> final(self).spec_position() == old(self).spec_position() + 2,
            r is Err ==> final(self).spec_position() == old(self).spec_position(),
            r matches Err(e) ==> e.spec_code() == IOErrorCode::BufferOverFlow,
    {
        proof {
            lemma_pow256_values();
        }
        match self.read_fixed(2) {
            Ok(x) => Ok(x as u16),
            Err(e) => Err(e),
        }
    }

    /// Reads a `u16` at `offset`.
    pub fn read_u16_at(&self, offset: usize) -> (r: IOResult<u16>)
        requires
            self.wf(),
        ensures
            r is Ok <==> offset + 2 <= self.spec_limit(),
            r matches Ok(v) ==> v as nat == self.value_at(offset as int, 2),
            r matches Err(e) ==> e.spec_code() == IOErrorCode::BufferOverFlow,
    {
        proof {
            lemma_pow256_values();
        }
        match self.read_fixed_at(offset, 2) {
            Ok(x) => Ok(x as u16),
            Err(e) => Err(e),
        }
    }

    /// Writes `data` at the position and moves past it.
    pub fn write_u16(&mut self, data: u16) -> (r: IOResult<()>)
        requires
            old(self).wf(),
        ensures
            final(self).wf(),
            r is Ok <==> 2 <= old(self).spec_remaining(),
            r is Ok ==> final(self).spec_bytes() == splice(
                old(self).spec_bytes(),
                old(self).spec_position() as int,
                old(self).encoded(data as nat, 2),
            ),
            r is Ok ==> final(self).spec_position() == old(self).spec_position() + 2,
            r is Err ==> final(self).spec_bytes() == old(self).spec_bytes()
                && final(self).spec_position() == old(self).spec_position(),
            r matches Err(e) ==> e.spec_code() == IOErrorCode::BufferOverFlow,
            final(self).spec_limit() == old(self).spec_limit(),
            final(self).spec_little_endian() == old(self).spec_little_endian(),
            final(self).spec_owned() == old(self).spec_owned(),
    {
        proof {
            lemma_pow256_values();
        }
        self.write_fixed(2, data as u64)
    }

    /// Writes `data` at `offset`; the position stays.
    pub fn write_u16_at(&mut self, offset: usize, data: u16) -> (r: IOResult<()>)
        requires
            old(self).wf(),
        ensures
            final(self).wf(),
            final(self).same_but_contents(old(self)),
            r is Ok <==> offset + 2 <= old(self).spec_limit(),
            r is Ok ==> final(self).spec_bytes() == splice(
                old(self).spec_bytes(),
                offset as int,
                old(self).encoded(data as nat, 2),
            ),
            r is Err ==> final(self).spec_bytes() == old(self).spec_bytes(),
            r matches Err(e) ==> e.spec_code() == IOErrorCode::BufferOverFlow,
    {
        proof {
            lemma_pow256_values();
        }
        self.write_fixed_at(offset, 2, data as u64)
    }

    /// Reads a `u32` at the position and moves past it.
    pub fn read_u32(&mut self) -> (r: IOResult<u32>)
        requires
            old(self).wf(),
        ensures
            final(self).wf(),
            final(self).same_but_position(old(self)),
            r is Ok <==> 4 <= old(self).spec_remaining(),
            r matches Ok(v) ==> v as nat == old(self).value_at(old(self).spec_position() as int, 4),
            r is Ok ==> final(self).spec_position() == old(self).spec_position() + 4,
            r is Err ==> final(self).spec_position() == old(self).spec_position(),
            r matches Err(e) ==> e.spec_code() == IOErrorCode::BufferOverFlow,
    {
        proof {
            lemma_pow256_values();
        }
        match self.read_fixed(4) {
            Ok(x) => Ok(x as u32),
            Err(e) => Err(e),
        }
    }

    /// Reads a `u32` at `offset`.
    pub fn read_u32_at(&self, offset: usize) -> (r: IOResult<u32>)
        requires
            self.wf(),
        ensures
            r is Ok <==> offset + 4 <= self.spec_limit(),
            r matches Ok(v) ==> v as nat == self.value_at(offset as int, 4),
            r matches Err(e) ==> e.spec_code() == IOErrorCode::BufferOverFlow,
    {
        proof {
            lemma_pow256_values();
        }
        match self.read_fixed_at(offset, 4) {
            Ok(x) => Ok(x as u32),
            Err(e) => Err(e),
        }
    }

    /// Writes `data` at the position and moves past it.
    pub fn write_u32(&mut self, data: u32) -> (r: IOResult<()>)
        requires
            old(self).wf(),
        ensures
            final(self).wf(),
            r is Ok <==> 4 <= old(self).spec_remaining(),
            r is Ok ==> final(self).spec_bytes() == splice(
                old(self).spec_bytes(),
                old(self).spec_position() as int,
                old(self).encoded(data as nat, 4),
            ),
            r is Ok ==> final(self).spec_position() == old(self).spec_position() + 4,
            r is Err ==> final(self).spec_bytes() == old(self).spec_bytes()
                && final(self).spec_position() == old(self).spec_position(),
            r matches Err(e) ==> e.spec_code() == IOErrorCode::BufferOverFlow,
            final(self).spec_limit() == old(self).spec_limit(),
            final(self).spec_little_endian() == old(self).spec_little_endian(),
            final(self).spec_owned() == old(self).spec_owned(),
    {
        proof {
            lemma_pow256_values();
        }
        self.write_fixed(4, data as u64)
    }

    /// Writes `data` at `offset`; the position stays.
    pub fn write_u32_at(&mut self, offset: usize, data: u32) -> (r: IOResult<()>)
        requires
            old(self).wf(),
        ensures
            final(self).wf(),
            final(self).same_but_contents(old(self)),
            r is Ok <==> offset + 4 <= old(self).spec_limit(),
            r is Ok ==> final(self).spec_bytes() == splice(
                old(self).spec_bytes(),
                offset as int,
                old(self).encoded(data as nat, 4),
            ),
            r is Err ==> final(self).spec_bytes() == old(self).spec_bytes(),
            r matches Err(e) ==> e.spec_code() == IOErrorCode::BufferOverFlow,
    {
        proof {
            lemma_pow256_values();
        }
        self.write_fixed_at(offset, 4, data as u64)
    }

    /// Reads a `u64` at the position and moves past it.
    pub fn read_u64(&mut self) -> (r: IOResult<u64>)
        requires
            old(self).wf(),
        ensures
            final(self).wf(),
            final(self).same_but_position(old(self)),
            r is Ok <==> 8 <= old(self).spec_remaining(),
            r matches Ok(v) ==> v as nat == old(self).value_at(old(self).spec_position() as int, 8),
            r is Ok ==> final(self).spec_position() == old(self).spec_position() + 8,
            r is Err ==> final(self).spec_position() == old(self).spec_position(),
            r matches Err(e) ==> e.spec_code() == IOErrorCode::BufferOverFlow,
    {
        proof {
            lemma_pow256_values();
        }
        match self.read_fixed(8) {
            Ok(x) => Ok(x as u64),
            Err(e) => Err(e),
        }
    }

    /// Reads a `u64` at `offset`.
    pub fn read_u64_at(&self, offset: usize) -> (r: IOResult<u64>)
        requires
            self.wf(),
        ensures
            r is Ok <==> offset + 8 <= self.spec_limit(),
            r matches Ok(v) ==> v as nat == self.value_at(offset as int, 8),
            r matches Err(e) ==> e.spec_code() == IOErrorCode::BufferOverFlow,
    {
        proof {
            lemma_pow256_values();
        }
        match self.read_fixed_at(offset, 8) {
            Ok(x) => Ok(x as u64),
            Err(e) => Err(e),
        }
    }

    /// Writes `data` at the position and moves past it.
    pub fn write_u64(&mut self, data: u64) -> (r: IOResult<()>)
        requires
            old(self).wf(),
        ensures
            final(self).wf(),
            r is Ok <==> 8 <= old(self).spec_remaining(),
            r is Ok ==> final(self).spec_bytes() == splice(
                old(self).spec_bytes(),
                old(self).spec_position() as int,
                old(self).encoded(data as nat, 8),
            ),
            r is Ok ==> final(self).spec_position() == old(self).spec_position() + 8,
            r is Err ==> final(self).spec_bytes() == old(self).spec_bytes()
                && final(self).spec_position() == old(self).spec_position(),
            r matches Err(e) ==> e.spec_code() == IOErrorCode::BufferOverFlow,
            final(self).spec_limit() == old(self).spec_limit(),
            final(self).spec_little_endian() == old(self).spec_little_endian(),
            final(self).spec_owned() == old(self).spec_owned(),
    {
        proof {
            lemma_pow256_values();
        }
        self.write_fixed(8, data as u64)
    }

    /// Writes `data` at `offset`; the position stays.
    pub fn write_u64_at(&mut self, offset: usize, data: u64) -> (r: IOResult<()>)
        requires
            old(self).wf(),
        ensures
            final(self).wf(),
            final(self).same_but_contents(old(self)),
            r is Ok <==> offset + 8 <= old(self).spec_limit(),
            r is Ok ==> final(self).spec_bytes() == splice(
                old(self).spec_bytes(),
                offset as int,
                old(self).encoded(data as nat, 8),
            ),
            r is Err ==> final(self).spec_bytes() == old(self).spec_bytes(),
            r matches Err(e) ==> e.spec_code() == IOErrorCode::BufferOverFlow,
    {
        proof {
            lemma_pow256_values();
        }
        self.write_fixed_at(offset, 8, data as u64)
    }

    /// Reads a `i8` at the position and moves past it.
    pub fn read_i8(&mut self) -> (r: IOResult<i8>)
        requires
            old(self).wf(),
        ensures
            final(self).wf(),
            final(self).same_but_position(old(self)),
            r is Ok <==> 1 <= old(self).spec_remaining(),
            r matches Ok(v) ==> v == (old(self).value_at(old(self).spec_position() as int, 1) as u8) as i8,
            r is Ok ==> final(self).spec_position() == old(self).spec_position() + 1,
            r is Err ==> final(self).spec_position() == old(self).spec_position(),
            r matches Err(e) ==> e.spec_code() == IOErrorCode::BufferOverFlow,
    {
        proof {
            lemma_pow256_values();
        }
        match self.read_fixed(1) {
            Ok(x) => Ok((x as u8) as i8),
            Err(e) => Err(e),
        }
    }

    /// Reads a `i8` at `offset`.
    pub fn read_i8_at(&self, offset: usize) -> (r: IOResult<i8>)
        requires
            self.wf(),
        ensures
            r is Ok <==> offset + 1 <= self.spec_limit(),
            r matches Ok(v) ==> v == (self.value_at(offset as int, 1) as u8) as i8,
            r matches Err(e) ==> e.spec_code() == IOErrorCode::BufferOverFlow,
    {
        proof {
            lemma_pow256_values();
        }
        match self.read_fixed_at(offset, 1) {
            Ok(x) => Ok((x as u8) as i8),
            Err(e) => Err(e),
        }
    }

    /// Writes `data` at the position and moves past it.
    pub fn write_i8(&mut self, data: i8) -> (r: IOResult<()>)
        requires
            old(self).wf(),
        ensures
            final(self).wf(),
            r is Ok <==> 1 <= old(self).spec_remaining(),
            r is Ok ==> final(self).spec_bytes() == splice(
                old(self).spec_bytes(),
                old(self).spec_position() as int,
                old(self).encoded((data as u8) as nat, 1),
            ),
            r is Ok ==> final(self).spec_position() == old(self).spec_position() + 1,
            r is Err ==> final(self).spec_bytes() == old(self).spec_bytes()
                && final(self).spec_position() == old(self).spec_position(),
            r matches Err(e) ==> e.spec_code() == IOErrorCode::BufferOverFlow,
            final(self).spec_limit() == old(self).spec_limit(),
            final(self).spec_little_endian() == old(self).spec_little_endian(),
            final(self).spec_owned() == old(self).spec_owned(),
    {
        proof {
            lemma_pow256_values();
        }
        self.write_fixed(1, (data as u8) as u64)
    }

    /// Writes `data` at `offset`; the position stays.
    pub fn write_i8_at(&mut self, offset: usize, data: i8) -> (r: IOResult<()>)
        requires
            old(self).wf(),
        ensures
            final(self).wf(),
            final(self).same_but_contents(old(self)),
            r is Ok <==> offset + 1 <= old(self).spec_limit(),
            r is Ok ==> final(self).spec_bytes() == splice(
                old(self).spec_bytes(),
                offset as int,
                old(self).encoded((data as u8) as nat, 1),
            ),
            r is Err ==> final(self).spec_bytes() == old(self).spec_bytes(),
            r matches Err(e) ==> e.spec_code() == IOErrorCode::BufferOverFlow,
    {
        proof {
            lemma_pow256_values();
        }
        self.write_fixed_at(offset, 1, (data as u8) as u64)
    }

    /// Reads a `i16` at the position and moves past it.
    pub fn read_i16(&mut self) -> (r: IOResult<i16>)
        requires
            old(self).wf(),
        ensures
            final(self).wf(),
            final(self).same_but_position(old(self)),
            r is Ok <==> 2 <= old(self).spec_remaining(),
            r matches Ok(v) ==> v == (old(self).value_at(old(self).spec_position() as int, 2) as u16) as i16,
            r is Ok ==> final(self).spec_position() == old(self).spec_position() + 2,
            r is Err ==> final(self).spec_position() == old(self).spec_position(),
            r matches Err(e) ==> e.spec_code() == IOErrorCode::BufferOverFlow,
    {
        proof {
            lemma_pow256_values();
        }
        match self.read_fixed(2) {
            Ok(x) => Ok((x as u16) as i16),
            Err(e) => Err(e),
        }
    }

    /// Reads a `i16` at `offset`.
    pub fn read_i16_at(&self, offset: usize) -> (r: IOResult<i16>)
        requires
            self.wf(),
        ensures
            r is Ok <==> offset + 2 <= self.spec_limit(),
            r matches Ok(v) ==> v == (self.value_at(offset as int, 2) as u16) as i16,
            r matches Err(e) ==> e.spec_code() == IOErrorCode::BufferOverFlow,
    {
        proof {
            lemma_pow256_values();
        }
        match self.read_fixed_at(offset, 2) {
            Ok(x) => Ok((x as u16) as i16),
            Err(e) => Err(e),
        }
    }

    /// Writes `data` at the position and moves past it.
    pub fn write_i16(&mut self, data: i16) -> (r: IOResult<()>)
        requires
            old(self).wf(),
        ensures
            final(self).wf(),
            r is Ok <==> 2 <= old(self).spec_remaining(),
            r is Ok ==> final(self).spec_bytes() == splice(
                old(self).spec_bytes(),
                old(self).spec_position() as int,
                old(self).encoded((data as u16) as nat, 2),
            ),
            r is Ok ==> final(self).spec_position() == old(self).spec_position() + 2,
            r is Err ==> final(self).spec_bytes() == old(self).spec_bytes()
                && final(self).spec_position() == old(self).spec_position(),
            r matches Err(e) ==> e.spec_code() == IOErrorCode::BufferOverFlow,
            final(self).spec_limit() == old(self).spec_limit(),
            final(self).spec_little_endian() == old(self).spec_little_endian(),
            final(self).spec_owned() == old(self).spec_owned(),
    {
        proof {
            lemma_pow256_values();
        }
        self.write_fixed(2, (data as u16) as u64)
    }

    /// Writes `data` at `offset`; the position stays.
    pub fn write_i16_at(&mut self, offset: usize, data: i16) -> (r: IOResult<()>)
        requires
            old(self).wf(),
        ensures
            final(self).wf(),
            final(self).same_but_contents(old(self)),
            r is Ok <==> offset + 2 <= old(self).spec_limit(),
            r is Ok ==> final(self).spec_bytes() == splice(
                old(self).spec_bytes(),
                offset as int,
                old(self).encoded((data as u16) as nat, 2),
            ),
            r is Err ==> final(self).spec_bytes() == old(self).spec_bytes(),
            r matches Err(e) ==> e.spec_code() == IOErrorCode::BufferOverFlow,
    {
        proof {
            lemma_pow256_values();
        }
        self.write_fixed_at(offset, 2, (data as u16) as u64)
    }

    /// Reads a `i32` at the position and moves past it.
    pub fn read_i32(&mut self) -> (r: IOResult<i32>)
        requires
            old(self).wf(),
        ensures
            final(self).wf(),
            final(self).same_but_position(old(self)),
            r is Ok <==> 4 <= old(self).spec_remaining(),
            r matches Ok(v) ==> v == (old(self).value_at(old(self).spec_position() as int, 4) as u32) as i32,
            r is Ok ==> final(self).spec_position() == old(self).spec_position() + 4,
            r is Err ==> final(self).spec_position() == old(self).spec_position(),
            r matches Err(e) ==> e.spec_code() == IOErrorCode::BufferOverFlow,
    {
        proof {
            lemma_pow256_values();
        }
        match self.read_fixed(4) {
            Ok(x) => Ok((x as u32) as i32),
            Err(e) => Err(e),
        }
    }

    /// Reads a `i32` at `offset`.
    pub fn read_i32_at(&self, offset: usize) -> (r: IOResult<i32>)
        requires
            self.wf(),
        ensures
            r is Ok <==> offset + 4 <= self.spec_limit(),
            r matches Ok(v) ==> v == (self.value_at(offset as int, 4) as u32) as i32,
            r matches Err(e) ==> e.spec_code() == IOErrorCode::BufferOverFlow,
    {
        proof {
            lemma_pow256_values();
        }
        match self.read_fixed_at(offset, 4) {
            Ok(x) => Ok((x as u32) as i32),
            Err(e) => Err(e),
        }
    }

    /// Writes `data` at the position and moves past it.
    pub fn write_i32(&mut self, data: i32) -> (r: IOResult<()>)
        requires
            old(self).wf(),
        ensures
            final(self).wf(),
            r is Ok <==> 4 <= old(self).spec_remaining(),
            r is Ok ==> final(self).spec_bytes() == splice(
                old(self).spec_bytes(),
                old(self).spec_position() as int,
                old(self).encoded((data as u32) as nat, 4),
            ),
            r is Ok ==> final(self).spec_position() == old(self).spec_position() + 4,
            r is Err ==> final(self).spec_bytes() == old(self).spec_bytes()
                && final(self).spec_position() == old(self).spec_position(),
            r matches Err(e) ==> e.spec_code() == IOErrorCode::BufferOverFlow,
            final(self).spec_limit() == old(self).spec_limit(),
            final(self).spec_little_endian() == old(self).spec_little_endian(),
            final(self).spec_owned() == old(self).spec_owned(),
    {
        proof {
            lemma_pow256_values();
        }
        self.write_fixed(4, (data as u32) as u64)
    }

    /// Writes `data` at `offset`; the position stays.
    pub fn write_i32_at(&mut self, offset: usize, data: i32) -> (r: IOResult<()>)
        requires
            old(self).wf(),
        ensures
            final(self).wf(),
            final(self).same_but_contents(old(self)),
            r is Ok <==> offset + 4 <= old(self).spec_limit(),
            r is Ok ==> final(self).spec_bytes() == splice(
                old(self).spec_bytes(),
                offset as int,
                old(self).encoded((data as u32) as nat, 4),
            ),
            r is Err ==> final(self).spec_bytes() == old(self).spec_bytes(),
            r matches Err(e) ==> e.spec_code() == IOErrorCode::BufferOverFlow,
    {
        proof {
            lemma_pow256_values();
        }
        self.write_fixed_at(offset, 4, (data as u32) as u64)
    }

    /// Reads a `i64` at the position and moves past it.
    pub fn read_i64(&mut self) -> (r: IOResult<i64>)
        requires
            old(self).wf(),
        ensures
            final(self).wf(),
            final(self).same_but_position(old(self)),
            r is Ok <==> 8 <= old(self).spec_remaining(),
            r matches Ok(v) ==> v == (old(self).value_at(old(self).spec_position() as int, 8) as u64) as i64,
            r is Ok ==> final(self).spec_position() == old(self).spec_position() + 8,
            r is Err ==> final(self).spec_position() == old(self).spec_position(),
            r matches Err(e) ==> e.spec_code() == IOErrorCode::BufferOverFlow,
    {
        proof {
            lemma_pow256_values();
        }
        match self.read_fixed(8) {
            Ok(x) => Ok((x as u64) as i64),
            Err(e) => Err(e),
        }
    }

    /// Reads a `i64` at `offset`.
    pub fn read_i64_at(&self, offset: usize) -> (r: IOResult<i64>)
        requires
            self.wf(),
        ensures
            r is Ok <==> offset + 8 <= self.spec_limit(),
            r matches Ok(v) ==> v == (self.value_at(offset as int, 8) as u64) as i64,
            r matches Err(e) ==> e.spec_code() == IOErrorCode::BufferOverFlow,
    {
        proof {
            lemma_pow256_values();
        }
        match self.read_fixed_at(offset, 8) {
            Ok(x) => Ok((x as u64) as i64),
            Err(e) => Err(e),
        }
    }

    /// Writes `data` at the position and moves past it.
    pub fn write_i64(&mut self, data: i64) -> (r: IOResult<()>)
        requires
            old(self).wf(),
        ensures
            final(self).wf(),
            r is Ok <==> 8 <= old(self).spec_remaining(),
            r is Ok ==> final(self).spec_bytes() == splice(
                old(self).spec_bytes(),
                old(self).spec_position() as int,
                old(self).encoded((data as u64) as nat, 8),
            ),
            r is Ok ==> final(self).spec_position() == old(self).spec_position() + 8,
            r is Err ==> final(self).spec_bytes() == old(self).spec_bytes()
                && final(self).spec_position() == old(self).spec_position(),
            r matches Err(e) ==> e.spec_code() == IOErrorCode::BufferOverFlow,
            final(self).spec_limit() == old(self).spec_limit(),
            final(self).spec_little_endian() == old(self).spec_little_endian(),
            final(self).spec_owned() == old(self).spec_owned(),
    {
        proof {
            lemma_pow256_values();
        }
        self.write_fixed(8, (data as u64) as u64)
    }

    /// Writes `data` at `offset`; the position stays.
    pub fn write_i64_at(&mut self, offset: usize, data: i64) -> (r: IOResult<()>)
        requires
            old(self).wf(),
        ensures
            final(self).wf(),
            final(self).same_but_contents(old(self)),
            r is Ok <==> offset + 8 <= old(self).spec_limit(),
            r is Ok ==> final(self).spec_bytes() == splice(
                old(self).spec_bytes(),
                offset as int,
                old(self).encoded((data as u64) as nat, 8),
            ),
            r is Err ==> final(self).spec_bytes() == old(self).spec_bytes(),
            r matches Err(e) ==> e.spec_code() == IOErrorCode::BufferOverFlow,
    {
        proof {
            lemma_pow256_values();
        }
        self.write_fixed_at(offset, 8, (data as u64) as u64)
    }

    /// Reads the varint at `offset`. A varint that does not end below the
    /// limit, runs past ten bytes or exceeds 64 bits is reported as an overflow.
    pub fn read_varint_at(&self, offset: usize) -> (r: IOResult<u64>)
        requires
            self.wf(),
        ensures
            r is Ok <==> offset <= self.spec_limit() && varint_decodes(self.window(offset as int)),
            r matches Ok(v) ==> v == varint_decoded(self.window(offset as int)),
            r matches Err(e) ==> e.spec_code() == IOErrorCode::BufferOverFlow,
    {
        match self.varint_at(offset) {
            Some((v, _)) => Ok(v),
            None => Err(IOError::create_buffer_overflow_err()),
        }
    }

    /// The varint at `offset` and the number of its bytes.
    fn varint_at(&self, offset: usize) -> (r: Option<(u64, usize)>)
        requires
            self.wf(),
        ensures
            r is Some <==> offset <= self.spec_limit() && varint_decodes(self.window(offset as int)),
            r matches Some((v, n)) ==> v == varint_decoded(self.window(offset as int))
                && n == varint_decoded_len(self.window(offset as int))
                && offset + n <= self.spec_limit(),
    {
        if offset > self.limit {
            return None;
        }
        let w = vstd::slice::slice_subrange(self.data(), offset, self.limit);
        let r = varint_decode(w);
        proof {
            lemma_varint_size_bounds(w@);
        }
        r
    }

    /// Reads the varint at the position and moves past it; fails as
    /// `read_varint_at` does.
    pub fn read_varint(&mut self) -> (r: IOResult<u64>)
        requires
            old(self).wf(),
        ensures
            final(self).wf(),
            final(self).same_but_position(old(self)),
            r is Ok <==> varint_decodes(old(self).window(old(self).spec_position() as int)),
            r matches Ok(v) ==> v == varint_decoded(old(self).window(old(self).spec_position() as int)),
            r is Ok ==> final(self).spec_position() == old(self).spec_position() + varint_decoded_len(
                old(self).window(old(self).spec_position() as int),
            ),
            r is Err ==> final(self).spec_position() == old(self).spec_position(),
            r matches Err(e) ==> e.spec_code() == IOErrorCode::BufferOverFlow,
    {
        match self.varint_at(self.pos) {
            Some((v, n)) => {
                self.pos = self.pos + n;
                Ok(v)
            },
            None => Err(IOError::create_buffer_overflow_err()),
        }
    }

    /// Writes the varint of `data` at `offset`; the position stays. Nothing is
    /// written unless the whole encoding fits below the limit.
    pub fn write_varint_at(&mut self, offset: usize, data: u64) -> (r: IOResult<()>)
        requires
            old(self).wf(),
        ensures
            final(self).wf(),
            final(self).same_but_contents(old(self)),
            r is Ok <==> offset + varint_bytes(data as nat).len() <= old(self).spec_limit(),
            r is Ok ==> final(self).spec_bytes() == splice(
                old(self).spec_bytes(),
                offset as int,
                varint_bytes(data as nat),
            ),
            r is Err ==> final(self).spec_bytes() == old(self).spec_bytes(),
            r matches Err(e) ==> e.spec_code() == IOErrorCode::BufferOverFlow,
    {
        if !self.fits_at(offset, varint_len(data)) {
            return Err(IOError::create_buffer_overflow_err());
        }
        let e = varint_encode(data);
        self.copy_in(offset, e.as_slice());
        Ok(())
    }

    /// Writes the varint of `data` at the position and moves past it.
    pub fn write_varint(&mut self, data: u64) -> (r: IOResult<()>)
        requires
            old(self).wf(),
        ensures
            final(self).wf(),
            r is Ok <==> varint_bytes(data as nat).len() <= old(self).spec_remaining(),
            r is Ok ==> final(self).spec_bytes() == splice(
                old(self).spec_bytes(),
                old(self).spec_position() as int,
                varint_bytes(data as nat),
            ),
            r is Ok ==> final(self).spec_position() == old(self).spec_position() + varint_bytes(
                data as nat,
            ).len(),
            r is Err ==> final(self).spec_bytes() == old(self).spec_bytes()
                && final(self).spec_position() == old(self).spec_position(),
            r matches Err(e) ==> e.spec_code() == IOErrorCode::BufferOverFlow,
            final(self).spec_limit() == old(self).spec_limit(),
            final(self).spec_little_endian() == old(self).spec_little_endian(),
            final(self).spec_owned() == old(self).spec_owned(),
    {
        let r = self.write_varint_at(self.pos, data);
        if r.is_ok() {
            self.pos = self.pos + varint_len(data);
        }
        r
    }

    /// The `len` bytes at `offset`, without copying.
    pub fn read_bytes_at(&self, offset: usize, len: usize) -> (r: IOResult<&[u8]>)
        requires
            self.wf(),
        ensures
            r is Ok <==> offset + len <= self.spec_limit(),
            r matches Ok(b) ==> b@ == self.spec_bytes().subrange(offset as int, offset + len),
            r matches Err(e) ==> e.spec_code() == IOErrorCode::BufferOverFlow,
    {
        if !self.fits_at(offset, len) {
            return Err(IOError::create_buffer_overflow_err());
        }
        Ok(vstd::slice::slice_subrange(self.data(), offset, offset + len))
    }

    /// The `len` bytes at the position, without copying; moves past them.
    pub fn read_bytes(&mut self, len: usize) -> (r: IOResult<&[u8]>)
        requires
            old(self).wf(),
        ensures
            final(self).wf(),
            final(self).same_but_position(old(self)),
            r is Ok <==> len <= old(self).spec_remaining(),
            r matches Ok(b) ==> b@ == old(self).spec_bytes().subrange(
                old(self).spec_position() as int,
                old(self).spec_position() + len,
            ),
            r is Ok ==> final(self).spec_position() == old(self).spec_position() + len,
            r is Err ==> final(self).spec_position() == old(self).spec_position(),
            r matches Err(e) ==> e.spec_code() == IOErrorCode::BufferOverFlow,
    {
        if !self.fits_at(self.pos, len) {
            return Err(IOError::create_buffer_overflow_err());
        }
        let start = self.pos;
        self.pos = start + len;
        Ok(vstd::slice::slice_subrange(self.data(), start, start + len))
    }

    /// All bytes from `offset` up to the limit, without copying.
    pub fn read_all_at(&self, offset: usize) -> (r: IOResult<&[u8]>)
        requires
            self.wf(),
        ensures
            r is Ok <==> offset <= self.spec_limit(),
            r matches Ok(b) ==> b@ == self.window(offset as int),
            r matches Err(e) ==> e.spec_code() == IOErrorCode::BufferOverFlow,
    {
        if offset > self.limit {
            return Err(IOError::create_buffer_overflow_err());
        }
        Ok(vstd::slice::slice_subrange(self.data(), offset, self.limit))
    }

    /// All bytes from the position up to the limit, without copying; the
    /// position moves to the limit.
    pub fn read_all(&mut self) -> (r: IOResult<&[u8]>)
        requires
            old(self).wf(),
        ensures
            final(self).wf(),
            final(self).same_but_position(old(self)),
            r matches Ok(b) ==> b@ == old(self).window(old(self).spec_position() as int),
            r is Ok,
            final(self).spec_position() == old(self).spec_limit(),
    {
        let start = self.pos;
        self.pos = self.limit;
        Ok(vstd::slice::slice_subrange(self.data(), start, self.limit))
    }

    /// Copies `bytes` in at `offset`; the position stays.
    pub fn write_bytes_at(&mut self, offset: usize, bytes: &[u8]) -> (r: IOResult<()>)
        requires
            old(self).wf(),
        ensures
            final(self).wf(),
            final(self).same_but_contents(old(self)),
            r is Ok <==> offset + bytes@.len() <= old(self).spec_limit(),
            r is Ok ==> final(self).spec_bytes() == splice(old(self).spec_bytes(), offset as int, bytes@),
            r is Err ==> final(self).spec_bytes() == old(self).spec_bytes(),
            r matches Err(e) ==> e.spec_code() == IOErrorCode::BufferOverFlow,
    {
        if !self.fits_at(offset, bytes.len()) {
            return Err(IOError::create_buffer_overflow_err());
        }
        self.copy_in(offset, bytes);
        Ok(())
    }

    /// Copies `bytes` in at the position and moves past them.
    pub fn write_bytes(&mut self, bytes: &[u8]) -> (r: IOResult<()>)
        requires
            old(self).wf(),
        ensures
            final(self).wf(),
            r is Ok <==> bytes@.len() <= old(self).spec_remaining(),
            r is Ok ==> final(self).spec_bytes() == splice(
                old(self).spec_bytes(),
                old(self).spec_position() as int,
                bytes@,
            ),
            r is Ok ==> final(self).spec_position() == old(self).spec_position() + bytes@.len(),
            r is Err ==> final(self).spec_bytes() == old(self).spec_bytes()
                && final(self).spec_position() == old(self).spec_position(),
            r matches Err(e) ==> e.spec_code() == IOErrorCode::BufferOverFlow,
            final(self).spec_limit() == old(self).spec_limit(),
            final(self).spec_little_endian() == old(self).spec_little_endian(),
            final(self).spec_owned() == old(self).spec_owned(),
    {
        let r = self.write_bytes_at(self.pos, bytes);
        if r.is_ok() {
            self.pos = self.pos + bytes.len();
        }
        r
    }

    /// Where the payload of the string frame at `offset` starts and ends.
    fn payload_range(&self, offset: usize) -> (r: IOResult<(usize, usize)>)
        requires
            self.wf(),
        ensures
            r is Ok <==> offset <= self.spec_limit() && str_frame_fits(self.window(offset as int)),
            r matches Ok((a, b)) ==> a == offset + varint_decoded_len(self.window(offset as int))
                && b == a + varint_decoded(self.window(offset as int)) && b <= self.spec_limit()
                && self.spec_bytes().subrange(a as int, b as int) == str_payload(
                self.window(offset as int),
            ),
            r matches Err(e) ==> e.spec_code() == IOErrorCode::BufferOverFlow,
    {
        let (len, var_len) = match self.varint_at(offset) {
            Some(p) => p,
            None => {
                return Err(IOError::create_buffer_overflow_err());
            },
        };
        let start = offset + var_len;
        if len > (self.limit - start) as u64 {
            return Err(IOError::create_buffer_overflow_err());
        }
        let end = start + len as usize;
        assert(self.spec_bytes().subrange(start as int, end as int) =~= str_payload(
            self.window(offset as int),
        ));
        Ok((start, end))
    }

    /// Reads the string frame at `offset`: a varint length, then that many
    /// bytes of UTF-8 text, returned without copying.
    pub fn read_str_at(&self, offset: usize) -> (r: IOResult<&str>)
        requires
            self.wf(),
        ensures
            r is Ok <==> offset <= self.spec_limit() && str_frame_fits(self.window(offset as int))
                && valid_utf8(str_payload(self.window(offset as int))),
            r matches Ok(t) ==> t.spec_bytes() == str_payload(self.window(offset as int))
                && t@ == decode_utf8(str_payload(self.window(offset as int))),
            r matches Err(e) ==> (e.spec_code() == IOErrorCode::BufferOverFlow <==> !(offset
                <= self.spec_limit() && str_frame_fits(self.window(offset as int)))),
            r matches Err(e) ==> (e.spec_code() == IOErrorCode::Utf8Error <==> (offset
                <= self.spec_limit() && str_frame_fits(self.window(offset as int)))),
    {
        let (a, b) = match self.payload_range(offset) {
            Ok(p) => p,
            Err(e) => {
                return Err(e);
            },
        };
        match utf8_text(vstd::slice::slice_subrange(self.data(), a, b)) {
            Some(t) => {
                proof {
                    encode_utf8_decode_utf8(t@);
                }
                Ok(t)
            },
            None => Err(IOError::create_utf8_err()),
        }
    }

    /// Reads the string frame at the position and moves past it.
    pub fn read_str(&mut self) -> (r: IOResult<&str>)
        requires
            old(self).wf(),
        ensures
            final(self).wf(),
            final(self).same_but_position(old(self)),
            r is Ok <==> str_frame_fits(old(self).window(old(self).spec_position() as int))
                && valid_utf8(str_payload(old(self).window(old(self).spec_position() as int))),
            r matches Ok(t) ==> t.spec_bytes() == str_payload(
                old(self).window(old(self).spec_position() as int),
            ) && t@ == decode_utf8(str_payload(old(self).window(old(self).spec_position() as int))),
            r is Ok ==> final(self).spec_position() == old(self).spec_position() + varint_decoded_len(
                old(self).window(old(self).spec_position() as int),
            ) + varint_decoded(old(self).window(old(self).spec_position() as int)),
            r is Err ==> final(self).spec_position() == old(self).spec_position(),
            r matches Err(e) ==> (e.spec_code() == IOErrorCode::BufferOverFlow <==> !str_frame_fits(
                old(self).window(old(self).spec_position() as int),
            )),
            r matches Err(e) ==> (e.spec_code() == IOErrorCode::Utf8Error <==> str_frame_fits(
                old(self).window(old(self).spec_position() as int),
            )),
    {
        let (a, b) = match self.payload_range(self.pos) {
            Ok(p) => p,
            Err(e) => {
                return Err(e);
            },
        };
        let t = match utf8_text(vstd::slice::slice_subrange(storage_data(&self.storage), a, b)) {
            Some(t) => t,
            None => {
                return Err(IOError::create_utf8_err());
            },
        };
        proof {
            encode_utf8_decode_utf8(t@);
        }
        self.pos = b;
        Ok(t)
    }

    /// Writes the string frame of `data` at `offset`: the varint of its byte
    /// length, then its bytes. The position stays; nothing is written unless
    /// the whole frame fits below the limit.
    pub fn write_str_at(&mut self, offset: usize, data: &str) -> (r: IOResult<()>)
        requires
            old(self).wf(),
        ensures
            final(self).wf(),
            final(self).same_but_contents(old(self)),
            r is Ok <==> offset + str_frame(data.spec_bytes()).len() <= old(self).spec_limit(),
            r is Ok ==> final(self).spec_bytes() == splice(
                old(self).spec_bytes(),
                offset as int,
                str_frame(data.spec_bytes()),
            ),
            r is Err ==> final(self).spec_bytes() == old(self).spec_bytes(),
            r matches Err(e) ==> e.spec_code() == IOErrorCode::BufferOverFlow,
    {
        let bytes = data.as_bytes();
        let var_len = varint_len(bytes.len() as u64);
        if !self.fits_at(offset, var_len) || !self.fits_at(offset + var_len, bytes.len()) {
            return Err(IOError::create_buffer_overflow_err());
        }
        let prefix = varint_encode(bytes.len() as u64);
        let ghost s0 = self.spec_bytes();
        self.copy_in(offset, prefix.as_slice());
        self.copy_in(offset + var_len, bytes);
        assert(self.spec_bytes() =~= splice(s0, offset as int, str_frame(data.spec_bytes())));
        Ok(())
    }

    /// Writes the string frame of `data` at the position and moves past it.
    pub fn write_str(&mut self, data: &str) -> (r: IOResult<()>)
        requires
            old(self).wf(),
        ensures
            final(self).wf(),
            r is Ok <==> str_frame(data.spec_bytes()).len() <= old(self).spec_remaining(),
            r is Ok ==> final(self).spec_bytes() == splice(
                old(self).spec_bytes(),
                old(self).spec_position() as int,
                str_frame(data.spec_bytes()),
            ),
            r is Ok ==> final(self).spec_position() == old(self).spec_position() + str_frame(
                data.spec_bytes(),
            ).len(),
            r is Err ==> final(self).spec_bytes() == old(self).spec_bytes()
                && final(self).spec_position() == old(self).spec_position(),
            r matches Err(e) ==> e.spec_code() == IOErrorCode::BufferOverFlow,
            final(self).spec_limit() == old(self).spec_limit(),
            final(self).spec_little_endian() == old(self).spec_little_endian(),
            final(self).spec_owned() == old(self).spec_owned(),
    {
        let r = self.write_str_at(self.pos, data);
        if r.is_ok() {
            self.pos = self.pos + varint_len(data.len() as u64) + data.len();
        }
        r
    }

    /// `limit - position`.
    pub fn remaining(&self) -> (r: usize)
        requires
            self.wf(),
        ensures
            r == self.spec_remaining(),
    {
        self.limit - self.pos
    }

    pub fn has_remaining(&self) -> (r: bool)
        requires
            self.wf(),
        ensures
            r == (self.spec_remaining() > 0),
    {
        self.remaining() > 0
    }

    pub fn limit(&self) -> (r: usize)
        ensures
            r == self.spec_limit(),
    {
        self.limit
    }

    pub fn capacity(&self) -> (r: usize)
        ensures
            r == self.spec_capacity(),
    {
        self.data().len()
    }

    pub fn position(&self) -> (r: usize)
        ensures
            r == self.spec_position(),
    {
        self.pos
    }

    /// Sets the limit; a position beyond the new limit is brought back to it.
    pub fn set_limit(&mut self, limit: usize)
        requires
            old(self).wf(),
            limit <= old(self).spec_capacity(),
        ensures
            final(self).wf(),
            final(self).spec_limit() == limit,
            final(self).spec_position() == if old(self).spec_position() <= limit {
                old(self).spec_position()
            } else {
                limit as nat
            },
            final(self).spec_bytes() == old(self).spec_bytes(),
            final(self).spec_little_endian() == old(self).spec_little_endian(),
            final(self).spec_owned() == old(self).spec_owned(),
    {
        self.limit = limit;
        if self.pos > limit {
            self.pos = limit;
        }
    }

    pub fn set_position(&mut self, pos: usize)
        requires
            old(self).wf(),
            pos <= old(self).spec_limit(),
        ensures
            final(self).wf(),
            final(self).same_but_position(old(self)),
            final(self).spec_position() == pos,
    {
        self.pos = pos;
    }

    /// Prepares a fresh write pass over the whole capacity.
    pub fn clear(&mut self)
        requires
            old(self).wf(),
        ensures
            final(self).wf(),
            final(self).spec_position() == 0,
            final(self).spec_limit() == old(self).spec_capacity(),
            final(self).spec_bytes() == old(self).spec_bytes(),
            final(self).spec_little_endian() == old(self).spec_little_endian(),
            final(self).spec_owned() == old(self).spec_owned(),
    {
        self.pos = 0;
        self.limit = self.capacity();
    }

    /// Switches from writing to reading what was written.
    pub fn flip(&mut self)
        requires
            old(self).wf(),
        ensures
            final(self).wf(),
            final(self).spec_position() == 0,
            final(self).spec_limit() == old(self).spec_position(),
            final(self).spec_bytes() == old(self).spec_bytes(),
            final(self).spec_little_endian() == old(self).spec_little_endian(),
            final(self).spec_owned() == old(self).spec_owned(),
    {
        self.limit = self.pos;
        self.pos = 0;
    }

    /// Moves the unread bytes `[position, limit)` to the start of the storage,
    /// then sets the limit to their count and the position to zero.
    pub fn compact(&mut self)
        requires
            old(self).wf(),
        ensures
            final(self).wf(),
            final(self).spec_position() == 0,
            final(self).spec_limit() == old(self).spec_remaining(),
            final(self).spec_bytes() == splice(
                old(self).spec_bytes(),
                0,
                old(self).spec_bytes().subrange(
                    old(self).spec_position() as int,
                    old(self).spec_limit() as int,
                ),
            ),
            final(self).spec_little_endian() == old(self).spec_little_endian(),
            final(self).spec_owned() == old(self).spec_owned(),
    {
        let start = self.pos;
        let n = self.limit - start;
        let mut i: usize = 0;
        while i < n
            invariant
                start == old(self).spec_position(),
                n == old(self).spec_remaining(),
                old(self).wf(),
                i <= n,
                self.same_but_contents(old(self)),
                forall|k: int|
                    0 <= k < self.spec_bytes().len() ==> #[trigger] self.spec_bytes()[k] == if k
                        < i {
                        old(self).spec_bytes()[start + k]
                    } else {
                        old(self).spec_bytes()[k]
                    },
            decreases n - i,
        {
            let b = self.data()[start + i];
            self.store(i, b);
            i = i + 1;
        }
        assert(self.spec_bytes() =~= splice(
            old(self).spec_bytes(),
            0,
            old(self).spec_bytes().subrange(start as int, old(self).spec_limit() as int),
        ));
        self.limit = n;
        self.pos = 0;
    }
}

} // verus!
