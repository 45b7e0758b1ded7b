use byteorder::{BigEndian, ByteOrder};
use vstd::prelude::*;

use crate::errors::JavaError;

verus! {

/// How deep decoding follows structures nested in one another (attributes
/// inside `Code` and `Record`, annotations inside element values).
pub const MAX_NESTING: u32 = 64;

/// The two bytes of `n`, most significant first.
pub open spec fn be_u16(n: u16) -> Seq<u8> {
    seq![(n / 0x100) as u8, (n % 0x100) as u8]
}

/// The four bytes of `n`, most significant first.
pub open spec fn be_u32(n: u32) -> Seq<u8> {
    seq![
        (n / 0x100_0000) as u8,
        ((n / 0x1_0000) % 0x100) as u8,
        ((n / 0x100) % 0x100) as u8,
        (n % 0x100) as u8,
    ]
}

/// The eight bytes of `n`, most significant first.
pub open spec fn be_u64(n: u64) -> Seq<u8> {
    be_u32((n / 0x1_0000_0000) as u32) + be_u32((n % 0x1_0000_0000) as u32)
}

/// Relies on byteorder's `BigEndian::read_u16`: the value whose big-endian
/// bytes are the first two of `buf`.
#[verifier::external_body]
fn read_be_u16(buf: &[u8]) -> (r: u16)
    requires
        buf@.len() >= 2,
    ensures
        be_u16(r) == buf@.subrange(0, 2),
{
    BigEndian::read_u16(buf)
}

/// Relies on byteorder's `BigEndian::read_u32`: the value whose big-endian
/// bytes are the first four of `buf`.
#[verifier::external_body]
fn read_be_u32(buf: &[u8]) -> (r: u32)
    requires
        buf@.len() >= 4,
    ensures
        be_u32(r) == buf@.subrange(0, 4),
{
    BigEndian::read_u32(buf)
}

/// Relies on byteorder's `BigEndian::read_u64`: the value whose big-endian
/// bytes are the first eight of `buf`.
#[verifier::external_body]
fn read_be_u64(buf: &[u8]) -> (r: u64)
    requires
        buf@.len() >= 8,
    ensures
        be_u64(r) == buf@.subrange(0, 8),
{
    BigEndian::read_u64(buf)
}

/// Relies on byteorder's `BigEndian::write_u16`: it stores the big-endian
/// bytes of `n` in the buffer.
#[verifier::external_body]
fn u16_bytes(n: u16) -> (r: [u8; 2])
    ensures
        r@ == be_u16(n),
{
    let mut buf = [0u8; 2];
    BigEndian::write_u16(&mut buf, n);
    buf
}

/// Relies on byteorder's `BigEndian::write_u32`: it stores the big-endian
/// bytes of `n` in the buffer.
#[verifier::external_body]
fn u32_bytes(n: u32) -> (r: [u8; 4])
    ensures
        r@ == be_u32(n),
{
    let mut buf = [0u8; 4];
    BigEndian::write_u32(&mut buf, n);
    buf
}

/// Relies on byteorder's `BigEndian::write_u64`: it stores the big-endian
/// bytes of `n` in the buffer.
#[verifier::external_body]
fn u64_bytes(n: u64) -> (r: [u8; 8])
    ensures
        r@ == be_u64(n),
{
    let mut buf = [0u8; 8];
    BigEndian::write_u64(&mut buf, n);
    buf
}

/// Appends one byte.
pub fn push_u8(out: &mut Vec<u8>, n: u8)
    ensures
        final(out)@ == old(out)@ + seq![n],
{
    out.push(n);
    assert(final(out)@ =~= old(out)@ + seq![n]);
}

/// Appends the big-endian bytes of a `u16`.
pub fn push_u16(out: &mut Vec<u8>, n: u16)
    ensures
        final(out)@ == old(out)@ + be_u16(n),
{
    let b = u16_bytes(n);
    out.push(b[0]);
    out.push(b[1]);
    assert(final(out)@ =~= old(out)@ + be_u16(n));
}

/// Appends the big-endian bytes of a `u32`.
pub fn push_u32(out: &mut Vec<u8>, n: u32)
    ensures
        final(out)@ == old(out)@ + be_u32(n),
{
    let b = u32_bytes(n);
    let mut i: usize = 0;
    while i < 4
        invariant
            i <= 4,
            b@ == be_u32(n),
            out@ == old(out)@ + b@.subrange(0, i as int),
        decreases 4 - i,
    {
        out.push(b[i]);
        assert(b@.subrange(0, i + 1) =~= b@.subrange(0, i as int).push(b@[i as int]));
        i = i + 1;
    }
    assert(b@.subrange(0, 4) =~= b@);
}

/// Appends the big-endian bytes of a `u64`.
pub fn push_u64(out: &mut Vec<u8>, n: u64)
    ensures
        final(out)@ == old(out)@ + be_u64(n),
{
    let b = u64_bytes(n);
    let mut i: usize = 0;
    while i < 8
        invariant
            i <= 8,
            b@ == be_u64(n),
            out@ == old(out)@ + b@.subrange(0, i as int),
        decreases 8 - i,
    {
        out.push(b[i]);
        assert(b@.subrange(0, i + 1) =~= b@.subrange(0, i as int).push(b@[i as int]));
        i = i + 1;
    }
    assert(b@.subrange(0, 8) =~= b@);
}

/// Appends every byte of `bytes`.
pub fn push_bytes(out: &mut Vec<u8>, bytes: &[u8])
    ensures
        final(out)@ == old(out)@ + bytes@,
{
    let mut i: usize = 0;
    while i < bytes.len()
        invariant
            i <= bytes@.len(),
            out@ == old(out)@ + bytes@.subrange(0, i as int),
        decreases bytes@.len() - i,
    {
        out.push(bytes[i]);
        assert(bytes@.subrange(0, i + 1) =~= bytes@.subrange(0, i as int).push(bytes@[i as int]));
        i = i + 1;
    }
    assert(bytes@.subrange(0, bytes@.len() as int) =~= bytes@);
}

/// `s` stands in `data` from `pos` on.
pub open spec fn starts_at(data: Seq<u8>, pos: int, s: Seq<u8>) -> bool {
    0 <= pos && pos + s.len() <= data.len() && data.subrange(pos, pos + s.len()) == s
}

/// Where `a + b` stands at `pos`, `a` stands there and `b` right after it.
pub proof fn lemma_starts_concat(data: Seq<u8>, pos: int, a: Seq<u8>, b: Seq<u8>)
    requires
        starts_at(data, pos, a + b),
    ensures
        starts_at(data, pos, a),
        starts_at(data, pos + a.len(), b),
{
    let whole = data.subrange(pos, pos + (a + b).len());
    assert(whole == a + b);
    assert(data.subrange(pos, pos + a.len()) =~= whole.subrange(0, a.len() as int));
    assert(whole.subrange(0, a.len() as int) =~= a);
    assert(data.subrange(pos + a.len(), pos + a.len() + b.len()) =~= whole.subrange(a.len() as int, whole.len() as int));
    assert(whole.subrange(a.len() as int, whole.len() as int) =~= b);
}

/// Distinct values have distinct bytes.
pub proof fn lemma_be_u16_injective(a: u16, b: u16)
    ensures
        (be_u16(a) == be_u16(b)) <==> a == b,
{
    if be_u16(a) == be_u16(b) {
        assert(be_u16(a)[0] == be_u16(b)[0] && be_u16(a)[1] == be_u16(b)[1]);
        assert(a == (a / 0x100) * 0x100 + a % 0x100);
        assert(b == (b / 0x100) * 0x100 + b % 0x100);
    }
}

/// Distinct 32-bit values have distinct bytes.
pub proof fn lemma_be_u32_injective(a: u32, b: u32)
    ensures
        (be_u32(a) == be_u32(b)) <==> a == b,
{
    if be_u32(a) == be_u32(b) {
        assert(be_u32(a)[0] == be_u32(b)[0] && be_u32(a)[1] == be_u32(b)[1]);
        assert(be_u32(a)[2] == be_u32(b)[2] && be_u32(a)[3] == be_u32(b)[3]);
        assert(((a / 0x100_0000) as u8 == (b / 0x100_0000) as u8 && ((a / 0x1_0000) % 0x100) as u8
            == ((b / 0x1_0000) % 0x100) as u8 && ((a / 0x100) % 0x100) as u8 == ((b / 0x100) % 0x100) as u8 && (a
            % 0x100) as u8 == (b % 0x100) as u8) ==> a == b) by (bit_vector);
    }
}

/// Splitting a range of a sequence at a middle point.
pub proof fn lemma_span_split(s: Seq<u8>, a: int, b: int, c: int)
    requires
        0 <= a <= b <= c <= s.len(),
    ensures
        s.subrange(a, c) == s.subrange(a, b) + s.subrange(b, c),
{
    assert(s.subrange(a, c) =~= s.subrange(a, b) + s.subrange(b, c));
}

/// A cursor over a byte buffer that decoding reads in order.
///
/// `canonical` stays true while everything read so far re-encodes to exactly
/// the bytes it was read from; a decoder clears it where the format lets two
/// byte strings stand for one value (flag bits outside a table, the long form
/// of a short opcode, padding that is not zero, an attribute name that is not
/// the pool's first entry with that text).
pub struct ByteReader {
    pub data: Vec<u8>,
    pub pos: usize,
    pub canonical: bool,
}

impl ByteReader {
    /// The position lies within the buffer.
    pub open spec fn wf(&self) -> bool {
        self.pos <= self.data@.len()
    }

    /// The bytes from this cursor's position to `later`'s.
    pub open spec fn span(&self, later: ByteReader) -> Seq<u8> {
        self.data@.subrange(self.pos as int, later.pos as int)
    }

    /// `later` reads the same buffer, no earlier than this cursor.
    pub open spec fn moved_to(&self, later: ByteReader) -> bool {
        &&& later.data@ == self.data@
        &&& self.pos <= later.pos <= later.data@.len()
    }

    /// The cursor is canonical and the bytes from its position on begin with `s`.
    pub open spec fn offers(&self, s: Seq<u8>) -> bool {
        self.canonical && starts_at(self.data@, self.pos as int, s)
    }

    /// `later` is still canonical and stands exactly `s.len()` bytes further on.
    pub open spec fn took(&self, later: ByteReader, s: Seq<u8>) -> bool {
        later.canonical && later.pos == self.pos + s.len()
    }

    /// The number of bytes left to read.
    pub open spec fn remaining(&self) -> int {
        self.data@.len() - self.pos
    }

    /// A cursor at the start of `data`.
    pub fn new(data: Vec<u8>) -> (r: ByteReader)
        ensures
            r.data@ == data@,
            r.pos == 0,
            r.canonical,
    {
        ByteReader { data, pos: 0, canonical: true }
    }

    /// True where every byte has been read.
    pub fn at_end(&self) -> (r: bool)
        requires
            self.wf(),
        ensures
            r == (self.pos == self.data@.len()),
    {
        self.pos == self.data.len()
    }

    /// Reads one byte.
    pub fn read_u8(&mut self) -> (res: Result<u8, JavaError>)
        requires
            old(self).wf(),
        ensures
            old(self).moved_to(*final(self)),
            final(self).canonical == old(self).canonical,
            res is Err <==> old(self).remaining() < 1,
            res is Err ==> res == Err::<u8, JavaError>(JavaError::UnexpectedEnd),
            res is Ok ==> final(self).pos == old(self).pos + 1,
            res matches Ok(v) ==> old(self).span(*final(self)) == seq![v],
    {
        if self.data.len() - self.pos < 1 {
            return Err(JavaError::UnexpectedEnd);
        }
        let v = self.data[self.pos];
        self.pos = self.pos + 1;
        assert(old(self).span(*self) =~= seq![v]);
        Ok(v)
    }

    /// Reads a big-endian `u16`.
    pub fn read_u16(&mut self) -> (res: Result<u16, JavaError>)
        requires
            old(self).wf(),
        ensures
            old(self).moved_to(*final(self)),
            final(self).canonical == old(self).canonical,
            res is Err <==> old(self).remaining() < 2,
            res is Err ==> res == Err::<u16, JavaError>(JavaError::UnexpectedEnd),
            res is Ok ==> final(self).pos == old(self).pos + 2,
            res matches Ok(v) ==> old(self).span(*final(self)) == be_u16(v),
    {
        if self.data.len() - self.pos < 2 {
            return Err(JavaError::UnexpectedEnd);
        }
        let end = self.pos + 2;
        let v = read_be_u16(&self.data.as_slice()[self.pos..end]);
        self.pos = end;
        Ok(v)
    }

    /// Reads a big-endian `u32`.
    pub fn read_u32(&mut self) -> (res: Result<u32, JavaError>)
        requires
            old(self).wf(),
        ensures
            old(self).moved_to(*final(self)),
            final(self).canonical == old(self).canonical,
            res is Err <==> old(self).remaining() < 4,
            res is Err ==> res == Err::<u32, JavaError>(JavaError::UnexpectedEnd),
            res is Ok ==> final(self).pos == old(self).pos + 4,
            res matches Ok(v) ==> old(self).span(*final(self)) == be_u32(v),
    {
        if self.data.len() - self.pos < 4 {
            return Err(JavaError::UnexpectedEnd);
        }
        let end = self.pos + 4;
        let v = read_be_u32(&self.data.as_slice()[self.pos..end]);
        self.pos = end;
        Ok(v)
    }

    /// Reads a big-endian `u64`.
    pub fn read_u64(&mut self) -> (res: Result<u64, JavaError>)
        requires
            old(self).wf(),
        ensures
            old(self).moved_to(*final(self)),
            final(self).canonical == old(self).canonical,
            res is Err <==> old(self).remaining() < 8,
            res is Err ==> res == Err::<u64, JavaError>(JavaError::UnexpectedEnd),
            res is Ok ==> final(self).pos == old(self).pos + 8,
            res matches Ok(v) ==> old(self).span(*final(self)) == be_u64(v),
    {
        if self.data.len() - self.pos < 8 {
            return Err(JavaError::UnexpectedEnd);
        }
        let end = self.pos + 8;
        let v = read_be_u64(&self.data.as_slice()[self.pos..end]);
        self.pos = end;
        Ok(v)
    }

    /// Reads `n` bytes.
    pub fn read_bytes(&mut self, n: usize) -> (res: Result<Vec<u8>, JavaError>)
        requires
            old(self).wf(),
        ensures
            old(self).moved_to(*final(self)),
            final(self).canonical == old(self).canonical,
            res is Err <==> old(self).remaining() < n,
            res is Err ==> res == Err::<Vec<u8>, JavaError>(JavaError::UnexpectedEnd),
            res matches Ok(v) ==> old(self).span(*final(self)) == v@ && v@.len() == n,
            res is Ok ==> final(self).pos == old(self).pos + n,
    {
        if self.data.len() - self.pos < n {
            return Err(JavaError::UnexpectedEnd);
        }
        let start = self.pos;
        let end = self.pos + n;
        let mut v: Vec<u8> = Vec::new();
        let mut i: usize = 0;
        while i < n
            invariant
                self.data@ == old(self).data@,
                self.pos == start,
                start == old(self).pos,
                start + n == end,
                end <= self.data@.len(),
                i <= n,
                v@ == self.data@.subrange(start as int, start + i),
            decreases n - i,
        {
            v.push(self.data[start + i]);
            assert(v@ =~= self.data@.subrange(start as int, start + i + 1));
            i = i + 1;
        }
        self.pos = end;
        Ok(v)
    }
}

} // verus!
