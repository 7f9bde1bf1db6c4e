use vstd::prelude::*;

use crate::errors::DecodeError;

verus! {

/// The little-endian value of a byte sequence: the byte at index 0 is the
/// least significant.
pub open spec fn le_value(s: Seq<u8>) -> nat
    decreases s.len(),
{
    if s.len() == 0 {
        0
    } else {
        s[0] as nat + 256 * le_value(s.subrange(1, s.len() as int))
    }
}

/// 256 to the n-th power: how many values n bytes can hold.
pub open spec fn pow256(n: nat) -> nat
    decreases n,
{
    if n == 0 {
        1
    } else {
        256 * pow256((n - 1) as nat)
    }
}

pub proof fn lemma_pow256_values()
    ensures
        pow256(1) == 0x100,
        pow256(2) == 0x1_0000,
        pow256(4) == 0x1_0000_0000,
        pow256(8) == 0x1_0000_0000_0000_0000,
        pow256(16) == 0x1_0000_0000_0000_0000_0000_0000_0000_0000,
{
    assert(pow256(0) == 1);
    assert(pow256(1) == 256 * pow256(0));
    assert(pow256(2) == 256 * pow256(1));
    assert(pow256(3) == 256 * pow256(2));
    assert(pow256(4) == 256 * pow256(3));
    assert(pow256(5) == 256 * pow256(4));
    assert(pow256(6) == 256 * pow256(5));
    assert(pow256(7) == 256 * pow256(6));
    assert(pow256(8) == 256 * pow256(7));
    assert(pow256(9) == 256 * pow256(8));
    assert(pow256(10) == 256 * pow256(9));
    assert(pow256(11) == 256 * pow256(10));
    assert(pow256(12) == 256 * pow256(11));
    assert(pow256(13) == 256 * pow256(12));
    assert(pow256(14) == 256 * pow256(13));
    assert(pow256(15) == 256 * pow256(14));
    assert(pow256(16) == 256 * pow256(15));
}

pub proof fn lemma_pow256_pos(n: nat)
    ensures
        pow256(n) >= 1,
    decreases n,
{
    if n > 0 {
        lemma_pow256_pos((n - 1) as nat);
    }
}

pub proof fn lemma_pow256_mono(a: nat, b: nat)
    requires
        a <= b,
    ensures
        pow256(a) <= pow256(b),
    decreases b,
{
    if a < b {
        lemma_pow256_mono(a, (b - 1) as nat);
        lemma_pow256_pos((b - 1) as nat);
    }
}

/// A byte sequence's little-endian value is bounded by the count of its
/// bytes.
pub proof fn lemma_le_value_bound(s: Seq<u8>)
    ensures
        le_value(s) < pow256(s.len()),
    decreases s.len(),
{
    if s.len() > 0 {
        let tail = s.subrange(1, s.len() as int);
        lemma_le_value_bound(tail);
        assert(le_value(s) == s[0] as nat + 256 * le_value(tail));
        assert(256 * le_value(tail) <= 256 * (pow256(tail.len()) - 1));
    }
}

/// A position-tracking view over an in-memory byte buffer. Reads are
/// bounded: a read past the end fails cleanly and leaves the buffer alone.
pub struct Cursor {
    pub data: Vec<u8>,
    pub pos: usize,
}

impl Cursor {
    /// The position never stands past the end of the buffer.
    pub open spec fn wf(self) -> bool {
        self.pos <= self.data.len()
    }

    pub fn new(data: Vec<u8>) -> (r: Cursor)
        ensures
            r.wf(),
            r.data@ == data@,
            r.pos == 0,
    {
        Cursor { data, pos: 0 }
    }

    /// How many bytes remain to be read.
    pub fn remaining(&self) -> (r: usize)
        requires
            self.wf(),
        ensures
            r == self.data@.len() - self.pos,
    {
        self.data.len() - self.pos
    }

    /// The next byte, without advancing.
    pub fn peek_u8(&self) -> (r: Option<u8>)
        requires
            self.wf(),
        ensures
            self.pos < self.data@.len() ==> r == Some(self.data@[self.pos as int]),
            self.pos >= self.data@.len() ==> r is None,
    {
        if self.pos < self.data.len() {
            Some(self.data[self.pos])
        } else {
            None
        }
    }

    /// Moves the position forward by n bytes that are known to remain.
    pub fn advance(&mut self, n: usize)
        requires
            old(self).wf(),
            old(self).pos + n <= old(self).data@.len(),
        ensures
            final(self).wf(),
            final(self).data@ == old(self).data@,
            final(self).pos == old(self).pos + n,
    {
        self.pos = self.pos + n;
    }

    /// Reads one byte and advances past it.
    pub fn read_u8(&mut self) -> (r: Result<u8, DecodeError>)
        requires
            old(self).wf(),
        ensures
            final(self).wf(),
            final(self).data@ == old(self).data@,
            old(self).pos < old(self).data@.len() ==> (r == Ok::<u8, DecodeError>(
                old(self).data@[old(self).pos as int],
            ) && final(self).pos == old(self).pos + 1),
            old(self).pos >= old(self).data@.len() ==> (r == Err::<u8, DecodeError>(
                DecodeError::UnexpectedEndOfStream,
            ) && final(self).pos == old(self).pos),
    {
        if self.pos < self.data.len() {
            let b = self.data[self.pos];
            self.pos = self.pos + 1;
            Ok(b)
        } else {
            Err(DecodeError::UnexpectedEndOfStream)
        }
    }

    /// Reads n little-endian bytes, n at most 8, as one unsigned integer.
    pub fn read_le_u64(&mut self, n: usize) -> (r: Result<u64, DecodeError>)
        requires
            old(self).wf(),
            n <= 8,
        ensures
            final(self).wf(),
            final(self).data@ == old(self).data@,
            old(self).pos + n <= old(self).data@.len() ==> (r matches Ok(v) && v == le_value(
                old(self).data@.subrange(old(self).pos as int, old(self).pos + n),
            ) && final(self).pos == old(self).pos + n),
            old(self).pos + n > old(self).data@.len() ==> (r == Err::<u64, DecodeError>(
                DecodeError::UnexpectedEndOfStream,
            ) && final(self).pos == old(self).pos),
    {
        if n > self.data.len() - self.pos {
            return Err(DecodeError::UnexpectedEndOfStream);
        }
        let ghost s = self.data@;
        let ghost p = self.pos as int;
        proof {
            lemma_pow256_values();
        }
        let mut v: u64 = 0;
        let mut i: usize = n;
        while i > 0
            invariant
                self.wf(),
                self.data@ == s,
                self.pos == p,
                i <= n,
                n <= 8,
                p + n <= s.len(),
                0 <= p,
                v == le_value(s.subrange(p + i, p + n)),
                v < pow256((n - i) as nat),
                pow256(8) == 0x1_0000_0000_0000_0000,
            decreases i,
        {
            i = i - 1;
            let b = self.data[self.pos + i];
            proof {
                let sub = s.subrange(p + i, p + n);
                assert(sub[0] == s[p + i]);
                assert(sub.subrange(1, sub.len() as int) =~= s.subrange(p + i + 1, p + n));
                assert(le_value(sub) == s[p + i] as nat + 256 * le_value(
                    s.subrange(p + i + 1, p + n),
                ));
                lemma_pow256_mono((n - i) as nat, 8);
                assert(256 * (v as nat) <= 256 * (pow256((n - i - 1) as nat) - 1));
            }
            v = v * 256 + b as u64;
        }
        assert(s.subrange(p, p + n) == s.subrange(p + 0, p + n));
        self.pos = self.pos + n;
        Ok(v)
    }

    /// Reads n little-endian bytes, n at most 16, as one unsigned 128-bit
    /// integer.
    pub fn read_le_u128(&mut self, n: usize) -> (r: Result<u128, DecodeError>)
        requires
            old(self).wf(),
            n <= 16,
        ensures
            final(self).wf(),
            final(self).data@ == old(self).data@,
            old(self).pos + n <= old(self).data@.len() ==> (r matches Ok(v) && v == le_value(
                old(self).data@.subrange(old(self).pos as int, old(self).pos + n),
            ) && final(self).pos == old(self).pos + n),
            old(self).pos + n > old(self).data@.len() ==> (r == Err::<u128, DecodeError>(
                DecodeError::UnexpectedEndOfStream,
            ) && final(self).pos == old(self).pos),
    {
        if n > self.data.len() - self.pos {
            return Err(DecodeError::UnexpectedEndOfStream);
        }
        let ghost s = self.data@;
        let ghost p = self.pos as int;
        proof {
            lemma_pow256_values();
        }
        let mut v: u128 = 0;
        let mut i: usize = n;
        while i > 0
            invariant
                self.wf(),
                self.data@ == s,
                self.pos == p,
                i <= n,
                n <= 16,
                p + n <= s.len(),
                0 <= p,
                v == le_value(s.subrange(p + i, p + n)),
                v < pow256((n - i) as nat),
                pow256(16) == 0x1_0000_0000_0000_0000_0000_0000_0000_0000,
            decreases i,
        {
            i = i - 1;
            let b = self.data[self.pos + i];
            proof {
                let sub = s.subrange(p + i, p + n);
                assert(sub[0] == s[p + i]);
                assert(sub.subrange(1, sub.len() as int) =~= s.subrange(p + i + 1, p + n));
                assert(le_value(sub) == s[p + i] as nat + 256 * le_value(
                    s.subrange(p + i + 1, p + n),
                ));
                lemma_pow256_mono((n - i) as nat, 16);
                assert(256 * (v as nat) <= 256 * (pow256((n - i - 1) as nat) - 1));
            }
            v = v * 256 + b as u128;
        }
        assert(s.subrange(p, p + n) == s.subrange(p + 0, p + n));
        self.pos = self.pos + n;
        Ok(v)
    }

    /// Reads n raw bytes into a fresh buffer.
    pub fn read_bytes(&mut self, n: usize) -> (r: Result<Vec<u8>, DecodeError>)
        requires
            old(self).wf(),
        ensures
            final(self).wf(),
            final(self).data@ == old(self).data@,
            old(self).pos + n <= old(self).data@.len() ==> (r matches Ok(v) && v@ == old(
                self,
            ).data@.subrange(old(self).pos as int, old(self).pos + n) && final(self).pos == old(
                self,
            ).pos + n),
            old(self).pos + n > old(self).data@.len() ==> (r == Err::<Vec<u8>, DecodeError>(
                DecodeError::UnexpectedEndOfStream,
            ) && final(self).pos == old(self).pos),
    {
        if n > self.data.len() - self.pos {
            return Err(DecodeError::UnexpectedEndOfStream);
        }
        let ghost s = self.data@;
        let ghost p = self.pos as int;
        let mut out: Vec<u8> = Vec::new();
        let mut i: usize = 0;
        while i < n
            invariant
                self.wf(),
                self.data@ == s,
                self.pos == p,
                i <= n,
                p + n <= s.len(),
                0 <= p,
                out@ == s.subrange(p, p + i),
            decreases n - i,
        {
            let b = self.data[self.pos + i];
            out.push(b);
            proof {
                assert(out@ =~= s.subrange(p, p + i + 1));
            }
            i = i + 1;
        }
        self.pos = self.pos + n;
        Ok(out)
    }
}

} // verus!
