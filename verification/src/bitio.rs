//! Bit-level input and output over byte buffers.
//!
//! A bitstream stores fields least-significant-bit first: bit `i` of the
//! stream is bit `i % 8` of byte `i / 8`, and a field of `n` bits read at
//! position `p` has bit `j` of its value taken from stream bit `p + j`.

use vstd::prelude::*;

verus! {

/// Bit `i` of the stream held in `s`.
pub open spec fn stream_bit(s: Seq<u8>, i: int) -> bool {
    (s[i / 8] >> ((i % 8) as u8)) & 1 == 1
}

/// The value of the `n`-bit field at position `pos`, least-significant-bit
/// first.
pub open spec fn bits_val(s: Seq<u8>, pos: int, n: nat) -> u64
    decreases n,
{
    if n == 0 {
        0
    } else {
        bits_val(s, pos, (n - 1) as nat) | (if stream_bit(s, pos + n - 1) {
            1u64 << ((n - 1) as u64)
        } else {
            0u64
        })
    }
}

/// A reader with a single monotonic bit cursor over a borrowed buffer.
pub struct BitReader<'a> {
    pub data: &'a [u8],
    pub pos: usize,
}

impl<'a> BitReader<'a> {
    /// The buffer is small enough for every bit index to fit the machine
    /// word, and the cursor never passes the end.
    pub open spec fn wf(&self) -> bool {
        &&& 8 * self.data@.len() <= usize::MAX
        &&& self.pos <= 8 * self.data@.len()
    }

    /// A reader over `data`, positioned at the first bit.
    pub fn from_slice(data: &'a [u8]) -> (r: Self)
        requires
            data@.len() <= usize::MAX as int / 8,
        ensures
            r.data@ == data@,
            r.pos == 0,
            r.wf(),
    {
        BitReader { data, pos: 0 }
    }

    /// Reads the next `n` bits as an integer, least-significant-bit first,
    /// advancing the cursor; `None` when fewer than `n` bits remain, with
    /// the cursor unmoved.
    pub fn read(&mut self, n: usize) -> (r: Option<u64>)
        requires
            n <= 64,
            old(self).wf(),
        ensures
            final(self).wf(),
            final(self).data@ == old(self).data@,
            match r {
                Some(v) => {
                    &&& old(self).pos + n <= 8 * old(self).data@.len()
                    &&& v == bits_val(old(self).data@, old(self).pos as int, n as nat)
                    &&& final(self).pos == old(self).pos + n
                },
                None => {
                    &&& old(self).pos + n > 8 * old(self).data@.len()
                    &&& final(self).pos == old(self).pos
                },
            },
    {
        let nbytes = self.data.len();
        if self.pos > 8 * nbytes || n > 8 * nbytes - self.pos {
            return None;
        }
        let mut acc: u64 = 0;
        let mut k: usize = 0;
        while k < n
            invariant
                k <= n,
                n <= 64,
                self.pos + n <= 8 * self.data@.len(),
                8 * self.data@.len() <= usize::MAX,
                acc == bits_val(self.data@, self.pos as int, k as nat),
            decreases n - k,
        {
            let i = self.pos + k;
            let bit = (self.data[i / 8] >> ((i % 8) as u8)) & 1 == 1;
            let ghost prev = acc;
            if bit {
                acc = acc | (1u64 << (k as u64));
            }
            k = k + 1;
            proof {
                if !bit {
                    assert(prev | 0u64 == prev) by (bit_vector);
                }
                assert(acc == bits_val(self.data@, self.pos as int, k as nat));
            }
        }
        self.pos = self.pos + n;
        Some(acc)
    }

    /// Reads one bit as a boolean.
    pub fn read_bool(&mut self) -> (r: Option<bool>)
        requires
            old(self).wf(),
        ensures
            final(self).wf(),
            final(self).data@ == old(self).data@,
            match r {
                Some(v) => {
                    &&& old(self).pos + 1 <= 8 * old(self).data@.len()
                    &&& v == stream_bit(old(self).data@, old(self).pos as int)
                    &&& final(self).pos == old(self).pos + 1
                },
                None => {
                    &&& old(self).pos + 1 > 8 * old(self).data@.len()
                    &&& final(self).pos == old(self).pos
                },
            },
    {
        match self.read(1) {
            Some(v) => {
                proof {
                    assert(bits_val(old(self).data@, old(self).pos as int, 1) == (if stream_bit(
                        old(self).data@,
                        old(self).pos as int,
                    ) {
                        1u64
                    } else {
                        0u64
                    })) by {
                        reveal_with_fuel(bits_val, 2);
                        assert(0u64 | 1u64 << 0u64 == 1u64) by (bit_vector);
                        assert(0u64 | 0u64 == 0u64) by (bit_vector);
                    }
                }
                Some(v == 1)
            },
            None => None,
        }
    }
}

/// A writer over a pre-sized, zero-filled buffer, with a monotonic bit
/// cursor.  Bits at and past the cursor are always zero, so the finished
/// buffer is padded with zero bits up to its final byte.
pub struct BitWriter {
    pub data: Vec<u8>,
    pub pos: usize,
}

impl BitWriter {
    /// The cursor is inside the buffer and everything at or past it is zero.
    pub open spec fn wf(&self) -> bool {
        &&& 8 * self.data@.len() <= usize::MAX
        &&& self.pos <= 8 * self.data@.len()
        &&& forall|i: int| self.pos <= i < 8 * self.data@.len() ==> !stream_bit(self.data@, i)
    }

    /// A writer over `nbytes` zero bytes.
    pub fn with_capacity(nbytes: usize) -> (r: Self)
        requires
            nbytes <= usize::MAX / 8,
        ensures
            r.wf(),
            r.data@.len() == nbytes,
            r.pos == 0,
            forall|i: int| 0 <= i < 8 * nbytes ==> !stream_bit(r.data@, i),
    {
        let mut data: Vec<u8> = Vec::new();
        let mut k: usize = 0;
        while k < nbytes
            invariant
                k <= nbytes,
                data@.len() == k,
                forall|j: int| 0 <= j < k ==> data@[j] == 0u8,
            decreases nbytes - k,
        {
            data.push(0u8);
            k = k + 1;
        }
        proof {
            assert forall|i: int| 0 <= i < 8 * nbytes implies !stream_bit(data@, i) by {
                assert(0 <= i / 8 < nbytes as int);
                assert(data@[i / 8] == 0u8);
                let sh = (i % 8) as u8;
                assert((0u8 >> sh) & 1 != 1) by (bit_vector);
            }
        }
        BitWriter { data, pos: 0 }
    }

    /// Writes the low `n` bits of `value` at the cursor and advances it.
    /// The caller must have sized the buffer to hold them.
    pub fn write(&mut self, value: u64, n: usize) -> (r: ())
        requires
            old(self).wf(),
            n <= 64,
            old(self).pos + n <= 8 * old(self).data@.len(),
        ensures
            final(self).wf(),
            final(self).data@.len() == old(self).data@.len(),
            final(self).pos == old(self).pos + n,
            forall|i: int|
                old(self).pos <= i < old(self).pos + n ==> #[trigger] stream_bit(
                    final(self).data@,
                    i,
                ) == ((value >> ((i - old(self).pos) as u64)) & 1 == 1),
            forall|i: int|
                0 <= i < 8 * old(self).data@.len() && !(old(self).pos <= i < old(self).pos + n)
                    ==> #[trigger] stream_bit(final(self).data@, i) == stream_bit(
                    old(self).data@,
                    i,
                ),
    {
        let mut k: usize = 0;
        while k < n
            invariant
                k <= n,
                n <= 64,
                old(self).wf(),
                old(self).pos + n <= 8 * old(self).data@.len(),
                8 * old(self).data@.len() <= usize::MAX,
                self.pos == old(self).pos,
                self.data@.len() == old(self).data@.len(),
                forall|i: int|
                    self.pos <= i < self.pos + k ==> #[trigger] stream_bit(self.data@, i) == ((
                    value >> ((i - self.pos) as u64)) & 1 == 1),
                forall|i: int|
                    0 <= i < 8 * self.data@.len() && !(self.pos <= i < self.pos + k)
                        ==> #[trigger] stream_bit(self.data@, i) == stream_bit(old(self).data@, i),
            decreases n - k,
        {
            let bit = (value >> (k as u64)) & 1 == 1;
            let i = self.pos + k;
            let ghost data_before = self.data@;
            if bit {
                let b = self.data[i / 8];
                let mask: u8 = 1u8 << ((i % 8) as u8);
                self.data[i / 8] = b | mask;
                proof {
                    lemma_set_bit(data_before, self.data@, i as int);
                }
            }
            proof {
                assert forall|m: int|
                    self.pos <= m < self.pos + k + 1 implies #[trigger] stream_bit(self.data@, m)
                    == ((value >> ((m - self.pos) as u64)) & 1 == 1) by {
                    if m < self.pos + k {
                        assert(stream_bit(self.data@, m) == stream_bit(data_before, m));
                    } else {
                        if !bit {
                            assert(!stream_bit(self.data@, m));
                        }
                    }
                }
            }
            k = k + 1;
        }
        self.pos = self.pos + n;
    }

    /// Hands back the buffer.
    pub fn into_bytes(self) -> (r: Vec<u8>)
        ensures
            r@ == self.data@,
    {
        self.data
    }
}

/// A field of `n` bits is below two to the `n`.
pub proof fn lemma_bits_val_bound(s: Seq<u8>, pos: int, n: nat)
    requires
        n <= 63,
    ensures
        bits_val(s, pos, n) < (1u64 << (n as u64)),
    decreases n,
{
    if n == 0 {
        assert(1u64 << 0u64 == 1) by (bit_vector);
    } else {
        lemma_bits_val_bound(s, pos, (n - 1) as nat);
        let prev = bits_val(s, pos, (n - 1) as nat);
        let m = (n - 1) as u64;
        assert(prev < (1u64 << m) ==> (prev | (1u64 << m)) < (1u64 << (m + 1)) && (prev | 0u64)
            < (1u64 << (m + 1))) by (bit_vector)
            requires
                m < 63,
        ;
    }
}

/// A field's value depends only on its own bits.
pub proof fn lemma_bits_val_stable(s1: Seq<u8>, s2: Seq<u8>, pos: int, n: nat)
    requires
        forall|j: int| pos <= j < pos + n ==> stream_bit(s1, j) == stream_bit(s2, j),
    ensures
        bits_val(s1, pos, n) == bits_val(s2, pos, n),
    decreases n,
{
    if n > 0 {
        lemma_bits_val_stable(s1, s2, pos, (n - 1) as nat);
    }
}

/// A field that holds exactly the low bits of `v`, with `v` in range, reads
/// back as `v`.
pub proof fn lemma_bits_val_from_bits(s: Seq<u8>, pos: int, n: nat, v: u64)
    requires
        n <= 63,
        v < (1u64 << (n as u64)),
        forall|j: int|
            pos <= j < pos + n ==> #[trigger] stream_bit(s, j) == ((v >> ((j - pos) as u64)) & 1
                == 1),
    ensures
        bits_val(s, pos, n) == v,
    decreases n,
{
    if n == 0 {
        assert(1u64 << 0u64 == 1) by (bit_vector);
    } else {
        let m = (n - 1) as u64;
        let mask = ((1u64 << m) - 1) as u64;
        let low = v & mask;
        assert(low < (1u64 << m) && (forall|j: u64|
            j < m ==> ((low >> j) & 1 == 1) == ((v >> j) & 1 == 1))) by (bit_vector)
            requires
                m < 63,
                mask == ((1u64 << m) - 1) as u64,
                low == v & mask,
        ;
        assert forall|j: int| pos <= j < pos + n - 1 implies #[trigger] stream_bit(s, j) == ((low
            >> ((j - pos) as u64)) & 1 == 1) by {
            assert(stream_bit(s, j) == ((v >> ((j - pos) as u64)) & 1 == 1));
        }
        lemma_bits_val_from_bits(s, pos, (n - 1) as nat, low);
        if stream_bit(s, pos + n - 1) {
            assert((v >> m) & 1 == 1 && low == (v & mask) && v < (1u64 << ((m + 1) as u64)) ==> (
            low | (1u64 << m)) == v) by (bit_vector)
                requires
                    m < 63,
                    mask == ((1u64 << m) - 1) as u64,
            ;
        } else {
            assert(!((v >> m) & 1 == 1) && low == (v & mask) && v < (1u64 << ((m + 1) as u64))
                ==> (low | 0u64) == v) by (bit_vector)
                requires
                    m < 63,
                    mask == ((1u64 << m) - 1) as u64,
            ;
        }
    }
}

/// Setting bit `i % 8` of byte `i / 8` flips stream bit `i` to one and no
/// other bit of the stream.
proof fn lemma_set_bit(before: Seq<u8>, after: Seq<u8>, i: int)
    requires
        0 <= i,
        i / 8 < before.len(),
        before.len() == after.len(),
        after == before.update(i / 8, (before[i / 8] | (1u8 << ((i % 8) as u8))) as u8),
    ensures
        stream_bit(after, i),
        forall|j: int|
            0 <= j < 8 * before.len() && j != i ==> stream_bit(after, j) == stream_bit(before, j),
{
    let b = before[i / 8];
    let sh = (i % 8) as u8;
    assert(((b | (1u8 << sh)) >> sh) & 1 == 1) by (bit_vector)
        requires
            sh < 8,
    ;
    assert forall|j: int|
        0 <= j < 8 * before.len() && j != i implies stream_bit(after, j) == stream_bit(
        before,
        j,
    ) by {
        if j / 8 == i / 8 {
            let sj = (j % 8) as u8;
            assert(sj != sh) by {
                if j % 8 == i % 8 {
                    assert(j == 8 * (j / 8) + (j % 8));
                    assert(i == 8 * (i / 8) + (i % 8));
                }
            }
            assert(((b | (1u8 << sh)) >> sj) & 1 == (b >> sj) & 1) by (bit_vector)
                requires
                    sh < 8,
                    sj < 8,
                    sj != sh,
            ;
        } else {
            assert(after[j / 8] == before[j / 8]);
        }
    }
}

} // verus!
