//! CRC-32 (the reflected polynomial 0xEDB88320, as PNG uses it), computed
//! through a precomputed 256-entry table.

use vstd::prelude::*;

verus! {

/// One bit of polynomial division: shift right, folding in the polynomial
/// when the low bit falls out.
pub open spec fn crc_bit(v: u32) -> u32 {
    if v & 1 != 0 {
        0xedb88320u32 ^ (v >> 1)
    } else {
        v >> 1
    }
}

/// `crc_bit` applied `k` times.
pub open spec fn crc_bits(v: u32, k: nat) -> u32
    decreases k,
{
    if k == 0 {
        v
    } else {
        crc_bit(crc_bits(v, (k - 1) as nat))
    }
}

/// The table holds each byte value divided through all eight of its bits.
pub open spec fn crc_table_entry(i: u32) -> u32 {
    crc_bits(i, 8)
}

/// Folding one byte into a running checksum.
pub open spec fn crc_push_byte(acc: u32, b: u8) -> u32 {
    crc_table_entry((acc ^ b as u32) & 0xff) ^ (acc >> 8)
}

/// Folding a whole byte sequence into a running checksum.
pub open spec fn crc_fold(acc: u32, bytes: Seq<u8>) -> u32
    decreases bytes.len(),
{
    if bytes.len() == 0 {
        acc
    } else {
        crc_fold(crc_push_byte(acc, bytes[0]), bytes.drop_first())
    }
}

/// The CRC-32 of a byte sequence: fold from all-ones, then invert.
pub open spec fn spec_crc32(bytes: Seq<u8>) -> u32 {
    crc_fold(0xffffffffu32, bytes) ^ 0xffffffffu32
}

pub struct Crc32 {
    table: Vec<u32>,
    value: u32,
}

impl Crc32 {
    /// The table rows agree with `crc_table_entry` everywhere.
    pub closed spec fn wf(&self) -> bool {
        &&& self.table@.len() == 256
        &&& forall|i: int| 0 <= i < 256 ==> self.table@[i] == crc_table_entry(i as u32)
    }

    pub closed spec fn spec_value(&self) -> u32 {
        self.value
    }

    pub fn new() -> (c: Crc32)
        ensures
            c.wf(),
            c.spec_value() == 0xffffffffu32,
    {
        let mut table: Vec<u32> = Vec::new();
        for i in 0..256usize
            invariant
                table@.len() == i,
                forall|j: int| 0 <= j < i ==> table@[j] == crc_table_entry(j as u32),
        {
            let mut v = i as u32;
            for k in 0..8usize
                invariant
                    v == crc_bits(i as u32, k as nat),
                    i < 256,
            {
                v = if v & 1 != 0 {
                    0xedb88320 ^ (v >> 1)
                } else {
                    v >> 1
                };
            }
            table.push(v);
        }
        Crc32 { table, value: 0xffffffff }
    }

    /// Resets the running checksum.
    pub fn start(&mut self)
        requires
            old(self).wf(),
        ensures
            final(self).wf(),
            final(self).spec_value() == 0xffffffffu32,
    {
        self.value = 0xffffffff;
    }

    /// Folds `buf` into the running checksum.
    pub fn update(&mut self, buf: &[u8])
        requires
            old(self).wf(),
        ensures
            final(self).wf(),
            final(self).spec_value() == crc_fold(old(self).spec_value(), buf@),
    {
        let n = buf.len();
        for idx in 0..n
            invariant
                self.wf(),
                n == buf@.len(),
                self.value == crc_fold(old(self).value, buf@.take(idx as int)),
        {
            let b = buf[idx];
            let v = self.value;
            assert((v ^ (b as u32)) & 0xff < 256) by (bit_vector);
            let slot = ((v ^ (b as u32)) & 0xff) as usize;
            proof {
                lemma_crc_fold_push(old(self).value, buf@.take(idx as int), b);
                assert(buf@.take(idx as int).push(b) =~= buf@.take(idx + 1));
            }
            self.value = self.table[slot] ^ (self.value >> 8);
        }
        proof {
            assert(buf@.take(n as int) =~= buf@);
        }
    }

    /// The finished checksum: the running value, inverted.
    pub fn finalize(&mut self) -> (r: u32)
        ensures
            *final(self) == *old(self),
            r == old(self).spec_value() ^ 0xffffffffu32,
    {
        self.value ^ 0xffffffff_u32
    }

    /// The CRC-32 of `buf` on its own.
    pub fn crc(&mut self, buf: &[u8]) -> (r: u32)
        requires
            old(self).wf(),
        ensures
            final(self).wf(),
            r == spec_crc32(buf@),
    {
        self.start();
        self.update(buf);
        self.finalize()
    }
}

/// Folding a sequence extended by one byte folds the sequence, then the byte.
proof fn lemma_crc_fold_push(acc: u32, s: Seq<u8>, b: u8)
    ensures
        crc_fold(acc, s.push(b)) == crc_push_byte(crc_fold(acc, s), b),
    decreases s.len(),
{
    if s.len() == 0 {
        assert(s.push(b)[0] == b);
        assert(s.push(b).drop_first() =~= Seq::<u8>::empty());
        assert(crc_fold(acc, s.push(b)) == crc_fold(
            crc_push_byte(acc, b),
            Seq::<u8>::empty(),
        ));
        assert(crc_fold(crc_push_byte(acc, b), Seq::<u8>::empty()) == crc_push_byte(acc, b));
    } else {
        assert(s.push(b)[0] == s[0]);
        lemma_crc_fold_push(crc_push_byte(acc, s[0]), s.drop_first(), b);
        assert(s.push(b).drop_first() =~= s.drop_first().push(b));
        assert(crc_fold(acc, s.push(b)) == crc_fold(
            crc_push_byte(acc, s[0]),
            s.drop_first().push(b),
        ));
        assert(crc_fold(acc, s) == crc_fold(crc_push_byte(acc, s[0]), s.drop_first()));
    }
}

} // verus!
