//! Checksum engine: CRC-32 (reflected polynomial 0xEDB88320, initial value
//! 0xFFFFFFFF, final complement) over a byte range.

use vstd::prelude::*;

verus! {

/// One shift-and-conditionally-xor step of the bitwise CRC-32 register.
pub open spec fn crc_step(c: u32) -> u32 {
    if c & 1 == 1 {
        (c >> 1) ^ 0xEDB88320u32
    } else {
        c >> 1
    }
}

/// `n` iterated register steps.
pub open spec fn crc_steps(c: u32, n: nat) -> u32
    decreases n,
{
    if n == 0 {
        c
    } else {
        crc_step(crc_steps(c, (n - 1) as nat))
    }
}

/// Folding one input byte into the register: xor into the low byte,
/// then eight register steps.
pub open spec fn crc_byte(c: u32, b: u8) -> u32 {
    crc_steps(c ^ (b as u32), 8)
}

/// Folding a whole byte sequence into the register, first byte first.
pub open spec fn crc_fold(c: u32, s: Seq<u8>) -> u32
    decreases s.len(),
{
    if s.len() == 0 {
        c
    } else {
        crc_fold(crc_byte(c, s.first()), s.drop_first())
    }
}

/// The CRC-32 of a byte sequence: fold from the all-ones register and
/// complement the result.
pub open spec fn crc32_of(s: Seq<u8>) -> u32 {
    crc_fold(0xFFFFFFFFu32, s) ^ 0xFFFFFFFFu32
}

/// Folding distributes over concatenation.
pub proof fn lemma_crc_fold_concat(c: u32, a: Seq<u8>, b: Seq<u8>)
    ensures
        crc_fold(c, a + b) == crc_fold(crc_fold(c, a), b),
    decreases a.len(),
{
    if a.len() == 0 {
        assert(a + b =~= b);
    } else {
        assert((a + b).first() == a.first());
        assert((a + b).drop_first() =~= a.drop_first() + b);
        lemma_crc_fold_concat(crc_byte(c, a.first()), a.drop_first(), b);
    }
}

/// Folding one more byte at the end equals one `crc_byte` step on the fold
/// of the prefix.
pub proof fn lemma_crc_fold_snoc(c: u32, s: Seq<u8>, b: u8)
    ensures
        crc_fold(c, s.push(b)) == crc_byte(crc_fold(c, s), b),
{
    assert(s.push(b) =~= s + seq![b]);
    lemma_crc_fold_concat(c, s, seq![b]);
    let x = crc_fold(c, s);
    assert(seq![b].drop_first() =~= Seq::<u8>::empty());
    assert(crc_fold(x, seq![b]) == crc_fold(crc_byte(x, b), seq![b].drop_first()));
    assert(crc_fold(crc_byte(x, b), Seq::<u8>::empty()) == crc_byte(x, b));
}

/// A register step loses no information: it is injective.
proof fn lemma_crc_step_injective(c1: u32, c2: u32)
    requires
        crc_step(c1) == crc_step(c2),
    ensures
        c1 == c2,
{
    assert(((if c1 & 1 == 1 {
        (c1 >> 1) ^ 0xEDB88320u32
    } else {
        c1 >> 1
    }) == (if c2 & 1 == 1 {
        (c2 >> 1) ^ 0xEDB88320u32
    } else {
        c2 >> 1
    })) ==> c1 == c2) by (bit_vector);
}

/// Iterated register steps are injective.
proof fn lemma_crc_steps_injective(c1: u32, c2: u32, n: nat)
    requires
        crc_steps(c1, n) == crc_steps(c2, n),
    ensures
        c1 == c2,
    decreases n,
{
    if n > 0 {
        lemma_crc_step_injective(crc_steps(c1, (n - 1) as nat), crc_steps(c2, (n - 1) as nat));
        lemma_crc_steps_injective(c1, c2, (n - 1) as nat);
    }
}

/// Folding two different bytes into one register gives two different
/// registers.
proof fn lemma_crc_byte_injective_byte(c: u32, b1: u8, b2: u8)
    requires
        crc_byte(c, b1) == crc_byte(c, b2),
    ensures
        b1 == b2,
{
    lemma_crc_steps_injective(c ^ (b1 as u32), c ^ (b2 as u32), 8);
    assert((c ^ (b1 as u32)) == (c ^ (b2 as u32)) ==> b1 == b2) by (bit_vector);
}

/// Folding one byte into two different registers keeps them different.
proof fn lemma_crc_byte_injective_reg(c1: u32, c2: u32, b: u8)
    requires
        crc_byte(c1, b) == crc_byte(c2, b),
    ensures
        c1 == c2,
{
    lemma_crc_steps_injective(c1 ^ (b as u32), c2 ^ (b as u32), 8);
    assert((c1 ^ (b as u32)) == (c2 ^ (b as u32)) ==> c1 == c2) by (bit_vector);
}

/// Folding one byte sequence into two different registers keeps them
/// different.
proof fn lemma_crc_fold_injective_reg(c1: u32, c2: u32, s: Seq<u8>)
    requires
        crc_fold(c1, s) == crc_fold(c2, s),
    ensures
        c1 == c2,
    decreases s.len(),
{
    if s.len() > 0 {
        lemma_crc_fold_injective_reg(
            crc_byte(c1, s.first()),
            crc_byte(c2, s.first()),
            s.drop_first(),
        );
        lemma_crc_byte_injective_reg(c1, c2, s.first());
    }
}

/// Checksum integrity: two byte sequences of one length that differ in
/// exactly one byte have different CRC-32 values. Every single-byte
/// corruption is detected, deterministically.
pub proof fn lemma_crc32_single_byte_flip(s1: Seq<u8>, s2: Seq<u8>, i: int)
    requires
        s1.len() == s2.len(),
        0 <= i < s1.len(),
        s1[i] != s2[i],
        forall|j: int| 0 <= j < s1.len() && j != i ==> s1[j] == s2[j],
    ensures
        crc32_of(s1) != crc32_of(s2),
{
    let pre = s1.subrange(0, i);
    let suf = s1.skip(i + 1);
    assert(s2.subrange(0, i) =~= pre);
    assert(s2.skip(i + 1) =~= suf);
    assert(s1 =~= (pre + seq![s1[i]]) + suf);
    assert(s2 =~= (pre + seq![s2[i]]) + suf);
    let init = 0xFFFFFFFFu32;
    lemma_crc_fold_concat(init, pre + seq![s1[i]], suf);
    lemma_crc_fold_concat(init, pre + seq![s2[i]], suf);
    assert(pre + seq![s1[i]] =~= pre.push(s1[i]));
    assert(pre + seq![s2[i]] =~= pre.push(s2[i]));
    lemma_crc_fold_snoc(init, pre, s1[i]);
    lemma_crc_fold_snoc(init, pre, s2[i]);
    let r = crc_fold(init, pre);
    if crc_byte(r, s1[i]) == crc_byte(r, s2[i]) {
        lemma_crc_byte_injective_byte(r, s1[i], s2[i]);
    }
    if crc_fold(init, s1) == crc_fold(init, s2) {
        lemma_crc_fold_injective_reg(crc_byte(r, s1[i]), crc_byte(r, s2[i]), suf);
    }
    let a = crc_fold(init, s1);
    let b = crc_fold(init, s2);
    assert(a != b ==> a ^ 0xFFFFFFFFu32 != b ^ 0xFFFFFFFFu32) by (bit_vector);
}

/// Computes the CRC-32 of `data`.
pub fn crc32(data: &[u8]) -> (r: u32)
    ensures
        r == crc32_of(data@),
{
    let mut c: u32 = 0xFFFFFFFF;
    let mut i: usize = 0;
    while i < data.len()
        invariant
            i <= data@.len(),
            c == crc_fold(0xFFFFFFFFu32, data@.subrange(0, i as int)),
        decreases data@.len() - i,
    {
        let b: u8 = data[i];
        let ghost c0 = c;
        c = c ^ (b as u32);
        let mut k: usize = 0;
        while k < 8
            invariant
                k <= 8,
                c == crc_steps(c0 ^ (b as u32), k as nat),
        decreases 8 - k,
        {
            if c & 1 == 1 {
                c = (c >> 1) ^ 0xEDB88320;
            } else {
                c = c >> 1;
            }
            k = k + 1;
        }
        proof {
            lemma_crc_fold_snoc(0xFFFFFFFFu32, data@.subrange(0, i as int), data@[i as int]);
            assert(data@.subrange(0, i + 1 as int) =~= data@.subrange(0, i as int).push(
                data@[i as int],
            ));
        }
        i = i + 1;
    }
    proof {
        assert(data@.subrange(0, data@.len() as int) =~= data@);
    }
    c ^ 0xFFFFFFFF
}

} // verus!
