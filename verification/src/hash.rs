use vstd::prelude::*;

verus! {

/// Offset basis of the 64-bit FNV-1a hash.
pub const FNV_OFFSET_BASIS: u64 = 0xcbf2_9ce4_8422_2325;

/// Prime multiplier of the 64-bit FNV-1a hash.
pub const FNV_PRIME: u64 = 0x0000_0100_0000_01b3;

/// Multiplicative inverse of `FNV_PRIME` modulo 2^64. The prime is odd, so
/// multiplying by it modulo 2^64 is invertible; this constant witnesses that,
/// which makes every hashing step injective in its state.
pub const FNV_PRIME_INVERSE: u64 = 0xce96_5057_aff6_957b;

/// One FNV-1a step: fold one byte into the running state.
pub open spec fn fnv_step(h: u64, b: u8) -> u64 {
    (((h ^ (b as u64)) * FNV_PRIME) % 0x1_0000_0000_0000_0000) as u64
}

/// FNV-1a over a whole byte sequence, starting from state `h`.
pub open spec fn fnv_seq(h: u64, bytes: Seq<u8>) -> u64
    decreases bytes.len(),
{
    if bytes.len() == 0 {
        h
    } else {
        fnv_seq(fnv_step(h, bytes[0]), bytes.drop_first())
    }
}

/// Hashing a concatenation is hashing the parts in order.
pub proof fn lemma_fnv_seq_concat(h: u64, a: Seq<u8>, b: Seq<u8>)
    ensures
        fnv_seq(h, a + b) == fnv_seq(fnv_seq(h, a), b),
    decreases a.len(),
{
    if a.len() == 0 {
        assert(a + b =~= b);
    } else {
        assert((a + b)[0] == a[0]);
        assert((a + b).drop_first() =~= a.drop_first() + b);
        lemma_fnv_seq_concat(fnv_step(h, a[0]), a.drop_first(), b);
    }
}

/// Hashing a single byte is one step.
pub proof fn lemma_fnv_seq_singleton(h: u64, b: u8)
    ensures
        fnv_seq(h, seq![b]) == fnv_step(h, b),
{
    let s = seq![b];
    assert(s.drop_first() =~= Seq::<u8>::empty());
    assert(fnv_seq(fnv_step(h, b), Seq::<u8>::empty()) == fnv_step(h, b));
    assert(fnv_seq(h, s) == fnv_seq(fnv_step(h, s[0]), s.drop_first()));
}

/// Fold one byte into the state, exactly as `fnv_step` describes.
pub fn fnv_step_exec(h: u64, b: u8) -> (r: u64)
    ensures
        r == fnv_step(h, b),
{
    let x: u64 = h ^ (b as u64);
    proof {
        assert((x as int) * (FNV_PRIME as int) < 0x1_0000_0000_0000_0000 * 0x1_0000_0000_0000_0000)
            by (nonlinear_arith)
            requires
                x <= 0xffff_ffff_ffff_ffffu64,
                FNV_PRIME <= 0xffff_ffff_ffff_ffffu64,
        ;
    }
    let prod: u128 = (x as u128) * (FNV_PRIME as u128);
    let r: u64 = (prod % 0x1_0000_0000_0000_0000u128) as u64;
    r
}

/// FNV-1a over all bytes of `v`, starting from state `h0`.
pub fn fnv_bytes(h0: u64, v: &Vec<u8>) -> (r: u64)
    ensures
        r == fnv_seq(h0, v@),
{
    let mut h = h0;
    let mut i: usize = 0;
    while i < v.len()
        invariant
            i <= v@.len(),
            h == fnv_seq(h0, v@.subrange(0, i as int)),
        decreases v@.len() - i,
    {
        let b = v[i];
        h = fnv_step_exec(h, b);
        proof {
            assert(v@.subrange(0, i + 1) =~= v@.subrange(0, i as int) + seq![v@[i as int]]);
            lemma_fnv_seq_concat(h0, v@.subrange(0, i as int), seq![v@[i as int]]);
            lemma_fnv_seq_singleton(fnv_seq(h0, v@.subrange(0, i as int)), v@[i as int]);
        }
        i = i + 1;
    }
    proof {
        assert(v@.subrange(0, v@.len() as int) =~= v@);
    }
    h
}

/// Multiplication by the FNV prime modulo 2^64 can be undone with the
/// inverse, so it loses no information.
proof fn lemma_fnv_mul_cancel(x: u64)
    ensures
        (((x * FNV_PRIME) % 0x1_0000_0000_0000_0000) * FNV_PRIME_INVERSE)
            % 0x1_0000_0000_0000_0000 == x,
{
    assert((((x * FNV_PRIME) % 0x1_0000_0000_0000_0000) * FNV_PRIME_INVERSE)
        % 0x1_0000_0000_0000_0000 == x) by (bit_vector);
}

/// Two steps whose xored inputs differ end in different states.
proof fn lemma_fnv_step_injective(h1: u64, b1: u8, h2: u64, b2: u8)
    requires
        h1 ^ (b1 as u64) != h2 ^ (b2 as u64),
    ensures
        fnv_step(h1, b1) != fnv_step(h2, b2),
{
    let x1 = h1 ^ (b1 as u64);
    let x2 = h2 ^ (b2 as u64);
    lemma_fnv_mul_cancel(x1);
    lemma_fnv_mul_cancel(x2);
    assert((x1 * FNV_PRIME) % 0x1_0000_0000_0000_0000 < 0x1_0000_0000_0000_0000);
    assert((x2 * FNV_PRIME) % 0x1_0000_0000_0000_0000 < 0x1_0000_0000_0000_0000);
}

/// Distinct states stay distinct, whatever bytes are hashed on top of them.
proof fn lemma_fnv_seq_state_injective(h1: u64, h2: u64, s: Seq<u8>)
    requires
        h1 != h2,
    ensures
        fnv_seq(h1, s) != fnv_seq(h2, s),
    decreases s.len(),
{
    if s.len() > 0 {
        let b = s[0] as u64;
        assert(h1 ^ b != h2 ^ b) by (bit_vector)
            requires
                h1 != h2,
        ;
        lemma_fnv_step_injective(h1, s[0], h2, s[0]);
        lemma_fnv_seq_state_injective(fnv_step(h1, s[0]), fnv_step(h2, s[0]), s.drop_first());
    }
}

/// Changing exactly one byte of the input always changes the hash.
pub proof fn lemma_fnv_seq_flip_injective(h: u64, s1: Seq<u8>, s2: Seq<u8>, k: int)
    requires
        s1.len() == s2.len(),
        0 <= k < s1.len(),
        s1[k] != s2[k],
        forall|j: int| 0 <= j < s1.len() && j != k ==> s1[j] == s2[j],
    ensures
        fnv_seq(h, s1) != fnv_seq(h, s2),
    decreases s1.len(),
{
    if k == 0 {
        let b1 = s1[0];
        let b2 = s2[0];
        assert(h ^ (b1 as u64) != h ^ (b2 as u64)) by (bit_vector)
            requires
                b1 != b2,
        ;
        lemma_fnv_step_injective(h, b1, h, b2);
        assert(s1.drop_first() =~= s2.drop_first());
        lemma_fnv_seq_state_injective(fnv_step(h, b1), fnv_step(h, b2), s1.drop_first());
    } else {
        assert(s1[0] == s2[0]);
        assert forall|j: int| 0 <= j < s1.drop_first().len() && j != k - 1
            implies s1.drop_first()[j] == s2.drop_first()[j] by {
            assert(s1.drop_first()[j] == s1[j + 1]);
            assert(s2.drop_first()[j] == s2[j + 1]);
        }
        lemma_fnv_seq_flip_injective(fnv_step(h, s1[0]), s1.drop_first(), s2.drop_first(), k - 1);
    }
}

} // verus!
