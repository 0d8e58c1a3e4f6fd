use vstd::prelude::*;

verus! {

/// 256 to the power `n`.
pub open spec fn pow256(n: nat) -> nat
    decreases n,
{
    if n == 0 {
        1
    } else {
        256 * pow256((n - 1) as nat)
    }
}

/// The `n` little-endian bytes of `x`, least significant first; digits of `x`
/// beyond the `n`-th are dropped.
pub open spec fn le_bytes(x: nat, n: nat) -> Seq<u8>
    decreases n,
{
    if n == 0 {
        seq![]
    } else {
        seq![(x % 256) as u8] + le_bytes(x / 256, (n - 1) as nat)
    }
}

/// The number whose little-endian bytes are `s`.
pub open spec fn le_value(s: Seq<u8>) -> nat
    decreases s.len(),
{
    if s.len() == 0 {
        0
    } else {
        s[0] as nat + 256 * le_value(s.drop_first())
    }
}

proof fn lemma_pow256_positive(n: nat)
    ensures
        pow256(n) >= 1,
    decreases n,
{
    if n > 0 {
        lemma_pow256_positive((n - 1) as nat);
    }
}

/// Facts about the powers that bound the integer types.
pub proof fn lemma_pow256_values()
    ensures
        pow256(4) == 0x1_0000_0000,
        pow256(8) == 0x1_0000_0000_0000_0000,
{
    reveal_with_fuel(pow256, 9);
}

/// The bytes of a number below `256^n` read back as that number, and `n`
/// bytes always read back as a number below `256^n` whose bytes they are.
pub proof fn lemma_le_roundtrip(x: nat, n: nat, s: Seq<u8>)
    ensures
        le_bytes(x, n).len() == n,
        x < pow256(n) ==> le_value(le_bytes(x, n)) == x,
        s.len() == n ==> le_value(s) < pow256(n) && le_bytes(le_value(s), n) == s,
    decreases n,
{
    if n > 0 {
        lemma_le_roundtrip(x / 256, (n - 1) as nat, s.drop_first());
        lemma_pow256_positive((n - 1) as nat);
        let b = le_bytes(x, n);
        assert(b.drop_first() =~= le_bytes(x / 256, (n - 1) as nat));
        if s.len() == n {
            let v = le_value(s);
            let r = le_value(s.drop_first());
            assert(v == s[0] as nat + 256 * r);
            assert(v % 256 == s[0] as nat);
            assert(v / 256 == r);
            assert(le_bytes(v, n) =~= s);
        }
    }
}

/// Encodes the low `n` bytes of `x` in little-endian order.
pub fn le_encode(x: u64, n: usize) -> (r: Vec<u8>)
    requires
        n <= 8,
    ensures
        r@ == le_bytes(x as nat, n as nat),
{
    let mut r: Vec<u8> = Vec::new();
    let mut v: u64 = x;
    let mut i: usize = 0;
    while i < n
        invariant
            i <= n,
            r@ + le_bytes(v as nat, (n - i) as nat) == le_bytes(x as nat, n as nat),
        decreases n - i,
    {
        let ghost rest = le_bytes((v / 256) as nat, (n - i - 1) as nat);
        assert(le_bytes(v as nat, (n - i) as nat) == seq![(v % 256) as u8] + rest);
        r.push((v % 256) as u8);
        v = v / 256;
        i = i + 1;
        assert(r@ + le_bytes(v as nat, (n - i) as nat) =~= le_bytes(x as nat, n as nat));
    }
    assert(r@ + seq![] =~= r@);
    r
}

/// Reads the number whose little-endian bytes are `s`.
pub fn le_decode(s: &[u8]) -> (r: u64)
    requires
        s@.len() <= 8,
    ensures
        r as nat == le_value(s@),
{
    let n = s.len();
    let mut acc: u64 = 0;
    let mut i: usize = n;
    proof {
        lemma_pow256_values();
        assert(s@.subrange(n as int, n as int) =~= seq![]);
    }
    while i > 0
        invariant
            i <= n,
            n == s@.len(),
            n <= 8,
            acc as nat == le_value(s@.subrange(i as int, n as int)),
            pow256(8) == 0x1_0000_0000_0000_0000,
        decreases i,
    {
        let ghost tail = s@.subrange(i as int, n as int);
        let ghost longer = s@.subrange(i - 1, n as int);
        proof {
            assert(longer.drop_first() =~= tail);
            lemma_le_roundtrip(0, (n - i) as nat, tail);
            lemma_pow_monotone((n - i) as nat, 7);
        }
        acc = acc * 256 + s[i - 1] as u64;
        i = i - 1;
    }
    assert(s@.subrange(0, n as int) =~= s@);
    acc
}

proof fn lemma_pow_monotone(a: nat, b: nat)
    requires
        a <= b,
    ensures
        pow256(a) <= pow256(b),
    decreases b,
{
    if a < b {
        lemma_pow_monotone(a, (b - 1) as nat);
        lemma_pow256_positive((b - 1) as nat);
    }
}

} // verus!
