use vstd::prelude::*;

verus! {

/// `256` to the power `n`.
pub open spec fn pow256(n: nat) -> nat
    decreases n,
{
    if n == 0 {
        1
    } else {
        256 * pow256((n - 1) as nat)
    }
}

/// The number that bytes denote, most significant byte first.
pub open spec fn be_value(b: Seq<u8>) -> nat
    decreases b.len(),
{
    if b.len() == 0 {
        0
    } else {
        be_value(b.drop_last()) * 256 + b.last() as nat
    }
}

/// The `n` lowest bytes of a number, most significant byte first.
pub open spec fn be_bytes(x: nat, n: nat) -> Seq<u8>
    decreases n,
{
    if n == 0 {
        seq![]
    } else {
        be_bytes(x / 256, (n - 1) as nat).push((x % 256) as u8)
    }
}

pub proof fn lemma_be_value_bound(b: Seq<u8>)
    ensures
        be_value(b) < pow256(b.len()),
    decreases b.len(),
{
    if b.len() > 0 {
        lemma_be_value_bound(b.drop_last());
        let v = be_value(b.drop_last());
        let p = pow256((b.len() - 1) as nat);
        assert(v * 256 + b.last() < p * 256) by (nonlinear_arith)
            requires
                v < p,
                b.last() < 256,
        ;
    }
}

/// Reading back the bytes of a number gives the number, modulo the range of
/// the bytes.
pub proof fn lemma_be_roundtrip(x: nat, n: nat)
    ensures
        be_bytes(x, n).len() == n,
        be_value(be_bytes(x, n)) == x % pow256(n),
    decreases n,
{
    if n > 0 {
        lemma_be_roundtrip(x / 256, (n - 1) as nat);
        let b = be_bytes(x, n);
        assert(b.drop_last() == be_bytes(x / 256, (n - 1) as nat));
        let p = pow256((n - 1) as nat);
        assert(p > 0) by {
            lemma_pow256_positive((n - 1) as nat);
        }
        assert(((x / 256) % p) * 256 + x % 256 == x % (256 * p)) by (nonlinear_arith)
            requires
                p > 0,
        {
            lemma_mod_mul(x, p);
        }
    }
}

pub proof fn lemma_pow256_positive(n: nat)
    ensures
        pow256(n) > 0,
    decreases n,
{
    if n > 0 {
        lemma_pow256_positive((n - 1) as nat);
    }
}

proof fn lemma_mod_mul(x: nat, p: nat)
    requires
        p > 0,
    ensures
        ((x / 256) % p) * 256 + x % 256 == x % (256 * p),
{
    let q = x / 256;
    let r = x % 256;
    vstd::arithmetic::div_mod::lemma_fundamental_div_mod(x as int, 256);
    let qq = q / p;
    let qr = q % p;
    vstd::arithmetic::div_mod::lemma_fundamental_div_mod(q as int, p as int);
    assert(x == qq * (256 * p) + (qr * 256 + r)) by (nonlinear_arith)
        requires
            x == 256 * q + r,
            q == p * qq + qr,
    ;
    assert(0 <= qr * 256 + r < 256 * p) by (nonlinear_arith)
        requires
            0 <= qr < p,
            0 <= r < 256,
    ;
    vstd::arithmetic::div_mod::lemma_fundamental_div_mod_converse(
        x as int,
        (256 * p) as int,
        qq as int,
        (qr * 256 + r) as int,
    );
}

/// Decodes up to eight bytes, most significant first, into a number.
pub fn be_decode(b: &Vec<u8>) -> (r: u64)
    requires
        b@.len() <= 8,
    ensures
        r == be_value(b@),
{
    let mut v: u64 = 0;
    let mut i: usize = 0;
    while i < b.len()
        invariant
            i <= b@.len() <= 8,
            v == be_value(b@.take(i as int)),
        decreases b@.len() - i,
    {
        proof {
            lemma_be_value_bound(b@.take(i as int));
            assert(pow256(i as nat) <= pow256(7)) by {
                lemma_pow256_mono(i as nat, 7);
            }
            assert(pow256(7) == 0x100_0000_0000_0000) by {
                reveal_with_fuel(pow256, 8);
            }
            assert(b@.take(i + 1).drop_last() =~= b@.take(i as int));
        }
        v = v * 256 + b[i] as u64;
        i = i + 1;
    }
    assert(b@.take(b@.len() as int) =~= b@);
    v
}

pub proof fn lemma_pow256_mono(a: nat, b: nat)
    requires
        a <= b,
    ensures
        pow256(a) <= pow256(b),
    decreases b,
{
    if a < b {
        lemma_pow256_mono(a, (b - 1) as nat);
        lemma_pow256_positive((b - 1) as nat);
    }
}

/// Encodes the `n` lowest bytes of a number, most significant first.
pub fn be_encode(x: u64, n: usize) -> (r: Vec<u8>)
    ensures
        r@ == be_bytes(x as nat, n as nat),
    decreases n,
{
    if n == 0 {
        Vec::new()
    } else {
        let mut r = be_encode(x / 256, n - 1);
        r.push((x % 256) as u8);
        r
    }
}

} // verus!
