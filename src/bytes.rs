use vstd::arithmetic::div_mod::lemma_fundamental_div_mod;
use vstd::arithmetic::power::{lemma_pow_positive, pow};
use vstd::prelude::*;

verus! {

/// The number a little-endian byte sequence stands for.
pub open spec fn le_value(s: Seq<u8>) -> nat
    decreases s.len(),
{
    if s.len() == 0 {
        0
    } else {
        s[0] as nat + 256 * le_value(s.drop_first())
    }
}

/// The `n` low-order bytes of `x`, least significant first.
pub open spec fn le_bytes(x: nat, n: nat) -> Seq<u8>
    decreases n,
{
    if n == 0 {
        Seq::empty()
    } else {
        seq![(x % 256) as u8] + le_bytes(x / 256, (n - 1) as nat)
    }
}

/// `n` bytes of `b` from `start` on, where those past the end of `b` read as zero.
pub open spec fn window(b: Seq<u8>, start: int, n: nat) -> Seq<u8> {
    Seq::new(n, |i: int| if start + i < b.len() { b[start + i] } else { 0u8 })
}

pub proof fn lemma_le_bytes_len(x: nat, n: nat)
    ensures
        le_bytes(x, n).len() == n,
    decreases n,
{
    if n > 0 {
        lemma_le_bytes_len(x / 256, (n - 1) as nat);
    }
}

pub proof fn lemma_le_value_bound(s: Seq<u8>)
    ensures
        le_value(s) < pow(256, s.len()),
    decreases s.len(),
{
    reveal(pow);
    if s.len() > 0 {
        lemma_le_value_bound(s.drop_first());
        let r = le_value(s.drop_first());
        let p = pow(256, (s.len() - 1) as nat);
        assert(r + 1 <= p);
        assert(256 * (r + 1) <= 256 * p) by (nonlinear_arith)
            requires
                r + 1 <= p,
        ;
    }
}

/// Reading back the bytes of a number gives the number, when it fits in them.
pub proof fn lemma_le_round_trip(x: nat, n: nat)
    requires
        x < pow(256, n),
    ensures
        le_value(le_bytes(x, n)) == x,
    decreases n,
{
    reveal(pow);
    if n == 0 {
    } else {
        let p = pow(256, (n - 1) as nat);
        lemma_pow_positive(256, (n - 1) as nat);
        lemma_fundamental_div_mod(x as int, 256);
        assert(x / 256 < p) by (nonlinear_arith)
            requires
                x < 256 * p,
                x == 256 * (x / 256) + x % 256,
                0 <= x % 256,
        ;
        lemma_le_round_trip(x / 256, (n - 1) as nat);
        let s = le_bytes(x, n);
        assert(s.drop_first() =~= le_bytes(x / 256, (n - 1) as nat));
    }
}

/// Encodes the `n` low-order bytes of `x`, least significant first.
pub fn le_encode(x: u64, n: usize) -> (r: Vec<u8>)
    requires
        n <= 8,
    ensures
        r@ == le_bytes(x as nat, n as nat),
{
    let mut r: Vec<u8> = Vec::new();
    let mut cur: u64 = x;
    let mut i: usize = 0;
    while i < n
        invariant
            i <= n,
            r@ + le_bytes(cur as nat, (n - i) as nat) == le_bytes(x as nat, n as nat),
        decreases n - i,
    {
        let ghost before = r@;
        r.push((cur % 256) as u8);
        proof {
            let k = (n - i) as nat;
            assert(le_bytes(cur as nat, k) == seq![(cur as nat % 256) as u8] + le_bytes(
                cur as nat / 256,
                (k - 1) as nat,
            ));
            assert(r@ + le_bytes(cur as nat / 256, (k - 1) as nat) =~= before + le_bytes(
                cur as nat,
                k,
            ));
        }
        cur = cur / 256;
        i = i + 1;
    }
    proof {
        assert(le_bytes(cur as nat, 0) =~= Seq::<u8>::empty());
        assert(r@ =~= r@ + le_bytes(cur as nat, 0));
    }
    r
}

/// Reads `n` bytes of `b` from `start` on as a little-endian number; bytes past the
/// end of `b` read as zero.
pub fn le_read(b: &Vec<u8>, start: usize, n: usize) -> (r: u64)
    requires
        n <= 8,
    ensures
        r as nat == le_value(window(b@, start as int, n as nat)),
{
    let ghost w = window(b@, start as int, n as nat);
    let mut acc: u64 = 0;
    let mut j: usize = n;
    proof {
        assert(w.subrange(n as int, n as int) =~= Seq::<u8>::empty());
    }
    while j > 0
        invariant
            j <= n <= 8,
            w == window(b@, start as int, n as nat),
            acc as nat == le_value(w.subrange(j as int, n as int)),
        decreases j,
    {
        j = j - 1;
        let byte: u8 = if start < b.len() && j < b.len() - start {
            b[start + j]
        } else {
            0
        };
        proof {
            let s = w.subrange(j as int, n as int);
            assert(s.drop_first() =~= w.subrange(j + 1, n as int));
            assert(byte == s[0]);
            lemma_le_value_bound(s.drop_first());
            assert(pow(256, (n - j - 1) as nat) <= pow(256, 7)) by {
                vstd::arithmetic::power::lemma_pow_increases(256, (n - j - 1) as nat, 7);
            }
            assert(pow(256, 7) == 0x100000000000000) by {
                reveal_with_fuel(pow, 8);
            }
        }
        acc = acc * 256 + byte as u64;
    }
    proof {
        assert(w.subrange(0, n as int) =~= w);
    }
    acc
}

} // verus!
