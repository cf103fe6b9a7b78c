//! Long lists cut into batches.
use vstd::prelude::*;

verus! {

/// The number of batches that `len` items make.
pub open spec fn batch_count(len: nat, size: nat) -> nat
    recommends
        size > 0,
{
    if len % size == 0 {
        len / size
    } else {
        len / size + 1
    }
}

/// Where batch `k` begins and ends.
pub open spec fn batch_range(len: nat, size: nat, k: nat) -> (nat, nat) {
    (
        k * size,
        if (k + 1) * size < len {
            (k + 1) * size
        } else {
            len
        },
    )
}

/// Where each batch of at most `size` out of `len` items begins and ends.
pub fn batches(len: usize, size: usize) -> (r: Vec<(usize, usize)>)
    requires
        size > 0,
    ensures
        r@.len() == batch_count(len as nat, size as nat),
        forall|k: int|
            0 <= k < r@.len() ==> {
                &&& (#[trigger] r@[k]).0 == batch_range(len as nat, size as nat, k as nat).0
                &&& r@[k].1 == batch_range(len as nat, size as nat, k as nat).1
            },
{
    let mut out: Vec<(usize, usize)> = Vec::new();
    let mut from: usize = 0;
    assert(out@.len() * size == 0) by (nonlinear_arith)
        requires
            out@.len() == 0,
    ;
    proof {
        if len == 0 {
            vstd::arithmetic::div_mod::lemma_fundamental_div_mod_converse(0, size as int, 0, 0);
        }
    }
    while from < len
        invariant
            size > 0,
            from <= len,
            out@.len() * size >= from,
            from < len ==> out@.len() * size == from,
            from == len ==> out@.len() == batch_count(len as nat, size as nat),
            forall|k: int|
                0 <= k < out@.len() ==> {
                    &&& (#[trigger] out@[k]).0 == batch_range(len as nat, size as nat, k as nat).0
                    &&& out@[k].1 == batch_range(len as nat, size as nat, k as nat).1
                },
        decreases len - from,
    {
        let to: usize = if size < len - from {
            from + size
        } else {
            len
        };
        let ghost n = out@.len();
        proof {
            let (l, s) = (len as int, size as int);
            assert((n + 1) * s == n * s + s) by (nonlinear_arith);
            if to == len {
                let left = l - n * s;
                assert(0 < left <= s);
                if left == s {
                    assert(l == (n + 1) * s + 0);
                    vstd::arithmetic::div_mod::lemma_fundamental_div_mod_converse(
                        l,
                        s,
                        (n + 1) as int,
                        0,
                    );
                } else {
                    assert(l == n * s + left);
                    vstd::arithmetic::div_mod::lemma_fundamental_div_mod_converse(l, s, n as int, left);
                }
            }
        }
        out.push((from, to));
        from = to;
    }
    out
}

/// Batches follow one another without a gap, hold one to `size` items each, and together hold
/// everything.
pub proof fn law_batches_cover(len: nat, size: nat)
    requires
        size > 0,
    ensures
        batch_count(len, size) == 0 <==> len == 0,
        len > 0 ==> batch_range(len, size, 0).0 == 0,
        len > 0 ==> batch_range(len, size, (batch_count(len, size) - 1) as nat).1 == len,
        forall|k: nat|
            k < batch_count(len, size) ==> {
                let (from, to) = #[trigger] batch_range(len, size, k);
                from < to <= from + size
            },
        forall|k: nat|
            k + 1 < batch_count(len, size) ==> (#[trigger] batch_range(len, size, k)).1
                == batch_range(len, size, k + 1).0,
{
    let n = batch_count(len, size);
    let (q, m) = (len / size, len % size);
    vstd::arithmetic::div_mod::lemma_fundamental_div_mod(len as int, size as int);
    assert(len == size * q + m);
    assert(0 <= m < size) by (nonlinear_arith)
        requires
            size > 0,
            m == len % size,
    ;
    assert(q * size == size * q) by (nonlinear_arith);
    assert(0 * size == 0) by (nonlinear_arith);
    if len > 0 {
        assert(q > 0 || m > 0) by (nonlinear_arith)
            requires
                len == size * q + m,
                len > 0,
        ;
        let k = (n - 1) as nat;
        assert((k + 1) * size == n * size);
        assert((q + 1) * size == q * size + size) by (nonlinear_arith);
        assert(n * size >= len);
        assert(1 * size == size) by (nonlinear_arith);
    } else {
        assert(q == 0) by (nonlinear_arith)
            requires
                0 == size * q + m,
                size > 0,
                m >= 0,
                q >= 0,
        ;
    }
    assert forall|k: nat| k < n implies {
        let (from, to) = #[trigger] batch_range(len, size, k);
        from < to <= from + size
    } by {
        assert((k + 1) * size == k * size + size) by (nonlinear_arith);
        assert(k * size <= q * size) by (nonlinear_arith)
            requires
                k <= q,
        ;
        if k < q {
            assert(k * size + size <= q * size) by (nonlinear_arith)
                requires
                    k + 1 <= q,
            ;
        }
    }
    assert forall|k: nat| k + 1 < n implies (#[trigger] batch_range(len, size, k)).1
        == batch_range(len, size, k + 1).0 by {
        assert((k + 1) * size <= q * size) by (nonlinear_arith)
            requires
                k + 1 <= q,
        ;
    }
}

} // verus!
