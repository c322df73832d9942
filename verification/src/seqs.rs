use vstd::prelude::*;

verus! {

/// The concatenation of the chunks `f(0), f(1), ..., f(n - 1)`.
pub open spec fn concat_chunks(f: spec_fn(int) -> Seq<u8>, n: nat) -> Seq<u8>
    decreases n,
{
    if n == 0 {
        Seq::empty()
    } else {
        concat_chunks(f, (n - 1) as nat) + f(n - 1)
    }
}

/// Concatenating `n` chunks of `b` bytes each gives `n * b` bytes, and byte
/// `c` of chunk `j` lands at `j * b + c`.
pub proof fn lemma_concat_chunks(f: spec_fn(int) -> Seq<u8>, n: nat, b: nat)
    requires
        forall|j: int| 0 <= j < n ==> (#[trigger] f(j)).len() == b,
    ensures
        concat_chunks(f, n).len() == n * b,
        forall|j: int, c: int|
            0 <= j < n && 0 <= c < b ==> concat_chunks(f, n)[j * b + c] == #[trigger] f(j)[c],
    decreases n,
{
    if n > 0 {
        lemma_concat_chunks(f, (n - 1) as nat, b);
        let prev = concat_chunks(f, (n - 1) as nat);
        assert(prev.len() == (n - 1) * b);
        assert(f(n - 1).len() == b);
        assert(concat_chunks(f, n) == prev + f(n - 1));
        assert((n - 1) * b + b == n * b) by (nonlinear_arith);
        assert(concat_chunks(f, n).len() == n * b);
        assert forall|j: int, c: int| 0 <= j < n && 0 <= c < b implies concat_chunks(f, n)[j * b
            + c] == #[trigger] f(j)[c] by {
            if j < n - 1 {
                assert(j * b + c < (n - 1) * b) by (nonlinear_arith)
                    requires
                        0 <= j < n - 1,
                        0 <= c < b,
                ;
                assert(0 <= j * b + c) by (nonlinear_arith)
                    requires
                        0 <= j,
                        0 <= c,
                        0 <= b,
                ;
            } else {
                assert(j * b == (n - 1) * b);
            }
        }
    } else {
        assert(n * b == 0) by (nonlinear_arith)
            requires
                n == 0,
        ;
    }
}

/// Concatenating equal chunk functions over equal counts gives equal bytes.
pub proof fn lemma_concat_chunks_ext(f: spec_fn(int) -> Seq<u8>, g: spec_fn(int) -> Seq<u8>, n: nat)
    requires
        forall|j: int| 0 <= j < n ==> #[trigger] f(j) == g(j),
    ensures
        concat_chunks(f, n) == concat_chunks(g, n),
    decreases n,
{
    if n > 0 {
        lemma_concat_chunks_ext(f, g, (n - 1) as nat);
        assert(f(n - 1) == g(n - 1));
    }
}

/// For `j * b <= k < (j + 1) * b`, `k / b == j` and `k % b == k - j * b`.
pub proof fn lemma_chunk_index(k: int, j: int, b: int)
    requires
        b > 0,
        j * b <= k < j * b + b,
    ensures
        k / b == j,
        k % b == k - j * b,
{
    vstd::arithmetic::div_mod::lemma_fundamental_div_mod_converse(k, b, j, k - j * b);
}

/// `j < n` implies `j * b + b <= n * b` for nonnegative `b`.
pub proof fn lemma_mul_step(j: int, n: int, b: int)
    requires
        0 <= j < n,
        0 <= b,
    ensures
        j * b + b <= n * b,
        0 <= j * b,
{
    assert(j * b + b <= n * b) by (nonlinear_arith)
        requires
            0 <= j < n,
            0 <= b,
    ;
    assert(0 <= j * b) by (nonlinear_arith)
        requires
            0 <= j,
            0 <= b,
    ;
}

} // verus!
