use vstd::prelude::*;

verus! {

/// Alignment unit of the data region: every payload is padded to a multiple of it.
pub const GGUF_DEFAULT_ALIGNMENT: usize = 16;

/// The smallest multiple of `a` that is at least `n`.
pub open spec fn pad_to(n: int, a: int) -> int
    recommends
        0 <= n,
        0 < a,
{
    ((n + a - 1) / a) * a
}

/// The size a payload of `n` bytes takes in the data region, padding included.
pub open spec fn padded_len(n: int) -> int {
    pad_to(n, GGUF_DEFAULT_ALIGNMENT as int)
}

/// `n` zero bytes.
pub open spec fn zeros(n: int) -> Seq<u8> {
    Seq::new(n as nat, |i: int| 0u8)
}

/// `pad_to` is the least multiple of `a` that is not below `n`.
pub proof fn lemma_pad_to(n: int, a: int)
    requires
        0 <= n,
        0 < a,
    ensures
        n <= pad_to(n, a),
        pad_to(n, a) < n + a,
        pad_to(n, a) % a == 0,
        n % a == 0 ==> pad_to(n, a) == n,
{
    let q = (n + a - 1) / a;
    let r = (n + a - 1) % a;
    assert(n + a - 1 == q * a + r && 0 <= r < a) by (nonlinear_arith)
        requires
            0 < a,
            q == (n + a - 1) / a,
            r == (n + a - 1) % a,
    ;
    assert((q * a) % a == 0) by (nonlinear_arith)
        requires
            0 < a,
    ;
    if n % a == 0 {
        let m = n / a;
        assert(n == m * a) by (nonlinear_arith)
            requires
                0 < a,
                n % a == 0,
                m == n / a,
        ;
        assert(q == m) by (nonlinear_arith)
            requires
                0 < a,
                n == m * a,
                n + a - 1 == q * a + r,
                0 <= r < a,
        ;
    }
}

/// Rounds `n_bytes` up to the next multiple of `alignment`.
pub fn ggml_pad(n_bytes: usize, alignment: usize) -> (r: usize)
    requires
        alignment > 0,
        n_bytes + alignment - 1 <= usize::MAX,
    ensures
        r == pad_to(n_bytes as int, alignment as int),
        n_bytes <= r < n_bytes + alignment,
        r % alignment == 0,
{
    proof {
        lemma_pad_to(n_bytes as int, alignment as int);
    }
    let q = (n_bytes + (alignment - 1)) / alignment;
    assert(q * alignment == pad_to(n_bytes as int, alignment as int));
    q * alignment
}

/// Appends `count` zero bytes to `out`.
pub fn write_zeros(out: &mut Vec<u8>, count: usize)
    ensures
        final(out)@ == old(out)@ + zeros(count as int),
{
    let ghost start = out@;
    let mut k: usize = 0;
    while k < count
        invariant
            k <= count,
            out@ == start + zeros(k as int),
        decreases count - k,
    {
        out.push(0u8);
        k = k + 1;
        assert(out@ =~= start + zeros(k as int));
    }
}

/// Appends one payload to `out`, followed by the zero bytes that bring its
/// length to a multiple of the alignment unit.
pub fn append_padded(out: &mut Vec<u8>, payload: &[u8])
    requires
        payload@.len() + GGUF_DEFAULT_ALIGNMENT <= usize::MAX,
    ensures
        final(out)@ == old(out)@ + payload@ + zeros(padded_len(payload@.len() as int) - payload@.len()),
{
    let ghost start = out@;
    let n = payload.len();
    let mut k: usize = 0;
    while k < n
        invariant
            k <= n,
            n == payload@.len(),
            out@ == start + payload@.subrange(0, k as int),
        decreases n - k,
    {
        out.push(payload[k]);
        k = k + 1;
        assert(out@ =~= start + payload@.subrange(0, k as int));
    }
    assert(payload@.subrange(0, n as int) =~= payload@);
    let padded = ggml_pad(n, GGUF_DEFAULT_ALIGNMENT);
    write_zeros(out, padded - n);
}

} // verus!
