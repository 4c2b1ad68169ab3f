use vstd::prelude::*;

verus! {

/// Concatenation of a sequence of byte strings, in order.
pub open spec fn flatten(s: Seq<Seq<u8>>) -> Seq<u8>
    decreases s.len(),
{
    if s.len() == 0 {
        Seq::empty()
    } else {
        flatten(s.drop_last()) + s.last()
    }
}

/// Every piece of `s` is `k` bytes long.
pub open spec fn all_len(s: Seq<Seq<u8>>, k: nat) -> bool {
    forall|i: int| 0 <= i < s.len() ==> #[trigger] s[i].len() == k
}

/// Pieces of a fixed width `k` sit at offsets that are multiples of `k`.
pub proof fn lemma_flatten_fixed(s: Seq<Seq<u8>>, k: nat)
    requires
        all_len(s, k),
    ensures
        flatten(s).len() == s.len() * k,
        forall|i: int|
            0 <= i < s.len() ==> #[trigger] flatten(s).subrange(i * k, i * k + k) == s[i],
    decreases s.len(),
{
    if s.len() > 0 {
        let t = s.drop_last();
        let n = s.len() as int;
        lemma_flatten_fixed(t, k);
        assert(t.len() * k + k == s.len() * k) by (nonlinear_arith)
            requires
                t.len() + 1 == s.len(),
        ;
        assert forall|i: int| 0 <= i < s.len() implies #[trigger] flatten(s).subrange(
            i * k,
            i * k + k,
        ) == s[i] by {
            if i < n - 1 {
                assert(i * k + k <= t.len() * k) by (nonlinear_arith)
                    requires
                        i + 1 <= t.len(),
                ;
                assert(0 <= i * k) by (nonlinear_arith)
                    requires
                        0 <= i,
                ;
                assert(flatten(s).subrange(i * k, i * k + k) =~= flatten(t).subrange(
                    i * k,
                    i * k + k,
                ));
                assert(flatten(t).subrange(i * k, i * k + k) == t[i]);
            } else {
                assert(i * k == t.len() * k);
                assert(flatten(s).subrange(i * k, i * k + k) =~= s.last());
            }
        }
    }
}

/// Reads `N` bytes of `s` from offset `p` into an array.
pub fn read_array<const N: usize>(s: &[u8], p: usize) -> (r: [u8; N])
    requires
        p + N <= s@.len(),
    ensures
        r@ == s@.subrange(p as int, p + N),
{
    let mut r: [u8; N] = [0u8; N];
    let len = s.len();
    let mut i: usize = 0;
    while i < N
        invariant
            i <= N,
            len == s@.len(),
            p + N <= s@.len(),
            r@.len() == N,
            forall|j: int| 0 <= j < i ==> r@[j] == s@[p + j],
        decreases N - i,
    {
        r[i] = s[p + i];
        i = i + 1;
    }
    assert(r@ =~= s@.subrange(p as int, p + N));
    r
}

/// Whether two byte strings are equal.
pub fn bytes_equal(a: &[u8], b: &[u8]) -> (r: bool)
    ensures
        r == (a@ == b@),
{
    if a.len() != b.len() {
        return false;
    }
    let mut i: usize = 0;
    while i < a.len()
        invariant
            a@.len() == b@.len(),
            i <= a@.len(),
            forall|j: int| 0 <= j < i ==> a@[j] == b@[j],
        decreases a@.len() - i,
    {
        if a[i] != b[i] {
            return false;
        }
        i = i + 1;
    }
    assert(a@ =~= b@);
    true
}

/// Appends the bytes of `b` to `out`.
pub fn push_bytes(out: &mut Vec<u8>, b: &[u8])
    ensures
        final(out)@ == old(out)@ + b@,
{
    let mut i: usize = 0;
    while i < b.len()
        invariant
            i <= b@.len(),
            out@ == old(out)@ + b@.take(i as int),
        decreases b@.len() - i,
    {
        out.push(b[i]);
        assert(b@.take(i + 1) =~= b@.take(i as int).push(b@[i as int]));
        i = i + 1;
    }
    assert(b@.take(b@.len() as int) =~= b@);
}

} // verus!
