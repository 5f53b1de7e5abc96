//! Two ways of summing a buffer of bytes with wrapping 8-bit arithmetic, as
//! compared by the throughput benchmark.
use vstd::prelude::*;

verus! {

/// The sum of the bytes of `s`, without wrapping.
pub open spec fn byte_sum(s: Seq<u8>) -> nat
    decreases s.len(),
{
    if s.len() == 0 {
        0
    } else {
        byte_sum(s.drop_last()) + s.last() as nat
    }
}

/// The sum, without wrapping, of the wrapped running sums of `s`: after each
/// byte, the 8-bit sum of the bytes so far.
pub open spec fn running_sums_total(s: Seq<u8>) -> nat
    decreases s.len(),
{
    if s.len() == 0 {
        0
    } else {
        running_sums_total(s.drop_last()) + byte_sum(s) % 256
    }
}

/// Adding a byte at the end adds its value to the sum, whatever the
/// position and value of the byte.
pub proof fn lemma_byte_sum_push(s: Seq<u8>, b: u8)
    ensures
        byte_sum(s.push(b)) == byte_sum(s) + b,
{
    assert(s.push(b).drop_last() =~= s);
}

/// The sum of two buffers laid end to end is the sum of their sums: each
/// byte counts once, wherever it stands.
pub proof fn lemma_byte_sum_append(s: Seq<u8>, t: Seq<u8>)
    ensures
        byte_sum(s + t) == byte_sum(s) + byte_sum(t),
    decreases t.len(),
{
    if t.len() == 0 {
        assert(s + t =~= s);
    } else {
        let u = t.drop_last();
        let b = t.last();
        lemma_byte_sum_append(s, u);
        assert(s + t =~= (s + u).push(b));
        assert(t =~= u.push(b));
        lemma_byte_sum_push(s + u, b);
        lemma_byte_sum_push(u, b);
    }
}

/// Adding a byte at the end adds one running sum to the total: the 8-bit
/// sum of all bytes up to and including it, whatever its value, zero too.
pub proof fn lemma_running_sums_push(s: Seq<u8>, b: u8)
    ensures
        running_sums_total(s.push(b)) == running_sums_total(s) + (byte_sum(s) + b) % 256,
{
    assert(s.push(b).drop_last() =~= s);
    lemma_byte_sum_push(s, b);
}

/// The 8-bit wrapping sum of the bytes of `a`, indexing the buffer.
pub fn slow(a: &[u8]) -> (sum: u8)
    ensures
        sum == byte_sum(a@) % 256,
{
    let mut sum = 0u8;
    let mut ndx: usize = 0;
    while ndx < a.len()
        invariant
            ndx <= a@.len(),
            sum == byte_sum(a@.take(ndx as int)) % 256,
        decreases a@.len() - ndx,
    {
        assert(a@.take(ndx + 1).drop_last() =~= a@.take(ndx as int));
        sum = sum.wrapping_add(a[ndx]);
        ndx = ndx + 1;
    }
    assert(a@.take(ndx as int) =~= a@);
    sum
}

/// The 8-bit wrapping sum of the bytes of `a`, walking the buffer, plus the
/// sum of the running sums. The running sums are added up in 8 bits without
/// wrapping, so their total must stay below 256.
pub fn fast(a: &[u8]) -> (r: u8)
    requires
        running_sums_total(a@) <= u8::MAX,
    ensures
        r == (byte_sum(a@) + running_sums_total(a@)) % 256,
{
    let mut sum = 0u8;
    let mut ndx: u8 = 0;
    let mut i: usize = 0;
    while i < a.len()
        invariant
            i <= a@.len(),
            sum == byte_sum(a@.take(i as int)) % 256,
            ndx == running_sums_total(a@.take(i as int)),
            running_sums_total(a@) <= u8::MAX,
        decreases a@.len() - i,
    {
        assert(a@.take(i + 1).drop_last() =~= a@.take(i as int));
        proof {
            lemma_running_sums_total_prefix(a@, i + 1);
        }
        sum = sum.wrapping_add(a[i]);
        ndx = ndx + sum;
        i = i + 1;
    }
    assert(a@.take(i as int) =~= a@);
    sum.wrapping_add(ndx)
}

/// The running sums of a prefix total no more than those of the whole.
proof fn lemma_running_sums_total_prefix(s: Seq<u8>, k: int)
    requires
        0 <= k <= s.len(),
    ensures
        running_sums_total(s.take(k)) <= running_sums_total(s),
    decreases s.len() - k,
{
    if k < s.len() {
        assert(s.take(k + 1).drop_last() =~= s.take(k));
        lemma_running_sums_total_prefix(s, k + 1);
    } else {
        assert(s.take(k) =~= s);
    }
}

} // verus!
