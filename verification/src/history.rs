//! Index arithmetic of a sample window: which samples each drawn column
//! summarises when a window is squeezed into fewer columns.
use vstd::prelude::*;
use vstd::arithmetic::div_mod::{lemma_div_by_multiple, lemma_div_is_ordered, lemma_hoist_over_denominator};

verus! {

/// Samples `[start, end)` that column `i` of `buckets` covers in a window of
/// `len` samples: from `i * len / buckets` to `(i + 1) * len / buckets`, at
/// least one sample and never past the window.
pub open spec fn bucket_spec(len: nat, buckets: nat, i: nat) -> (nat, nat) {
    let start = i * len / buckets;
    let e0 = (i + 1) * len / buckets;
    let e1 = if e0 > start + 1 { e0 } else { start + 1 };
    (start, if e1 < len { e1 } else { len })
}

/// The columns of a window of `len` samples drawn in `buckets` columns:
/// none when either is zero, one sample each when the window is no longer
/// than the columns, else `bucket_spec` for each column.
pub open spec fn buckets_spec(len: nat, buckets: nat) -> Seq<(nat, nat)> {
    if buckets == 0 || len == 0 {
        Seq::empty()
    } else if len <= buckets {
        Seq::new(len, |j: int| (j as nat, (j + 1) as nat))
    } else {
        Seq::new(buckets, |i: int| bucket_spec(len, buckets, i as nat))
    }
}

/// The sample ranges that each column of a squeezed window covers.
pub fn bucket_bounds(len: usize, buckets: usize) -> (r: Vec<(usize, usize)>)
    requires
        len <= buckets || buckets * len <= usize::MAX,
    ensures
        r@.len() == buckets_spec(len as nat, buckets as nat).len(),
        forall|i: int|
            0 <= i < r@.len() ==> #[trigger] r@[i].0 == buckets_spec(len as nat, buckets as nat)[i].0
                && r@[i].1 == buckets_spec(len as nat, buckets as nat)[i].1,
{
    let mut out: Vec<(usize, usize)> = Vec::new();
    if buckets == 0 || len == 0 {
        return out;
    }
    if len <= buckets {
        let mut j: usize = 0;
        while j < len
            invariant
                0 < len <= buckets,
                j <= len,
                out@.len() == j,
                forall|k: int| 0 <= k < j ==> #[trigger] out@[k].0 == k && out@[k].1 == k + 1,
            decreases len - j,
        {
            out.push((j, j + 1));
            j = j + 1;
        }
        return out;
    }
    let mut i: usize = 0;
    while i < buckets
        invariant
            0 < buckets < len,
            buckets * len <= usize::MAX,
            i <= buckets,
            out@.len() == i,
            forall|k: int|
                0 <= k < i ==> #[trigger] out@[k].0 == bucket_spec(len as nat, buckets as nat, k as nat).0
                    && out@[k].1 == bucket_spec(len as nat, buckets as nat, k as nat).1,
        decreases buckets - i,
    {
        assert((i + 1) * len <= buckets * len) by (nonlinear_arith)
            requires
                i + 1 <= buckets,
        ;
        assert(i * len <= (i + 1) * len) by (nonlinear_arith);
        let start = i * len / buckets;
        let e0 = (i + 1) * len / buckets;
        proof {
            lemma_div_is_ordered((i * len) as int, (buckets * len) as int, buckets as int);
            lemma_div_by_multiple(len as int, buckets as int);
            assert(buckets * len == len * buckets) by (nonlinear_arith);
            lemma_next_start(len as nat, buckets as nat, i as nat);
        }
        let e1 = if e0 > start + 1 { e0 } else { start + 1 };
        let end = if e1 < len { e1 } else { len };
        out.push((start, end));
        i = i + 1;
    }
    out
}

proof fn lemma_next_start(len: nat, buckets: nat, i: nat)
    requires
        0 < buckets < len,
        i < buckets,
    ensures
        bucket_spec(len, buckets, i).1 == (i + 1) * len / buckets,
        bucket_spec(len, buckets, i).0 < bucket_spec(len, buckets, i).1,
{
    let a = (i * len) as int;
    let b = buckets as int;
    assert((i + 1) * len == a + len) by (nonlinear_arith)
        requires
            a == i * len,
    ;
    lemma_hoist_over_denominator(a, 1, buckets);
    lemma_div_is_ordered(a + b, a + len, b);
    assert((i + 1) * len <= buckets * len) by (nonlinear_arith)
        requires
            i + 1 <= buckets,
    ;
    lemma_div_is_ordered(((i + 1) * len) as int, (buckets * len) as int, b);
    lemma_div_by_multiple(len as int, b);
    assert(buckets * len == len * buckets) by (nonlinear_arith);
}

/// The columns of a squeezed window split it into consecutive non-empty
/// slices: the first starts at sample 0, each ends where the next begins,
/// and the last ends at the window's end, so every sample is summarised by
/// exactly one column.
pub proof fn law_buckets_cover_the_window(len: nat, buckets: nat)
    requires
        buckets > 0,
        len > 0,
    ensures
        buckets_spec(len, buckets).len() == (if len <= buckets { len } else { buckets }),
        buckets_spec(len, buckets)[0].0 == 0,
        buckets_spec(len, buckets).last().1 == len,
        forall|i: int|
            0 <= i < buckets_spec(len, buckets).len() ==> #[trigger] buckets_spec(len, buckets)[i].0
                < buckets_spec(len, buckets)[i].1,
        forall|i: int|
            0 <= i < buckets_spec(len, buckets).len() - 1 ==> #[trigger] buckets_spec(len, buckets)[i].1
                == buckets_spec(len, buckets)[i + 1].0,
{
    let s = buckets_spec(len, buckets);
    if len > buckets {
        assert(0 * len == 0);
        assert(s[0].0 == 0);
        assert forall|i: int| 0 <= i < s.len() implies #[trigger] s[i].0 < s[i].1 by {
            lemma_next_start(len, buckets, i as nat);
        }
        assert forall|i: int| 0 <= i < s.len() - 1 implies #[trigger] s[i].1 == s[i + 1].0 by {
            lemma_next_start(len, buckets, i as nat);
            assert((i + 1) as nat == i + 1);
        }
        lemma_next_start(len, buckets, (buckets - 1) as nat);
        lemma_div_by_multiple(len as int, buckets as int);
        assert(buckets * len == len * buckets) by (nonlinear_arith);
        assert(((buckets - 1) as nat + 1) == buckets);
    }
}

} // verus!
