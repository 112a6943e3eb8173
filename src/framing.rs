use vstd::prelude::*;

verus! {

/// The byte that opens each framed buffer.
pub const OPEN: u8 = 0x3c;

/// The byte that closes each framed buffer.
pub const CLOSE: u8 = 0x3e;

/// The number of bytes of the trailing buffer count.
pub const COUNT_WIDTH: usize = 8;

/// The contents of each buffer of a sequence.
pub open spec fn buffers_view(contents: Seq<&[u8]>) -> Seq<Seq<u8>> {
    contents.map_values(|b: &[u8]| b@)
}

/// One buffer between its delimiters.
pub open spec fn framed_segment(b: Seq<u8>) -> Seq<u8> {
    seq![OPEN] + b + seq![CLOSE]
}

/// All buffers, each between its delimiters, one after another.
pub open spec fn framed_segments(bs: Seq<Seq<u8>>) -> Seq<u8>
    decreases bs.len(),
{
    if bs.len() == 0 {
        Seq::empty()
    } else {
        framed_segments(bs.drop_last()) + framed_segment(bs.last())
    }
}

/// The lowest `k` base-256 digits of `n`, most significant first.
pub open spec fn be_bytes(n: nat, k: nat) -> Seq<u8>
    decreases k,
{
    if k == 0 {
        Seq::empty()
    } else {
        be_bytes(n / 256, (k - 1) as nat).push((n % 256) as u8)
    }
}

/// The framed form of a sequence of buffers: each buffer between its
/// delimiters, then the number of buffers as eight big-endian bytes.
pub open spec fn frame(bs: Seq<Seq<u8>>) -> Seq<u8> {
    framed_segments(bs) + be_bytes(bs.len(), COUNT_WIDTH as nat)
}

/// `n` as eight big-endian bytes.
fn count_bytes(n: u64) -> (r: Vec<u8>)
    ensures
        r@ == be_bytes(n as nat, COUNT_WIDTH as nat),
{
    let mut out: Vec<u8> = Vec::new();
    let mut v: u64 = n;
    let mut i: usize = 0;
    while i < COUNT_WIDTH
        invariant
            i <= COUNT_WIDTH,
            be_bytes(n as nat, COUNT_WIDTH as nat) == be_bytes(v as nat, (COUNT_WIDTH - i) as nat)
                + out@,
        decreases COUNT_WIDTH - i,
    {
        let ghost before = out@;
        let d: u8 = (v % 256) as u8;
        out.insert(0, d);
        assert(out@ =~= seq![d] + before);
        assert(be_bytes(v as nat, (COUNT_WIDTH - i) as nat) == be_bytes(
            (v / 256) as nat,
            (COUNT_WIDTH - i - 1) as nat,
        ).push(d));
        assert(be_bytes((v / 256) as nat, (COUNT_WIDTH - i - 1) as nat).push(d) + before
            =~= be_bytes((v / 256) as nat, (COUNT_WIDTH - i - 1) as nat) + out@);
        v = v / 256;
        i = i + 1;
    }
    assert(be_bytes(v as nat, 0) + out@ =~= out@);
    out
}

/// Joins a sequence of buffers into one buffer that keeps how the input was
/// split: each buffer between an opening and a closing delimiter, then the
/// number of buffers as eight big-endian bytes.
pub fn collapse_contents(contents: Vec<&[u8]>) -> (r: Vec<u8>)
    requires
        frame(buffers_view(contents@)).len() <= usize::MAX,
    ensures
        r@ == frame(buffers_view(contents@)),
{
    let ghost bs = buffers_view(contents@);
    let mut data: Vec<u8> = Vec::new();
    let mut i: usize = 0;
    while i < contents.len()
        invariant
            i <= contents@.len(),
            bs == buffers_view(contents@),
            frame(bs).len() <= usize::MAX,
            data@ == framed_segments(bs.take(i as int)),
        decreases contents@.len() - i,
    {
        let b: &[u8] = contents[i];
        proof { lemma_segments_prefix_len(bs, i as int + 1); }
        assert(bs.take(i as int + 1).drop_last() =~= bs.take(i as int));
        let ghost start = data@;
        data.push(OPEN);
        let mut j: usize = 0;
        while j < b.len()
            invariant
                j <= b@.len(),
                b@ == bs[i as int],
                data@ == start + seq![OPEN] + b@.take(j as int),
                start.len() + b@.len() + 2 <= usize::MAX,
            decreases b@.len() - j,
        {
            data.push(b[j]);
            assert(b@.take(j as int + 1) =~= b@.take(j as int).push(b@[j as int]));
            assert(data@ =~= start + seq![OPEN] + b@.take(j as int + 1));
            j = j + 1;
        }
        data.push(CLOSE);
        assert(b@.take(b@.len() as int) =~= b@);
        assert(data@ =~= framed_segments(bs.take(i as int + 1)));
        i = i + 1;
    }
    assert(bs.take(contents@.len() as int) =~= bs);
    let count = count_bytes(contents.len() as u64);
    let mut k: usize = 0;
    let ghost segs = data@;
    while k < count.len()
        invariant
            k <= count@.len(),
            count@ == be_bytes(bs.len(), COUNT_WIDTH as nat),
            segs == framed_segments(bs),
            frame(bs).len() <= usize::MAX,
            data@ == segs + count@.take(k as int),
        decreases count@.len() - k,
    {
        data.push(count[k]);
        assert(count@.take(k as int + 1) =~= count@.take(k as int).push(count@[k as int]));
        assert(data@ =~= segs + count@.take(k as int + 1));
        k = k + 1;
    }
    assert(count@.take(count@.len() as int) =~= count@);
    data
}

/// The framed form of the first `n` buffers is no longer than that of all of
/// them.
proof fn lemma_segments_prefix_len(bs: Seq<Seq<u8>>, n: int)
    requires
        0 <= n <= bs.len(),
    ensures
        framed_segments(bs.take(n)).len() <= framed_segments(bs).len(),
    decreases bs.len(),
{
    if n < bs.len() {
        assert(bs.drop_last().take(n) =~= bs.take(n));
        lemma_segments_prefix_len(bs.drop_last(), n);
    } else {
        assert(bs.take(n) =~= bs);
    }
}

/// Distinct numbers below 256 to the `k` have distinct `k`-byte forms.
proof fn lemma_be_bytes_injective(n: nat, m: nat, k: nat)
    requires
        n < pow256(k),
        m < pow256(k),
        be_bytes(n, k) == be_bytes(m, k),
    ensures
        n == m,
    decreases k,
{
    if k > 0 {
        let pn = be_bytes(n / 256, (k - 1) as nat);
        let pm = be_bytes(m / 256, (k - 1) as nat);
        assert(be_bytes(n, k).last() == (n % 256) as u8);
        assert(be_bytes(m, k).last() == (m % 256) as u8);
        assert(be_bytes(n, k).drop_last() =~= pn);
        assert(be_bytes(m, k).drop_last() =~= pm);
        assert(n / 256 < pow256((k - 1) as nat)) by (nonlinear_arith)
            requires
                n < pow256(k),
                pow256(k) == 256 * pow256((k - 1) as nat),
        ;
        assert(m / 256 < pow256((k - 1) as nat)) by (nonlinear_arith)
            requires
                m < pow256(k),
                pow256(k) == 256 * pow256((k - 1) as nat),
        ;
        lemma_be_bytes_injective(n / 256, m / 256, (k - 1) as nat);
        assert(n == 256 * (n / 256) + n % 256) by (nonlinear_arith);
        assert(m == 256 * (m / 256) + m % 256) by (nonlinear_arith);
    } else {
        assert(n < 1 && m < 1);
    }
}

/// 256 to the power `k`.
pub open spec fn pow256(k: nat) -> nat
    decreases k,
{
    if k == 0 {
        1
    } else {
        256 * pow256((k - 1) as nat)
    }
}

/// Sequences of buffers of different counts have different framed forms.
pub proof fn lemma_count_sensitive(a: Seq<Seq<u8>>, b: Seq<Seq<u8>>)
    requires
        a.len() <= u64::MAX,
        b.len() <= u64::MAX,
        a.len() != b.len(),
    ensures
        frame(a) != frame(b),
{
    let w = COUNT_WIDTH as nat;
    lemma_be_bytes_len(a.len(), w);
    lemma_be_bytes_len(b.len(), w);
    if frame(a) == frame(b) {
        let fa = frame(a);
        assert(fa.subrange(fa.len() - 8, fa.len() as int) =~= be_bytes(a.len(), w));
        assert(fa.subrange(fa.len() - 8, fa.len() as int) =~= be_bytes(b.len(), w));
        assert(pow256(w) == 0x1_0000_0000_0000_0000) by {
            reveal_with_fuel(pow256, 9);
        }
        lemma_be_bytes_injective(a.len(), b.len(), w);
    }
}

/// No byte of `b` is the opening delimiter.
pub open spec fn opener_free(b: Seq<u8>) -> bool {
    forall|i: int| 0 <= i < b.len() ==> b[i] != OPEN
}

/// A framed form of non-empty content ends with a closing delimiter and is
/// at least two bytes long.
proof fn lemma_segments_shape(bs: Seq<Seq<u8>>)
    requires
        bs.len() > 0,
    ensures
        framed_segments(bs).len() >= 2,
        framed_segments(bs).last() == CLOSE,
        framed_segments(bs).len() == framed_segments(bs.drop_last()).len() + bs.last().len() + 2,
{
}

/// When no buffer holds the opening delimiter, the framed segments determine
/// the buffers.
proof fn lemma_segments_injective(a: Seq<Seq<u8>>, b: Seq<Seq<u8>>)
    requires
        forall|i: int| 0 <= i < a.len() ==> opener_free(#[trigger] a[i]),
        forall|i: int| 0 <= i < b.len() ==> opener_free(#[trigger] b[i]),
        framed_segments(a) == framed_segments(b),
    ensures
        a == b,
    decreases a.len(),
{
    if a.len() == 0 && b.len() == 0 {
        assert(a =~= b);
    } else if a.len() == 0 {
        lemma_segments_shape(b);
    } else if b.len() == 0 {
        lemma_segments_shape(a);
    } else {
        let f = framed_segments(a);
        let pa = framed_segments(a.drop_last()).len() as int;
        let pb = framed_segments(b.drop_last()).len() as int;
        let xa = a.last();
        let xb = b.last();
        assert(opener_free(a[a.len() - 1]));
        assert(opener_free(b[b.len() - 1]));
        assert(f[pa] == OPEN);
        assert(f[pb] == OPEN);
        assert(forall|j: int| pa < j < f.len() ==> f[j] != OPEN) by {
            assert forall|j: int| pa < j < f.len() implies f[j] != OPEN by {
                if j < f.len() - 1 {
                    assert(f[j] == xa[j - pa - 1]);
                }
            }
        }
        assert(forall|j: int| pb < j < f.len() ==> f[j] != OPEN) by {
            assert forall|j: int| pb < j < f.len() implies f[j] != OPEN by {
                if j < f.len() - 1 {
                    assert(framed_segments(b)[j] == xb[j - pb - 1]);
                }
            }
        }
        assert(pa == pb);
        assert(f.subrange(0, pa) =~= framed_segments(a.drop_last()));
        assert(framed_segments(b).subrange(0, pb) =~= framed_segments(b.drop_last()));
        assert(f.subrange(pa + 1, f.len() - 1) =~= xa);
        assert(framed_segments(b).subrange(pb + 1, f.len() - 1) =~= xb);
        assert forall|i: int| 0 <= i < a.drop_last().len() implies opener_free(
            #[trigger] a.drop_last()[i],
        ) by {
            assert(opener_free(a[i]));
        }
        assert forall|i: int| 0 <= i < b.drop_last().len() implies opener_free(
            #[trigger] b.drop_last()[i],
        ) by {
            assert(opener_free(b[i]));
        }
        lemma_segments_injective(a.drop_last(), b.drop_last());
        assert(a =~= a.drop_last().push(xa));
        assert(b =~= b.drop_last().push(xb));
    }
}

/// When no buffer holds the opening delimiter, different sequences of
/// buffers have different framed forms: neither moving a boundary between
/// buffers nor changing their number goes unnoticed.
pub proof fn lemma_split_sensitive(a: Seq<Seq<u8>>, b: Seq<Seq<u8>>)
    requires
        a.len() <= u64::MAX,
        b.len() <= u64::MAX,
        forall|i: int| 0 <= i < a.len() ==> opener_free(#[trigger] a[i]),
        forall|i: int| 0 <= i < b.len() ==> opener_free(#[trigger] b[i]),
        a != b,
    ensures
        frame(a) != frame(b),
{
    if a.len() != b.len() {
        lemma_count_sensitive(a, b);
    } else if frame(a) == frame(b) {
        let w = COUNT_WIDTH as nat;
        lemma_be_bytes_len(a.len(), w);
        let fa = framed_segments(a);
        let fb = framed_segments(b);
        lemma_be_bytes_len(b.len(), w);
        assert(frame(a).len() == fa.len() + 8);
        assert(frame(b).len() == fb.len() + 8);
        assert(frame(a).subrange(0, fa.len() as int) =~= fa);
        assert(frame(b).subrange(0, fb.len() as int) =~= fb);
        lemma_segments_injective(a, b);
    }
}

/// A `k`-byte form has `k` bytes.
proof fn lemma_be_bytes_len(n: nat, k: nat)
    ensures
        be_bytes(n, k).len() == k,
    decreases k,
{
    if k > 0 {
        lemma_be_bytes_len(n / 256, (k - 1) as nat);
    }
}

} // verus!
