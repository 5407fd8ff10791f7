//! A "rope": a list of independently owned segments of scalars addressed as
//! one flat, logical index space.
//!
//! A rope keeps a parallel list of prefix-sum offsets, one per segment, so
//! that an indexed access can resolve the owning segment with a binary
//! search over the offsets. Merging two ropes only moves segment handles
//! and shifts offsets; no element is copied. Scatter and gather, the two
//! operations that cross into a flat contiguous buffer, are the only places
//! where elements move.

use vstd::prelude::*;

verus! {

use vstd::seq_lib::lemma_flatten_concat;

/// The element sequences of a list of owned segments.
pub open spec fn seg_views<S>(data: Seq<Vec<S>>) -> Seq<Seq<S>> {
    data.map_values(|v: Vec<S>| v@)
}

/// The number of elements in the first `j` segments: the logical offset at
/// which segment `j` starts.
pub open spec fn prefix_of<S>(segs: Seq<Seq<S>>, j: int) -> int {
    segs.take(j).flatten().len() as int
}

/// The segment contents that scattering the flat buffer `flat` into
/// segments shaped like `segs` produces: segment `j` receives the slice of
/// `flat` that starts at segment `j`'s logical offset.
pub open spec fn scatter_spec<S>(segs: Seq<Seq<S>>, flat: Seq<S>) -> Seq<Seq<S>> {
    segs.map(|j: int, seg: Seq<S>| flat.subrange(prefix_of(segs, j), prefix_of(segs, j) + seg.len()))
}

/// Flattening one more segment appends that segment's elements.
proof fn lemma_flatten_take_succ<S>(segs: Seq<Seq<S>>, j: int)
    requires
        0 <= j < segs.len(),
    ensures
        segs.take(j + 1).flatten() == segs.take(j).flatten() + segs[j],
{
    assert(segs.take(j + 1) =~= segs.take(j).push(segs[j]));
    segs.take(j).lemma_flatten_push(segs[j]);
}

/// A flattened prefix never exceeds the whole flattened length, and the
/// remainder accounts for the difference.
proof fn lemma_flatten_take_len<S>(segs: Seq<Seq<S>>, j: int)
    requires
        0 <= j <= segs.len(),
    ensures
        segs.take(j).flatten().len() + segs.skip(j).flatten().len() == segs.flatten().len(),
{
    assert(segs =~= segs.take(j) + segs.skip(j));
    lemma_flatten_concat(segs.take(j), segs.skip(j));
}

/// Where element `o` of segment `j` lands in the flattened sequence.
proof fn lemma_flatten_index<S>(segs: Seq<Seq<S>>, j: int, o: int)
    requires
        0 <= j < segs.len(),
        0 <= o < segs[j].len(),
    ensures
        prefix_of(segs, j) + o < segs.flatten().len(),
        segs.flatten()[prefix_of(segs, j) + o] == segs[j][o],
{
    lemma_flatten_take_succ(segs, j);
    lemma_flatten_take_len(segs, j + 1);
    assert(segs =~= segs.take(j + 1) + segs.skip(j + 1));
    lemma_flatten_concat(segs.take(j + 1), segs.skip(j + 1));
    assert(segs.flatten()[prefix_of(segs, j) + o] == segs.take(j + 1).flatten()[prefix_of(
        segs,
        j,
    ) + o]);
}

/// Segment starts are ordered: a later segment starts no earlier.
proof fn lemma_prefix_monotone<S>(segs: Seq<Seq<S>>, j1: int, j2: int)
    requires
        0 <= j1 <= j2 <= segs.len(),
    ensures
        prefix_of(segs, j1) <= prefix_of(segs, j2),
    decreases j2 - j1,
{
    if j1 < j2 {
        lemma_flatten_take_succ(segs, j2 - 1);
        lemma_prefix_monotone(segs, j1, j2 - 1);
    }
}

/// A rope over immutable segments: a logical concatenation of the
/// segments' elements. Constructed over a list of owned buffers; merging
/// moves buffer handles without copying elements.
#[derive(Debug, Clone)]
pub struct Rope<S> {
    /// The logical offset at which each segment starts.
    offsets: Vec<usize>,
    /// The owned segments.
    data: Vec<Vec<S>>,
}

impl<S> Rope<S> {
    /// The element sequences of the segments, in order.
    pub closed spec fn segs(self) -> Seq<Seq<S>> {
        seg_views(self.data@)
    }

    /// The logical contents: every element across all segments, in order.
    pub open spec fn flat(self) -> Seq<S> {
        self.segs().flatten()
    }

    /// Well-formed: one offset per segment, each the number of elements
    /// before its segment, and the total length representable.
    pub closed spec fn wf(self) -> bool {
        &&& self.offsets@.len() == self.data@.len()
        &&& forall|j: int|
            0 <= j < self.data@.len() ==> self.offsets@[j] as int == prefix_of(self.segs(), j)
        &&& self.flat().len() <= usize::MAX
    }

    /// Builds a rope over the given segments, in order, computing the
    /// prefix offsets.
    pub fn new(data: Vec<Vec<S>>) -> (r: Rope<S>)
        requires
            seg_views(data@).flatten().len() <= usize::MAX,
        ensures
            r.wf(),
            r.segs() == seg_views(data@),
    {
        let ghost segs = seg_views(data@);
        let mut offsets: Vec<usize> = Vec::new();
        let mut acc: usize = 0;
        let mut j: usize = 0;
        while j < data.len()
            invariant
                j <= data@.len(),
                offsets@.len() == j,
                segs == seg_views(data@),
                segs.flatten().len() <= usize::MAX,
                acc as int == prefix_of(segs, j as int),
                forall|t: int| 0 <= t < j ==> offsets@[t] as int == prefix_of(segs, t),
            decreases data@.len() - j,
        {
            offsets.push(acc);
            proof {
                lemma_flatten_take_succ(segs, j as int);
                lemma_flatten_take_len(segs, j + 1);
            }
            acc = acc + data[j].len();
            j += 1;
        }
        Rope { offsets, data }
    }

    /// The total logical length.
    pub fn len(&self) -> (r: usize)
        requires
            self.wf(),
        ensures
            r == self.flat().len(),
    {
        let n = self.data.len();
        if n == 0 {
            proof {
                assert(self.segs().take(0) =~= self.segs());
            }
            0
        } else {
            proof {
                lemma_flatten_take_succ(self.segs(), n - 1);
                assert(self.segs().take(n as int) =~= self.segs());
            }
            self.offsets[n - 1] + self.data[n - 1].len()
        }
    }

    /// Whether the rope holds no elements.
    pub fn is_empty(&self) -> (r: bool)
        requires
            self.wf(),
        ensures
            r == (self.flat().len() == 0),
    {
        self.len() == 0
    }

    /// Concatenates two ropes: the second rope's segments follow the
    /// first's, with their offsets shifted by the first rope's length. Only
    /// segment handles move; no element is copied.
    pub fn merge(self, rope2: Rope<S>) -> (r: Rope<S>)
        requires
            self.wf(),
            rope2.wf(),
            self.flat().len() + rope2.flat().len() <= usize::MAX,
        ensures
            r.wf(),
            r.segs() == self.segs() + rope2.segs(),
            r.flat() == self.flat() + rope2.flat(),
    {
        let ghost combined = self.segs() + rope2.segs();
        proof {
            lemma_flatten_concat(self.segs(), rope2.segs());
        }
        let len = self.len();
        let mut offsets = self.offsets;
        let ghost n1 = self.data@.len();
        let mut j: usize = 0;
        let rope2_segments = rope2.data.len();
        while j < rope2_segments
            invariant
                j <= rope2.data@.len(),
                rope2_segments == rope2.data@.len(),
                rope2.wf(),
                len as int == self.flat().len(),
                len + rope2.flat().len() <= usize::MAX,
                offsets@.len() == n1 + j,
                offsets@.take(n1 as int) == self.offsets@,
                forall|t: int|
                    n1 <= t < n1 + j ==> offsets@[t] as int == len + prefix_of(
                        rope2.segs(),
                        t - n1,
                    ),
            decreases rope2.data@.len() - j,
        {
            proof {
                lemma_flatten_take_len(rope2.segs(), j as int);
            }
            let off = rope2.offsets[j];
            offsets.push(len + off);
            proof {
                assert(offsets@.take(n1 as int) =~= self.offsets@);
            }
            j += 1;
        }
        let mut data = self.data;
        let mut data2 = rope2.data;
        data.append(&mut data2);
        let r = Rope { offsets, data };
        proof {
            assert(r.segs() =~= self.segs() + rope2.segs());
            assert forall|t: int| 0 <= t < r.data@.len() implies r.offsets@[t] as int == prefix_of(
                r.segs(),
                t,
            ) by {
                if t < n1 {
                    assert(r.offsets@[t] == self.offsets@[t]) by {
                        assert(offsets@.take(n1 as int)[t] == offsets@[t]);
                    }
                    assert(combined.take(t) =~= self.segs().take(t));
                } else {
                    assert(combined.take(t) =~= self.segs() + rope2.segs().take(t - n1));
                    lemma_flatten_concat(self.segs(), rope2.segs().take(t - n1));
                }
            }
        }
        r
    }

    /// Resolves a logical index to the owning segment and the local index
    /// within it, via binary search for the largest offset at most `index`.
    fn locate(&self, index: usize) -> (r: (usize, usize))
        requires
            self.wf(),
            index < self.flat().len(),
        ensures
            r.0 < self.segs().len(),
            r.1 < self.segs()[r.0 as int].len(),
            prefix_of(self.segs(), r.0 as int) + r.1 == index,
    {
        let n = self.offsets.len();
        let mut lo: usize = 0;
        let mut hi: usize = n;
        while lo < hi
            invariant
                lo <= hi <= n,
                n == self.offsets@.len(),
                self.wf(),
                index < self.flat().len(),
                forall|t: int| 0 <= t < lo ==> self.offsets@[t] <= index,
                forall|t: int| hi <= t < n ==> self.offsets@[t] > index,
            decreases hi - lo,
        {
            let mid = lo + (hi - lo) / 2;
            if self.offsets[mid] <= index {
                proof {
                    assert forall|t: int| 0 <= t <= mid implies self.offsets@[t] <= index by {
                        lemma_prefix_monotone(self.segs(), t, mid as int);
                    }
                }
                lo = mid + 1;
            } else {
                proof {
                    assert forall|t: int| mid <= t < n implies self.offsets@[t] > index by {
                        lemma_prefix_monotone(self.segs(), mid as int, t);
                    }
                }
                hi = mid;
            }
        }
        proof {
            assert(self.segs().take(0) =~= Seq::<Seq<S>>::empty());
            if n == 0 {
                assert(self.segs() =~= Seq::<Seq<S>>::empty());
                assert(false);
            }
            if lo == 0 {
                assert(self.offsets@[0] as int == prefix_of(self.segs(), 0));
                assert(false);
            }
        }
        let idx = lo - 1;
        let local = index - self.offsets[idx];
        proof {
            lemma_flatten_take_succ(self.segs(), idx as int);
            lemma_flatten_take_len(self.segs(), idx + 1);
            if lo < n {
                assert(self.offsets@[lo as int] > index);
            } else {
                assert(self.segs().take(n as int) =~= self.segs());
            }
        }
        (idx, local)
    }

    /// Reads the element at logical index `index`.
    pub fn get(&self, index: usize) -> (r: &S)
        requires
            self.wf(),
            index < self.flat().len(),
        ensures
            *r == self.flat()[index as int],
    {
        let (idx, local) = self.locate(index);
        proof {
            lemma_flatten_index(self.segs(), idx as int, local as int);
        }
        &self.data[idx][local]
    }
}

impl<S: Copy> Rope<S> {
    /// Gathers every element, across all segments in logical order, into
    /// one flat contiguous buffer.
    pub fn to_vec(&self) -> (r: Vec<S>)
        requires
            self.wf(),
        ensures
            r@ == self.flat(),
    {
        let ghost segs = self.segs();
        let mut out: Vec<S> = Vec::new();
        let mut j: usize = 0;
        let n = self.data.len();
        while j < n
            invariant
                j <= n,
                n == self.data@.len(),
                self.wf(),
                segs == self.segs(),
                out@ == segs.take(j as int).flatten(),
            decreases n - j,
        {
            let seg_len = self.data[j].len();
            let mut o: usize = 0;
            while o < seg_len
                invariant
                    o <= seg_len,
                    j < n,
                    n == self.data@.len(),
                    self.wf(),
                    segs == self.segs(),
                    seg_len == segs[j as int].len(),
                    out@ == segs.take(j as int).flatten() + segs[j as int].take(o as int),
                decreases seg_len - o,
            {
                out.push(self.data[j][o]);
                proof {
                    assert(segs[j as int].take(o + 1) =~= segs[j as int].take(o as int).push(
                        segs[j as int][o as int],
                    ));
                }
                o += 1;
            }
            proof {
                lemma_flatten_take_succ(segs, j as int);
                assert(segs[j as int].take(seg_len as int) =~= segs[j as int]);
            }
            j += 1;
        }
        proof {
            assert(segs.take(n as int) =~= segs);
        }
        out
    }
}

/// Law: merging two ropes concatenates their contents and adds their
/// lengths: a rope whose segments are the two ropes' segments in order
/// holds exactly the elements of both, in order.
pub proof fn lemma_merge_len<S>(a: Rope<S>, b: Rope<S>, m: Rope<S>)
    requires
        m.segs() == a.segs() + b.segs(),
    ensures
        m.flat() == a.flat() + b.flat(),
        m.flat().len() == a.flat().len() + b.flat().len(),
{
    lemma_flatten_concat(a.segs(), b.segs());
}

/// Law: indexing a merged rope past the first rope's length reads the
/// second rope: element `len(a) + k` of the merge is element `k` of `b`.
pub proof fn lemma_merge_index<S>(a: Rope<S>, b: Rope<S>, m: Rope<S>, k: int)
    requires
        m.segs() == a.segs() + b.segs(),
        0 <= k < b.flat().len(),
    ensures
        m.flat()[a.flat().len() + k] == b.flat()[k],
{
    lemma_flatten_concat(a.segs(), b.segs());
}

/// Law: scattering a flat buffer of matching total length across a list
/// of segment shapes and flattening the result reproduces the buffer.
pub proof fn lemma_scatter_flatten<S>(segs: Seq<Seq<S>>, flat: Seq<S>)
    requires
        segs.flatten().len() == flat.len(),
    ensures
        scatter_spec(segs, flat).flatten() == flat,
    decreases segs.len(),
{
    let scat = scatter_spec(segs, flat);
    if segs.len() == 0 {
        assert(scat =~= Seq::<Seq<S>>::empty());
        assert(scat.flatten() =~= flat);
    } else {
        let s0 = segs.first();
        let rest = segs.drop_first();
        let l0 = s0.len() as int;
        assert(segs.flatten() == s0 + rest.flatten());
        assert(prefix_of(segs, 0) == 0) by {
            assert(segs.take(0) =~= Seq::<Seq<S>>::empty());
        }
        assert(scat.first() =~= flat.take(l0));
        assert forall|j: int| 0 <= j < rest.len() implies scat.drop_first()[j] == scatter_spec(
            rest,
            flat.skip(l0),
        )[j] by {
            assert(segs.take(j + 1) =~= seq![s0] + rest.take(j));
            lemma_flatten_concat(seq![s0], rest.take(j));
            seq![s0].lemma_flatten_one_element();
            assert(prefix_of(segs, j + 1) == l0 + prefix_of(rest, j));
            lemma_flatten_take_succ(segs, j + 1);
            lemma_flatten_take_len(segs, j + 2);
            lemma_flatten_take_succ(rest, j);
            lemma_flatten_take_len(rest, j + 1);
            assert(segs[j + 1] == rest[j]);
            assert(scat[j + 1] == flat.subrange(
                l0 + prefix_of(rest, j),
                l0 + prefix_of(rest, j) + rest[j].len(),
            ));
            assert(scatter_spec(rest, flat.skip(l0))[j] =~= flat.subrange(
                l0 + prefix_of(rest, j),
                l0 + prefix_of(rest, j) + rest[j].len(),
            ));
        }
        assert(scat.drop_first() =~= scatter_spec(rest, flat.skip(l0)));
        lemma_scatter_flatten(rest, flat.skip(l0));
        assert(scat.flatten() == scat.first() + scat.drop_first().flatten());
        assert(flat.take(l0) + flat.skip(l0) =~= flat);
    }
}

/// Scattering keeps the segment shapes: each scattered segment is exactly
/// as long as the segment whose place it takes.
proof fn lemma_scatter_shape<S>(segs: Seq<Seq<S>>, flat: Seq<S>)
    requires
        segs.flatten().len() == flat.len(),
    ensures
        scatter_spec(segs, flat).len() == segs.len(),
        forall|t: int|
            0 <= t < segs.len() ==> (#[trigger] scatter_spec(segs, flat)[t]).len()
                == segs[t].len(),
{
    assert forall|t: int| 0 <= t < segs.len() implies (#[trigger] scatter_spec(segs, flat)[t]).len()
        == segs[t].len() by {
        lemma_flatten_take_succ(segs, t);
        lemma_flatten_take_len(segs, t + 1);
    }
}

/// Replacing one element of one segment replaces exactly the matching
/// element of the flattened contents.
proof fn lemma_flatten_update<S>(segs: Seq<Seq<S>>, j: int, o: int, v: S)
    requires
        0 <= j < segs.len(),
        0 <= o < segs[j].len(),
    ensures
        segs.update(j, segs[j].update(o, v)).flatten() == segs.flatten().update(
            prefix_of(segs, j) + o,
            v,
        ),
    decreases j,
{
    let segs2 = segs.update(j, segs[j].update(o, v));
    lemma_flatten_index(segs, j, o);
    if j == 0 {
        assert(segs2.drop_first() =~= segs.drop_first());
        assert(segs.flatten() == segs.first() + segs.drop_first().flatten());
        assert(segs2.flatten() == segs2.first() + segs2.drop_first().flatten());
        assert(prefix_of(segs, 0) == 0) by {
            assert(segs.take(0) =~= Seq::<Seq<S>>::empty());
        }
        assert(segs2.first() == segs.first().update(o, v));
        assert((segs.first() + segs.drop_first().flatten()).update(o, v) =~= segs.first().update(
            o,
            v,
        ) + segs.drop_first().flatten());
    } else {
        let rest = segs.drop_first();
        let l0 = segs.first().len() as int;
        lemma_flatten_update(rest, j - 1, o, v);
        assert(segs2.drop_first() =~= rest.update(j - 1, rest[j - 1].update(o, v)));
        assert(segs.take(j) =~= seq![segs.first()] + rest.take(j - 1));
        lemma_flatten_concat(seq![segs.first()], rest.take(j - 1));
        seq![segs.first()].lemma_flatten_one_element();
        assert(prefix_of(segs, j) == l0 + prefix_of(rest, j - 1));
        assert(segs.flatten() == segs.first() + rest.flatten());
        assert(segs2.flatten() == segs2.first() + segs2.drop_first().flatten());
        assert(segs2.first() == segs.first());
        assert((segs.first() + rest.flatten()).update(l0 + prefix_of(rest, j - 1) + o, v)
            =~= segs.first() + rest.flatten().update(prefix_of(rest, j - 1) + o, v));
    }
}

/// Two segment lists of the same shape give their segments the same
/// logical offsets.
proof fn lemma_prefix_congruent<S>(segs1: Seq<Seq<S>>, segs2: Seq<Seq<S>>, t: int)
    requires
        segs1.len() == segs2.len(),
        forall|j: int| 0 <= j < segs1.len() ==> (#[trigger] segs2[j]).len() == segs1[j].len(),
        0 <= t <= segs1.len(),
    ensures
        prefix_of(segs2, t) == prefix_of(segs1, t),
    decreases t,
{
    if t > 0 {
        lemma_prefix_congruent(segs1, segs2, t - 1);
        lemma_flatten_take_succ(segs1, t - 1);
        lemma_flatten_take_succ(segs2, t - 1);
    } else {
        assert(segs1.take(0) =~= Seq::<Seq<S>>::empty());
        assert(segs2.take(0) =~= Seq::<Seq<S>>::empty());
    }
}

/// A rope over segments that may be written: the same logical view as
/// [`Rope`], with indexed writes and whole-buffer scatter.
#[derive(Debug)]
pub struct RopeMut<S> {
    /// The rope holding the segments.
    inner: Rope<S>,
}

impl<S> RopeMut<S> {
    /// The element sequences of the segments, in order.
    pub closed spec fn segs(self) -> Seq<Seq<S>> {
        self.inner.segs()
    }

    /// The logical contents: every element across all segments, in order.
    pub open spec fn flat(self) -> Seq<S> {
        self.segs().flatten()
    }

    /// Well-formed: see [`Rope::wf`].
    pub closed spec fn wf(self) -> bool {
        self.inner.wf()
    }

    /// Builds a writable rope over the given segments, in order.
    pub fn new(data: Vec<Vec<S>>) -> (r: RopeMut<S>)
        requires
            seg_views(data@).flatten().len() <= usize::MAX,
        ensures
            r.wf(),
            r.segs() == seg_views(data@),
    {
        RopeMut { inner: Rope::new(data) }
    }

    /// The total logical length.
    pub fn len(&self) -> (r: usize)
        requires
            self.wf(),
        ensures
            r == self.flat().len(),
    {
        self.inner.len()
    }

    /// Whether the rope holds no elements.
    pub fn is_empty(&self) -> (r: bool)
        requires
            self.wf(),
        ensures
            r == (self.flat().len() == 0),
    {
        self.inner.is_empty()
    }

    /// Concatenates two writable ropes; see [`Rope::merge`].
    pub fn merge(self, rope2: RopeMut<S>) -> (r: RopeMut<S>)
        requires
            self.wf(),
            rope2.wf(),
            self.flat().len() + rope2.flat().len() <= usize::MAX,
        ensures
            r.wf(),
            r.segs() == self.segs() + rope2.segs(),
            r.flat() == self.flat() + rope2.flat(),
    {
        RopeMut { inner: self.inner.merge(rope2.inner) }
    }

    /// Reads the element at logical index `index`.
    pub fn get(&self, index: usize) -> (r: &S)
        requires
            self.wf(),
            index < self.flat().len(),
        ensures
            *r == self.flat()[index as int],
    {
        self.inner.get(index)
    }

    /// Replaces the element at logical index `index`, writing through to
    /// the owning segment.
    pub fn set(&mut self, index: usize, value: S)
        requires
            old(self).wf(),
            index < old(self).flat().len(),
        ensures
            final(self).wf(),
            final(self).flat() == old(self).flat().update(index as int, value),
            final(self).segs().len() == old(self).segs().len(),
            forall|j: int|
                0 <= j < old(self).segs().len() ==> (#[trigger] final(self).segs()[j]).len()
                    == old(self).segs()[j].len(),
    {
        let ghost segs = self.inner.segs();
        let (idx, local) = self.inner.locate(index);
        self.inner.data[idx][local] = value;
        proof {
            assert(self.inner.segs() =~= segs.update(
                idx as int,
                segs[idx as int].update(local as int, v_of(value)),
            ));
            lemma_flatten_update(segs, idx as int, local as int, value);
            lemma_prefix_congruent(segs, self.inner.segs(), segs.len() as int);
            assert forall|t: int| 0 <= t <= segs.len() implies prefix_of(
                self.inner.segs(),
                t,
            ) == prefix_of(segs, t) by {
                lemma_prefix_congruent(segs, self.inner.segs(), t);
            }
        }
    }

    /// Gives up writability, keeping the same segments and contents.
    pub fn into_rope(self) -> (r: Rope<S>)
        ensures
            r.wf() == self.wf(),
            r.segs() == self.segs(),
    {
        self.inner
    }
}

/// The identity, used to name a moved value inside a proof.
spec fn v_of<S>(v: S) -> S {
    v
}

impl<S: Copy> RopeMut<S> {
    /// Gathers every element into one flat contiguous buffer.
    pub fn to_vec(&self) -> (r: Vec<S>)
        requires
            self.wf(),
        ensures
            r@ == self.flat(),
    {
        self.inner.to_vec()
    }

    /// Scatters a contiguous buffer into the segments in logical order:
    /// segment shapes stay as they are, contents come from `slice`. The
    /// buffer must match the rope's length exactly.
    pub fn copy_from_slice(&mut self, slice: &[S])
        requires
            old(self).wf(),
            slice@.len() == old(self).flat().len(),
        ensures
            final(self).wf(),
            final(self).segs() == scatter_spec(old(self).segs(), slice@),
            final(self).flat() == slice@,
    {
        let ghost segs = self.inner.segs();
        let ghost scat = scatter_spec(segs, slice@);
        let n = self.inner.data.len();
        let mut new_data: Vec<Vec<S>> = Vec::new();
        let mut j: usize = 0;
        while j < n
            invariant
                j <= n,
                n == self.inner.data@.len(),
                self.inner.wf(),
                segs == self.inner.segs(),
                scat == scatter_spec(segs, slice@),
                slice@.len() == segs.flatten().len(),
                new_data@.len() == j,
                forall|t: int| 0 <= t < j ==> seg_views(new_data@)[t] == scat[t],
            decreases n - j,
        {
            let off = self.inner.offsets[j];
            let seg_len = self.inner.data[j].len();
            proof {
                lemma_flatten_take_succ(segs, j as int);
                lemma_flatten_take_len(segs, j + 1);
            }
            let mut seg: Vec<S> = Vec::new();
            let mut o: usize = 0;
            while o < seg_len
                invariant
                    o <= seg_len,
                    off + seg_len <= slice@.len(),
                    slice@.len() <= usize::MAX,
                    seg@ == slice@.subrange(off as int, off + o),
                decreases seg_len - o,
            {
                seg.push(slice[off + o]);
                proof {
                    assert(slice@.subrange(off as int, off + o + 1) =~= slice@.subrange(
                        off as int,
                        off + o,
                    ).push(slice@[off + o]));
                }
                o += 1;
            }
            let ghost prev = new_data@;
            new_data.push(seg);
            proof {
                assert(seg_views(new_data@) =~= seg_views(prev).push(seg@));
                assert(seg_views(new_data@)[j as int] == scat[j as int]);
            }
            j += 1;
        }
        proof {
            lemma_scatter_shape(segs, slice@);
            assert(seg_views(new_data@) =~= scat);
        }
        self.inner.data = new_data;
        proof {
            assert(self.inner.segs() == scat);
            lemma_scatter_shape(segs, slice@);
            assert forall|t: int| 0 <= t <= segs.len() implies prefix_of(
                self.inner.segs(),
                t,
            ) == prefix_of(segs, t) by {
                lemma_prefix_congruent(segs, self.inner.segs(), t);
            }
            lemma_scatter_flatten(segs, slice@);
        }
    }
}

impl<S: Clone> RopeMut<S> {
    /// Scatters a contiguous buffer into the segments in logical order,
    /// cloning each element. The buffer must match the rope's length
    /// exactly.
    pub fn clone_from_slice(&mut self, slice: &[S])
        requires
            old(self).wf(),
            slice@.len() == old(self).flat().len(),
        ensures
            final(self).wf(),
            final(self).segs().len() == old(self).segs().len(),
            forall|j: int|
                0 <= j < old(self).segs().len() ==> (#[trigger] final(self).segs()[j]).len()
                    == old(self).segs()[j].len(),
            forall|j: int, o: int|
                0 <= j < old(self).segs().len() && 0 <= o < old(self).segs()[j].len()
                    ==> cloned::<S>(
                    slice@[prefix_of(old(self).segs(), j) + o],
                    #[trigger] final(self).segs()[j][o],
                ),
    {
        let ghost segs = self.inner.segs();
        let n = self.inner.data.len();
        let mut new_data: Vec<Vec<S>> = Vec::new();
        let mut j: usize = 0;
        while j < n
            invariant
                j <= n,
                n == self.inner.data@.len(),
                self.inner.wf(),
                segs == self.inner.segs(),
                slice@.len() == segs.flatten().len(),
                new_data@.len() == j,
                forall|t: int|
                    0 <= t < j ==> (#[trigger] seg_views(new_data@)[t]).len() == segs[t].len(),
                forall|t: int, o: int|
                    0 <= t < j && 0 <= o < segs[t].len() ==> cloned::<S>(
                        slice@[prefix_of(segs, t) + o],
                        #[trigger] seg_views(new_data@)[t][o],
                    ),
            decreases n - j,
        {
            let off = self.inner.offsets[j];
            let seg_len = self.inner.data[j].len();
            proof {
                lemma_flatten_take_succ(segs, j as int);
                lemma_flatten_take_len(segs, j + 1);
            }
            let mut seg: Vec<S> = Vec::new();
            let mut o: usize = 0;
            while o < seg_len
                invariant
                    o <= seg_len,
                    off + seg_len <= slice@.len(),
                    slice@.len() <= usize::MAX,
                    seg@.len() == o,
                    forall|m: int|
                        0 <= m < o ==> cloned::<S>(slice@[off + m], #[trigger] seg@[m]),
                decreases seg_len - o,
            {
                seg.push(slice[off + o].clone());
                o += 1;
            }
            let ghost prev = new_data@;
            new_data.push(seg);
            proof {
                assert(seg_views(new_data@) =~= seg_views(prev).push(seg@));
            }
            j += 1;
        }
        self.inner.data = new_data;
        proof {
            assert forall|t: int| 0 <= t <= segs.len() implies prefix_of(
                self.inner.segs(),
                t,
            ) == prefix_of(segs, t) by {
                lemma_prefix_congruent(segs, self.inner.segs(), t);
            }
            assert(self.inner.segs().take(segs.len() as int) =~= self.inner.segs());
            assert(segs.take(segs.len() as int) =~= segs);
            assert(self.inner.offsets@.len() == self.inner.data@.len());
            assert(prefix_of(self.inner.segs(), segs.len() as int) == prefix_of(
                segs,
                segs.len() as int,
            ));
            assert(self.inner.flat().len() <= usize::MAX);
            assert(forall|t: int|
                0 <= t < self.inner.data@.len() ==> self.inner.offsets@[t] as int == prefix_of(
                    self.inner.segs(),
                    t,
                ));
        }
    }
}

} // verus!
