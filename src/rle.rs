use vstd::laws_eq::obeys_concrete_eq;
use std::ops::Range;
use vstd::prelude::*;

verus! {

/// The sequence of `n` copies of `v`.
pub open spec fn rep<T>(n: nat, v: T) -> Seq<T> {
    Seq::new(n, |_i: int| v)
}

/// The elements that a run list stands for: each run `(len, v)` contributes
/// `len` copies of `v`, in order.
pub open spec fn expand<T>(runs: Seq<(usize, T)>) -> Seq<T>
    decreases runs.len(),
{
    if runs.len() == 0 {
        Seq::empty()
    } else {
        expand(runs.drop_last()) + rep(runs.last().0 as nat, runs.last().1)
    }
}

/// The sum of the run lengths.
pub open spec fn total_len<T>(runs: Seq<(usize, T)>) -> nat
    decreases runs.len(),
{
    if runs.len() == 0 {
        0
    } else {
        total_len(runs.drop_last()) + runs.last().0 as nat
    }
}

/// No run is empty and no two neighbouring runs hold the same value.
pub open spec fn canonical<T>(runs: Seq<(usize, T)>) -> bool {
    &&& forall|i: int| 0 <= i < runs.len() ==> #[trigger] runs[i].0 > 0
    &&& forall|i: int| 0 < i < runs.len() ==> runs[i - 1].1 != #[trigger] runs[i].1
}

pub proof fn lemma_rep_concat<T>(a: nat, b: nat, v: T)
    ensures
        rep(a, v) + rep(b, v) == rep(a + b, v),
{
    assert(rep(a, v) + rep(b, v) =~= rep(a + b, v));
}

pub proof fn lemma_expand_append<T>(a: Seq<(usize, T)>, b: Seq<(usize, T)>)
    ensures
        expand(a + b) == expand(a) + expand(b),
        total_len(a + b) == total_len(a) + total_len(b),
    decreases b.len(),
{
    if b.len() == 0 {
        assert(a + b =~= a);
        assert(expand(a) + expand(b) =~= expand(a));
    } else {
        let c = a + b;
        assert(c.drop_last() =~= a + b.drop_last());
        assert(c.last() == b.last());
        lemma_expand_append(a, b.drop_last());
        assert(expand(a) + expand(b.drop_last()) + rep(b.last().0 as nat, b.last().1) =~= expand(a)
            + (expand(b.drop_last()) + rep(b.last().0 as nat, b.last().1)));
    }
}

pub proof fn lemma_expand_len<T>(runs: Seq<(usize, T)>)
    ensures
        expand(runs).len() == total_len(runs),
    decreases runs.len(),
{
    if runs.len() > 0 {
        lemma_expand_len(runs.drop_last());
    }
}

/// Splitting a run list anywhere splits what it stands for at the same place.
pub proof fn lemma_expand_split<T>(runs: Seq<(usize, T)>, k: int)
    requires
        0 <= k <= runs.len(),
    ensures
        expand(runs) == expand(runs.take(k)) + expand(runs.skip(k)),
        total_len(runs) == total_len(runs.take(k)) + total_len(runs.skip(k)),
        expand(runs.take(k)).len() == total_len(runs.take(k)),
{
    assert(runs =~= runs.take(k) + runs.skip(k));
    lemma_expand_append(runs.take(k), runs.skip(k));
    lemma_expand_len(runs.take(k));
}

/// Taking one more run adds that run's length.
pub proof fn lemma_take_step<T>(runs: Seq<(usize, T)>, k: int)
    requires
        0 <= k < runs.len(),
    ensures
        total_len(runs.take(k + 1)) == total_len(runs.take(k)) + runs[k].0,
        expand(runs.take(k + 1)) == expand(runs.take(k)) + rep(runs[k].0 as nat, runs[k].1),
{
    assert(runs.take(k + 1).drop_last() =~= runs.take(k));
}

/// The element at a position covered by run `i` is that run's value.
pub proof fn lemma_expand_index<T>(runs: Seq<(usize, T)>, i: int, p: int)
    requires
        0 <= i < runs.len(),
        total_len(runs.take(i)) <= p < total_len(runs.take(i)) + runs[i].0,
    ensures
        p < expand(runs).len(),
        expand(runs)[p] == runs[i].1,
{
    lemma_expand_split(runs, i + 1);
    lemma_take_step(runs, i);
    lemma_expand_len(runs.take(i));
    lemma_expand_len(runs);
}

/// The lengths of the first `k` runs never exceed the total.
pub proof fn lemma_take_le_total<T>(runs: Seq<(usize, T)>, k: int)
    requires
        0 <= k <= runs.len(),
    ensures
        total_len(runs.take(k)) <= total_len(runs),
{
    lemma_expand_split(runs, k);
}

/// Values are compared with `==`, which for `T` means equality of values.
fn same<T: Copy + Eq>(a: &T, b: &T) -> (r: bool)
    requires
        obeys_concrete_eq::<T>(),
    ensures
        r == (*a == *b),
{
    proof {
        reveal(obeys_concrete_eq);
    }
    *a == *b
}

/// Appends a run to a canonical run list, dropping it when it is empty and
/// merging it into the last run when that one holds the same value.
fn push_run<T: Copy + Eq>(out: &mut Vec<(usize, T)>, n: usize, v: T)
    requires
        obeys_concrete_eq::<T>(),
        canonical(old(out)@),
        total_len(old(out)@) + n <= usize::MAX,
    ensures
        canonical(final(out)@),
        expand(final(out)@) == expand(old(out)@) + rep(n as nat, v),
        total_len(final(out)@) == total_len(old(out)@) + n,
        final(out)@.len() <= old(out)@.len() + 1,
{
    if n == 0 {
        assert(expand(out@) + rep(0, v) =~= expand(out@));
        return ;
    }
    let l = out.len();
    if l > 0 && same(&out[l - 1].1, &v) {
        let (m, w) = out[l - 1];
        let ghost pre = out@;
        out.set(l - 1, (m + n, w));
        assert(out@.drop_last() =~= pre.drop_last());
        proof {
            lemma_rep_concat(m as nat, n as nat, v);
            assert(expand(pre.drop_last()) + rep(m as nat, v) + rep(n as nat, v) =~= expand(
                pre.drop_last(),
            ) + rep((m + n) as nat, v));
        }
    } else {
        let ghost pre = out@;
        out.push((n, v));
        assert(out@.drop_last() =~= pre);
    }
}

/// Appends `runs[from..to]` to `out`, keeping it canonical.
fn append_runs<T: Copy + Eq>(out: &mut Vec<(usize, T)>, runs: &Vec<(usize, T)>, from: usize, to: usize)
    requires
        obeys_concrete_eq::<T>(),
        canonical(old(out)@),
        from <= to <= runs@.len(),
        total_len(old(out)@) + total_len(runs@.subrange(from as int, to as int)) <= usize::MAX,
    ensures
        canonical(final(out)@),
        expand(final(out)@) == expand(old(out)@) + expand(runs@.subrange(from as int, to as int)),
        total_len(final(out)@) == total_len(old(out)@) + total_len(
            runs@.subrange(from as int, to as int),
        ),
        final(out)@.len() <= old(out)@.len() + (to - from),
{
    let ghost start = out@;
    let mut k = from;
    assert(runs@.subrange(from as int, from as int) =~= Seq::<(usize, T)>::empty());
    assert(expand(start) + expand(Seq::<(usize, T)>::empty()) =~= expand(start));
    while k < to
        invariant
            obeys_concrete_eq::<T>(),
            from <= k <= to <= runs@.len(),
            canonical(out@),
            expand(out@) == expand(start) + expand(runs@.subrange(from as int, k as int)),
            total_len(out@) == total_len(start) + total_len(runs@.subrange(from as int, k as int)),
            total_len(start) + total_len(runs@.subrange(from as int, to as int)) <= usize::MAX,
            out@.len() <= start.len() + (k - from),
        decreases to - k,
    {
        let ghost sub = runs@.subrange(from as int, k as int);
        let ghost next = runs@.subrange(from as int, k + 1);
        proof {
            assert(next.drop_last() =~= sub);
            let whole = runs@.subrange(from as int, to as int);
            assert(next =~= whole.take(next.len() as int));
            lemma_take_le_total(whole, next.len() as int);
        }
        let (n, v) = runs[k];
        push_run(out, n, v);
        proof {
            assert(expand(start) + expand(sub) + rep(n as nat, v) =~= expand(start) + (expand(sub)
                + rep(n as nat, v)));
        }
        k = k + 1;
    }
}

/// Why an access to a compressed sequence was refused.
#[derive(Debug, Clone, Copy, PartialEq, Eq, Structural)]
pub enum RLEError {
    /// The index or range lies outside the logical length.
    OutOfRange,
}

/// A run-length encoded sequence of values: a fixed number of logical
/// elements, stored as a list of `(length, value)` runs.
pub struct RLE<T> {
    raw: Vec<(usize, T)>,
    /// The logical length: the sum of the run lengths.
    pub raw_length: usize,
}

impl<T> RLE<T> {
    /// The stored runs, in order.
    pub closed spec fn runs(&self) -> Seq<(usize, T)> {
        self.raw@
    }

    /// The runs are canonical and their lengths add up to `raw_length`.
    pub closed spec fn wf(&self) -> bool {
        &&& canonical(self.raw@)
        &&& total_len(self.raw@) == self.raw_length
    }

    /// The logical sequence of elements.
    pub closed spec fn view(&self) -> Seq<T> {
        expand(self.raw@)
    }

    /// What `wf` and the view mean in terms of the runs.
    pub proof fn lemma_wf_unfold(&self)
        requires
            self.wf(),
        ensures
            canonical(self.runs()),
            self@ == expand(self.runs()),
            self@.len() == total_len(self.runs()),
    {
        lemma_expand_len(self.raw@);
    }

}

impl<T: Copy + Eq> RLE<T> {
    /// The run that holds position `index`, with the position where it starts.
    fn find_run(&self, index: usize) -> (r: (usize, usize))
        requires
            self.wf(),
            index < self.raw_length,
        ensures
            r.0 < self.raw@.len(),
            r.1 == total_len(self.raw@.take(r.0 as int)),
            r.1 <= index < r.1 + self.raw@[r.0 as int].0,
    {
        let n = self.raw.len();
        let mut i: usize = 0;
        let mut current: usize = 0;
        proof {
            assert(self.raw@.take(0) =~= Seq::<(usize, T)>::empty());
            assert(self.raw@.take(n as int) =~= self.raw@);
            lemma_take_step(self.raw@, 0);
            lemma_take_le_total(self.raw@, 1);
        }
        while current + self.raw[i].0 <= index
            invariant
                self.wf(),
                n == self.raw@.len(),
                i < n,
                current == total_len(self.raw@.take(i as int)),
                current <= index < self.raw_length,
                self.raw@.take(n as int) == self.raw@,
                current + self.raw@[i as int].0 <= self.raw_length,
            decreases n - i,
        {
            proof {
                lemma_take_step(self.raw@, i as int);
            }
            current = current + self.raw[i].0;
            i = i + 1;
            proof {
                if i < n {
                    lemma_take_step(self.raw@, i as int);
                    lemma_take_le_total(self.raw@, i + 1);
                }
            }
        }
        (i, current)
    }

    /// Overwrites positions `start..end` with `item` in one replacement of the
    /// covered runs: the part of run `i` before `start`, one run of `item`, and
    /// the part of run `j` after `end`, with empty pieces dropped and equal
    /// neighbours merged. Run `i` (starting at `s0`) holds `start`, and run `j`
    /// (starting at `s1`) holds `end - 1`.
    fn replace_span(
        &mut self,
        i: usize,
        s0: usize,
        j: usize,
        s1: usize,
        start: usize,
        end: usize,
        item: T,
    )
        requires
            obeys_concrete_eq::<T>(),
            old(self).wf(),
            start < end <= old(self).raw_length,
            i <= j < old(self).raw@.len(),
            s0 == total_len(old(self).raw@.take(i as int)),
            s0 <= start < s0 + old(self).raw@[i as int].0,
            s1 == total_len(old(self).raw@.take(j as int)),
            s1 <= end - 1 < s1 + old(self).raw@[j as int].0,
        ensures
            final(self).wf(),
            final(self).raw_length == old(self).raw_length,
            final(self)@.len() == old(self)@.len(),
            forall|p: int|
                0 <= p < old(self)@.len() ==> #[trigger] final(self)@[p] == if start <= p < end {
                    item
                } else {
                    old(self)@[p]
                },
            final(self).raw@.len() <= old(self).raw@.len() + 2,
    {
        let ghost runs = self.raw@;
        let n = self.raw.len();
        let (len_i, v_i) = self.raw[i];
        let (len_j, v_j) = self.raw[j];
        proof {
            assert(runs.subrange(0, i as int) =~= runs.take(i as int));
            assert(runs.subrange(j + 1, n as int) =~= runs.skip(j + 1));
            lemma_expand_split(runs, i as int);
            lemma_expand_split(runs, j + 1);
            lemma_take_step(runs, j as int);
            lemma_expand_len(runs);
        }
        let mut out: Vec<(usize, T)> = Vec::new();
        proof {
            assert(canonical(out@));
        }
        append_runs(&mut out, &self.raw, 0, i);
        push_run(&mut out, start - s0, v_i);
        push_run(&mut out, end - start, item);
        push_run(&mut out, s1 + len_j - end, v_j);
        append_runs(&mut out, &self.raw, j + 1, n);
        let ghost head = expand(runs.take(i as int));
        let ghost tail = expand(runs.skip(j + 1));
        let ghost old_view = expand(runs);
        proof {
            assert(expand(Seq::<(usize, T)>::empty()) =~= Seq::<T>::empty());
            assert(expand(out@) =~= head + rep((start - s0) as nat, v_i) + rep(
                (end - start) as nat,
                item,
            ) + rep((s1 + len_j - end) as nat, v_j) + tail);
            lemma_expand_len(out@);
            assert forall|p: int| 0 <= p < old_view.len() implies #[trigger] expand(out@)[p] == if start
                <= p < end {
                item
            } else {
                old_view[p]
            } by {
                if s0 <= p < start {
                    lemma_expand_index(runs, i as int, p);
                } else if end <= p < s1 + len_j {
                    lemma_expand_index(runs, j as int, p);
                }
            }
        }
        self.raw = out;
    }

    /// The value at `index`.
    pub fn get(&self, index: usize) -> (r: Result<T, RLEError>)
        requires
            self.wf(),
        ensures
            index >= self@.len() ==> r == Err::<T, RLEError>(RLEError::OutOfRange),
            index < self@.len() ==> r == Ok::<T, RLEError>(self@[index as int]),
    {
        proof {
            lemma_expand_len(self.raw@);
        }
        if index >= self.raw_length {
            return Err(RLEError::OutOfRange);
        }
        let (i, start) = self.find_run(index);
        proof {
            lemma_expand_index(self.raw@, i as int, index as int);
        }
        Ok(self.raw[i].1)
    }

    /// Sets the value at `index`. When the run holding `index` already has
    /// that value nothing changes; otherwise the run is split around
    /// `index` and the new singleton run is merged with equal neighbours.
    pub fn set(&mut self, index: usize, item: &T) -> (r: Result<(), RLEError>)
        requires
            obeys_concrete_eq::<T>(),
            old(self).wf(),
        ensures
            final(self).wf(),
            index >= old(self)@.len() ==> r == Err::<(), RLEError>(RLEError::OutOfRange) && *final(self) == *old(self),
            index < old(self)@.len() ==> r == Ok::<(), RLEError>(()) && final(self)@ == old(self)@.update(index as int, *item),
            index < old(self)@.len() && old(self)@[index as int] == *item ==> final(self).runs()
                == old(self).runs(),
            final(self).runs().len() <= old(self).runs().len() + 2,
    {
        proof {
            lemma_expand_len(self.raw@);
        }
        if index >= self.raw_length {
            return Err(RLEError::OutOfRange);
        }
        let (i, start) = self.find_run(index);
        proof {
            lemma_expand_index(self.raw@, i as int, index as int);
        }
        if same(&self.raw[i].1, item) {
            return Ok(());
        }
        let ghost pre = self@;
        self.replace_span(i, start, i, start, index, index + 1, *item);
        assert(self@ =~= pre.update(index as int, *item));
        Ok(())
    }

    /// Sets every position of `index` to `item`. A range with
    /// `start >= end` covers nothing.
    pub fn set_range_singular(&mut self, item: T, index: Range<usize>) -> (r: Result<(), RLEError>)
        requires
            obeys_concrete_eq::<T>(),
            old(self).wf(),
        ensures
            final(self).wf(),
            r is Err <==> (index.start >= old(self)@.len() || index.end > old(self)@.len()),
            r is Err ==> r == Err::<(), RLEError>(RLEError::OutOfRange) && *final(self) == *old(self),
            r is Ok ==> final(self)@.len() == old(self)@.len(),
            r is Ok ==> forall|p: int|
                0 <= p < old(self)@.len() ==> #[trigger] final(self)@[p] == if index.start <= p
                    < index.end {
                    item
                } else {
                    old(self)@[p]
                },
            final(self).runs().len() <= old(self).runs().len() + 2,
    {
        proof {
            lemma_expand_len(self.raw@);
        }
        if index.start >= self.raw_length || index.end > self.raw_length {
            return Err(RLEError::OutOfRange);
        }
        if index.start >= index.end {
            return Ok(());
        }
        let (i, s0) = self.find_run(index.start);
        let (j, s1) = self.find_run(index.end - 1);
        proof {
            if j < i {
                lemma_take_step(self.raw@, j as int);
                assert(self.raw@.take(i as int).take(j + 1) =~= self.raw@.take(j + 1));
                lemma_take_le_total(self.raw@.take(i as int), j + 1);
            }
        }
        self.replace_span(i, s0, j, s1, index.start, index.end, item);
        Ok(())
    }

    /// The number of stored runs.
    pub fn compressed_len(&self) -> (r: usize)
        requires
            self.wf(),
        ensures
            r == self.runs().len(),
    {
        self.raw.len()
    }

    /// An iterator over the logical elements, from the first.
    pub fn iter(&self) -> (r: RLEIterator<T>)
        requires
            self.wf(),
        ensures
            r.wf(),
            r.elements() == self@,
            r.pos() == 0,
    {
        proof {
            assert(self.raw@.take(0) =~= Seq::<(usize, T)>::empty());
        }
        RLEIterator { rle: self, index: 0, current: 0 }
    }

    /// An iterator over the logical elements, from position `start`.
    fn iter_at(&self, start: usize) -> (r: RLEIterator<T>)
        requires
            self.wf(),
            start < self@.len(),
        ensures
            r.wf(),
            r.elements() == self@,
            r.pos() == start,
    {
        proof {
            lemma_expand_len(self.raw@);
        }
        let (i, s0) = self.find_run(start);
        RLEIterator { rle: self, index: i, current: start - s0 }
    }

    /// The elements at the positions of `index`, uncompressed. A range with
    /// `start >= end` gives an empty vector.
    pub fn get_range(&self, index: Range<usize>) -> (r: Result<Vec<T>, RLEError>)
        requires
            self.wf(),
        ensures
            r is Err <==> (index.start >= self@.len() || index.end > self@.len()),
            r is Err ==> r == Err::<Vec<T>, RLEError>(RLEError::OutOfRange),
            r is Ok ==> r->Ok_0@ == if index.start < index.end {
                self@.subrange(index.start as int, index.end as int)
            } else {
                Seq::empty()
            },
    {
        proof {
            lemma_expand_len(self.raw@);
        }
        if index.start >= self.raw_length || index.end > self.raw_length {
            return Err(RLEError::OutOfRange);
        }
        let mut vec: Vec<T> = Vec::new();
        if index.start >= index.end {
            return Ok(vec);
        }
        let mut it = self.iter_at(index.start);
        let count = index.end - index.start;
        let mut k: usize = 0;
        while k < count
            invariant
                it.wf(),
                it.elements() == self@,
                k <= count,
                index.start + count == index.end <= self@.len(),
                it.pos() == index.start + k,
                vec@ == self@.subrange(index.start as int, index.start + k),
            decreases count - k,
        {
            match it.next() {
                Some(v) => {
                    vec.push(v);
                },
                None => {},
            }
            k = k + 1;
            assert(vec@ =~= self@.subrange(index.start as int, index.start + k));
        }
        Ok(vec)
    }

    /// All elements in order, gathered by walking an iterator from the
    /// start until it is exhausted.
    pub fn to_vec(&self) -> (r: Vec<T>)
        requires
            self.wf(),
        ensures
            r@ == self@,
    {
        let mut out: Vec<T> = Vec::new();
        let mut it = self.iter();
        loop
            invariant
                it.wf(),
                it.elements() == self@,
                0 <= it.pos() <= self@.len(),
                out@ == self@.take(it.pos()),
            ensures
                out@ == self@,
            decreases self@.len() - it.pos(),
        {
            match it.next() {
                Some(v) => {
                    out.push(v);
                    assert(out@ =~= self@.take(it.pos()));
                },
                None => {
                    assert(out@ =~= self@);
                    break;
                },
            }
        }
        out
    }

    /// Builds the run list of `data`, merging equal neighbours. Gives the runs
    /// and their total length.
    fn rle_compress(data: &Vec<T>) -> (r: (Vec<(usize, T)>, usize))
        requires
            obeys_concrete_eq::<T>(),
        ensures
            canonical(r.0@),
            expand(r.0@) == data@,
            total_len(r.0@) == r.1,
            r.1 == data@.len(),
    {
        let mut out: Vec<(usize, T)> = Vec::new();
        let mut k: usize = 0;
        while k < data.len()
            invariant
                obeys_concrete_eq::<T>(),
                k <= data@.len(),
                canonical(out@),
                expand(out@) == data@.take(k as int),
                total_len(out@) == k,
            decreases data@.len() - k,
        {
            push_run(&mut out, 1, data[k]);
            assert(data@.take(k + 1) =~= data@.take(k as int) + rep(1, data@[k as int]));
            k = k + 1;
        }
        assert(data@.take(k as int) =~= data@);
        (out, k)
    }

    /// A sequence of `len` copies of `value`, stored as at most one run.
    pub fn filled(len: usize, value: T) -> (r: Self)
        ensures
            r.wf(),
            r@ == rep(len as nat, value),
            r.runs().len() == if len > 0 { 1int } else { 0int },
    {
        let mut raw: Vec<(usize, T)> = Vec::new();
        if len > 0 {
            raw.push((len, value));
        }
        let r = RLE { raw, raw_length: len };
        proof {
            let e = Seq::<(usize, T)>::empty();
            assert(expand(e) =~= Seq::<T>::empty());
            assert(total_len(e) == 0);
            if len > 0 {
                assert(r.raw@.drop_last() =~= e);
                assert(expand(r.raw@) =~= rep(len as nat, value));
            } else {
                assert(r.raw@ =~= e);
                assert(expand(r.raw@) =~= rep(len as nat, value));
            }
        }
        r
    }

    /// The compressed sequence holding `data`.
    pub fn from(data: Vec<T>) -> (r: Self)
        requires
            obeys_concrete_eq::<T>(),
        ensures
            r.wf(),
            r@ == data@,
    {
        let (raw, raw_length) = Self::rle_compress(&data);
        RLE { raw, raw_length }
    }
}

/// A walk over the logical elements of an [`RLE`], emitting the value of each
/// run once per unit of its length.
pub struct RLEIterator<'a, T> {
    rle: &'a RLE<T>,
    index: usize,
    current: usize,
}

impl<'a, T: Copy + Eq> RLEIterator<'a, T> {
    /// The index of the run being walked and the offset in it are valid.
    pub closed spec fn wf(&self) -> bool {
        &&& self.rle.wf()
        &&& self.index <= self.rle.raw@.len()
        &&& self.index < self.rle.raw@.len() ==> self.current < self.rle.raw@[self.index as int].0
        &&& self.index == self.rle.raw@.len() ==> self.current == 0
    }

    /// The elements walked over.
    pub closed spec fn elements(&self) -> Seq<T> {
        self.rle@
    }

    /// How many elements have been emitted.
    pub closed spec fn pos(&self) -> int {
        total_len(self.rle.raw@.take(self.index as int)) + self.current
    }

    /// The next element, if any is left.
    pub fn next(&mut self) -> (r: Option<T>)
        requires
            old(self).wf(),
        ensures
            final(self).wf(),
            final(self).elements() == old(self).elements(),
            0 <= old(self).pos() <= old(self).elements().len(),
            0 <= final(self).pos() <= final(self).elements().len(),
            old(self).pos() < old(self).elements().len() ==> r == Some(
                old(self).elements()[old(self).pos()],
            ) && final(self).pos() == old(self).pos() + 1,
            old(self).pos() == old(self).elements().len() ==> r is None && final(self).pos() == old(self).pos(),
    {
        let ghost runs = self.rle.raw@;
        proof {
            lemma_expand_len(runs);
            assert(runs.take(runs.len() as int) =~= runs);
            if self.index < runs.len() {
                lemma_take_step(runs, self.index as int);
                lemma_take_le_total(runs, self.index + 1);
            }
        }
        if self.index >= self.rle.raw.len() {
            return None;
        }
        let (len, v) = self.rle.raw[self.index];
        proof {
            lemma_expand_index(runs, self.index as int, self.pos());
        }
        self.current = self.current + 1;
        if self.current == len {
            self.index = self.index + 1;
            self.current = 0;
        }
        Some(v)
    }
}

/// Round trip: a sequence built from `data` holds `data`, so `get` at every
/// valid index gives the element of `data` there, and walking it from the
/// start yields `data` exactly.
pub proof fn lemma_round_trip<T: Copy + Eq>(data: Seq<T>, r: RLE<T>, walked: Seq<T>)
    requires
        r.wf(),
        r@ == data,
        walked == r@,
    ensures
        walked == data,
        forall|i: int| 0 <= i < data.len() ==> #[trigger] r@[i] == data[i],
{
}

/// Setting the value an index already holds changes nothing, so setting
/// the same value twice in a row leaves the runs of setting it once.
pub proof fn lemma_set_idempotent<T: Copy + Eq>(once: RLE<T>, twice: RLE<T>, index: int, item: T)
    requires
        once.wf(),
        0 <= index < once@.len(),
        once@[index] == item,
        twice@ == once@.update(index, item),
        once@[index] == item ==> twice.runs() == once.runs(),
    ensures
        twice.runs() == once.runs(),
        twice.runs().len() == once.runs().len(),
        twice@ == once@,
{
    assert(once@.update(index, item) =~= once@);
}

/// The compression invariant kept by every edit: each run is non-empty,
/// neighbouring runs hold different values, and the run lengths add up to
/// the logical length.
pub proof fn lemma_compression_invariant<T: Copy + Eq>(r: RLE<T>)
    requires
        r.wf(),
    ensures
        forall|i: int| 0 <= i < r.runs().len() ==> #[trigger] r.runs()[i].0 > 0,
        forall|i: int| 0 < i < r.runs().len() ==> r.runs()[i - 1].1 != #[trigger] r.runs()[i].1,
        total_len(r.runs()) == r@.len(),
{
    r.lemma_wf_unfold();
}

/// Overwriting `start..end` with `v` puts `v` at every index of the range
/// and keeps every other index as it was.
pub proof fn lemma_range_overwrite<T: Copy + Eq>(
    before: RLE<T>,
    after: RLE<T>,
    start: int,
    end: int,
    v: T,
)
    requires
        0 <= start < end <= before@.len(),
        after@.len() == before@.len(),
        forall|p: int|
            0 <= p < before@.len() ==> #[trigger] after@[p] == if start <= p < end {
                v
            } else {
                before@[p]
            },
    ensures
        forall|i: int| start <= i < end ==> #[trigger] after@[i] == v,
        forall|i: int|
            0 <= i < after@.len() && !(start <= i < end) ==> #[trigger] after@[i] == before@[i],
{
}

} // verus!
