//! An append-only vector of fixed capacity, and the writer that fills it.
use vstd::prelude::*;

verus! {

/// An array's contents and its capacity, as a writer call sees them.
pub type ArrayState<T> = (Seq<T>, nat);

/// The state after one call of the writer that offers `items`: as many of
/// them, from the front, as there is room for are appended, and the capacity
/// stays. `try_push` offers one item, `extend_from_slice` a slice.
pub open spec fn spec_call<T>(state: ArrayState<T>, items: Seq<T>) -> ArrayState<T> {
    let room = state.1 - state.0.len();
    let count = if room < items.len() { room } else { items.len() as int };
    (state.0 + items.subrange(0, count), state.1)
}

/// The state after a run of writer calls, each offering the items in turn.
pub open spec fn spec_calls<T>(state: ArrayState<T>, calls: Seq<Seq<T>>) -> ArrayState<T>
    decreases calls.len(),
{
    if calls.len() == 0 {
        state
    } else {
        spec_calls(spec_call(state, calls[0]), calls.drop_first())
    }
}

/// Over any run of writer calls on an array that is within its capacity, the
/// capacity never changes, the length never decreases nor passes the
/// capacity, and what was written before stays as it was.
pub proof fn lemma_calls_keep_written<T>(state: ArrayState<T>, calls: Seq<Seq<T>>)
    requires
        state.0.len() <= state.1,
    ensures
        spec_calls(state, calls).1 == state.1,
        state.0.len() <= spec_calls(state, calls).0.len() <= state.1,
        spec_calls(state, calls).0.subrange(0, state.0.len() as int) == state.0,
    decreases calls.len(),
{
    if calls.len() > 0 {
        let next = spec_call(state, calls[0]);
        assert(next.0.subrange(0, state.0.len() as int) =~= state.0);
        lemma_calls_keep_written(next, calls.drop_first());
        let last = spec_calls(next, calls.drop_first()).0;
        assert(last.subrange(0, state.0.len() as int) =~= next.0.subrange(
            0,
            state.0.len() as int,
        ).subrange(0, state.0.len() as int));
    }
}

/// The number of elements `v` can hold without reallocating.
///
/// Trusted: calls `Vec::capacity` of std, which documents that the capacity
/// is never below the length. What else it is depends on the allocator and
/// is left unsaid.
#[verifier::external_body]
fn vec_capacity<T>(v: &Vec<T>) -> (res: usize)
    ensures
        res >= v@.len(),
{
    v.capacity()
}

/// Gives back as much of the room of `v` as the allocator allows.
///
/// Trusted: calls `Vec::shrink_to_fit` of std, which keeps the elements.
#[verifier::external_body]
fn shrink_vec<T>(v: &mut Vec<T>)
    ensures
        final(v)@ == old(v)@,
{
    v.shrink_to_fit()
}

/// Append-only fixed capacity vector.
pub struct AppendArray<T> {
    data: Vec<T>,
    cap: usize,
}

impl<T> View for AppendArray<T> {
    type V = Seq<T>;

    closed spec fn view(&self) -> Seq<T> {
        self.data@
    }
}

impl<T> AppendArray<T> {
    /// The capacity the array was made with.
    pub closed spec fn spec_capacity(&self) -> nat {
        self.cap as nat
    }

    /// The elements never outnumber the capacity.
    pub closed spec fn wf(&self) -> bool {
        self.data@.len() <= self.cap
    }

    /// Returns the maximum number of elements this buffer can hold.
    ///
    /// The capacity can't change once allocated.
    pub fn capacity(&self) -> (res: usize)
        ensures
            res == self.spec_capacity(),
    {
        self.cap
    }

    /// Returns the current number of elements in the buffer.
    ///
    /// This increases when the writer appends to the buffer, but can never
    /// decrease, nor pass the capacity.
    pub fn len(&self) -> (res: usize)
        ensures
            res == self@.len(),
            self.wf() ==> res <= self.spec_capacity(),
    {
        self.data.len()
    }

    /// Obtain a slice of the written part of the buffer.
    pub fn as_slice(&self) -> (res: &[T])
        ensures
            res@ == self@,
    {
        self.data.as_slice()
    }

    /// An array holding the elements of `v`, which will never grow: its
    /// capacity is what `v` has once shrunk to fit them.
    pub fn from_vec(v: Vec<T>) -> (res: Self)
        ensures
            res.wf(),
            res@ == v@,
            res.spec_capacity() >= v@.len(),
    {
        let mut v = v;
        shrink_vec(&mut v);
        let cap = vec_capacity(&v);
        AppendArray { data: v, cap }
    }
}

/// The one writer of an `AppendArray`.
pub struct AppendArrayWriter<T> {
    inner: AppendArray<T>,
}

impl<T> View for AppendArrayWriter<T> {
    type V = Seq<T>;

    closed spec fn view(&self) -> Seq<T> {
        self.inner@
    }
}

impl<T> AppendArrayWriter<T> {
    /// The capacity of the array written.
    pub closed spec fn spec_capacity(&self) -> nat {
        self.inner.spec_capacity()
    }

    /// The array written is consistent.
    pub closed spec fn wf(&self) -> bool {
        self.inner.wf()
    }

    /// A writer of an empty array with room for at least `n` elements: the
    /// capacity is that of a vector made with room for `n`, which std
    /// documents to be at least `n`.
    pub fn with_capacity(n: usize) -> (res: Self)
        ensures
            res.wf(),
            res@ == Seq::<T>::empty(),
            res.spec_capacity() >= n,
    {
        let v: Vec<T> = Vec::with_capacity(n);
        let c = vec_capacity(&v);
        let cap = if c < n {
            n
        } else {
            c
        };
        AppendArrayWriter { inner: AppendArray { data: v, cap } }
    }

    /// A writer of an array holding the elements of `v`, with room for as
    /// many more as the capacity of `v` leaves.
    pub fn from_vec(v: Vec<T>) -> (res: Self)
        ensures
            res.wf(),
            res@ == v@,
            res.spec_capacity() >= v@.len(),
    {
        let cap = vec_capacity(&v);
        AppendArrayWriter { inner: AppendArray { data: v, cap } }
    }

    /// The array written so far.
    pub fn reader(&self) -> (res: &AppendArray<T>)
        ensures
            res@ == self@,
            res.spec_capacity() == self.spec_capacity(),
            res.wf() == self.wf(),
    {
        &self.inner
    }

    /// Appends `val` when there is room, returning its index; else hands
    /// `val` back. What was written stays, and the capacity is unchanged.
    pub fn try_push(&mut self, val: T) -> (res: Result<usize, T>)
        requires
            old(self).wf(),
        ensures
            final(self).wf(),
            final(self).spec_capacity() == old(self).spec_capacity(),
            old(self)@.len() < old(self).spec_capacity() ==> res == Ok::<usize, T>(
                old(self)@.len() as usize,
            ) && final(self)@ == old(self)@.push(val),
            old(self)@.len() >= old(self).spec_capacity() ==> res == Err::<usize, T>(val)
                && final(self)@ == old(self)@,
            (final(self)@, final(self).spec_capacity()) == spec_call(
                (old(self)@, old(self).spec_capacity()),
                seq![val],
            ),
    {
        let len = self.inner.data.len();
        if len < self.inner.cap {
            self.inner.data.push(val);
            assert(seq![val].subrange(0, 1) =~= seq![val]);
            Ok(len)
        } else {
            assert(old(self)@ + seq![val].subrange(0, 0) =~= old(self)@);
            Err(val)
        }
    }
}

impl<T: Copy> AppendArrayWriter<T> {
    /// Appends as much of `slice` as there is room for, returning the rest.
    pub fn extend_from_slice<'a>(&mut self, slice: &'a [T]) -> (res: &'a [T])
        requires
            old(self).wf(),
        ensures
            final(self).wf(),
            final(self).spec_capacity() == old(self).spec_capacity(),
            ({
                let room = old(self).spec_capacity() - old(self)@.len();
                let count = if room < slice@.len() { room } else { slice@.len() as int };
                &&& final(self)@ == old(self)@ + slice@.subrange(0, count)
                &&& res@ == slice@.subrange(count, slice@.len() as int)
            }),
            (final(self)@, final(self).spec_capacity()) == spec_call(
                (old(self)@, old(self).spec_capacity()),
                slice@,
            ),
    {
        let len = self.inner.data.len();
        let room = self.inner.cap - len;
        let count = if room < slice.len() {
            room
        } else {
            slice.len()
        };
        let ghost start = self.inner.data@;
        let ghost cap = self.inner.cap;
        let mut i: usize = 0;
        while i < count
            invariant
                self.inner.cap == cap,
                cap == old(self).spec_capacity(),
                start == old(self)@,
                i <= count <= slice@.len(),
                count <= self.inner.cap - start.len(),
                start.len() <= self.inner.cap,
                self.inner.data@ == start + slice@.subrange(0, i as int),
            decreases count - i,
        {
            self.inner.data.push(slice[i]);
            assert(slice@.subrange(0, i + 1) =~= slice@.subrange(0, i as int).push(slice@[i as int]));
            i = i + 1;
        }
        vstd::slice::slice_subrange(slice, count, slice.len())
    }
}

} // verus!
