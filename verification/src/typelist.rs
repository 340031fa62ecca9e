//! Lists whose length and element types are known to the compiler: cons
//! lists with adapters mapped over them, and stack-queues built of nested
//! pairs.
use vstd::prelude::*;

verus! {

/// The empty list.
pub struct Nil;

/// A list: a head and the rest.
pub struct Cons<H, T> {
    pub head: H,
    pub tail: T,
}

/// The list of `head` followed by `tail`.
pub fn cons<H, T>(head: H, tail: T) -> (r: Cons<H, T>)
    ensures
        r.head == head,
        r.tail == tail,
{
    Cons { head, tail }
}

impl Nil {
    /// The empty list.
    pub fn default() -> (r: Nil) {
        Nil
    }

    /// A walk over the empty list.
    pub fn iter<'a>(&'a self) -> (r: ConsIterator<'a, Self, Nil>)
        ensures
            r.list == self,
            r.adapter == Nil,
    {
        ConsIterator::new(self)
    }
}

impl<H, T> Cons<H, T> {
    /// A walk over the list, from its head.
    pub fn iter<'a>(&'a self) -> (r: ConsIterator<'a, Self, Nil>)
        ensures
            r.list == self,
            r.adapter == Nil,
    {
        ConsIterator::new(self)
    }
}

/// What is done to each element of a list as the walk reaches it.
pub trait Adapter<T> {
    type Output;

    /// Whether adapting `input` may give `output` and leave the adapter as
    /// `after`.
    spec fn adapts(&self, input: T, after: &Self, output: Self::Output) -> bool;

    fn adapt(&mut self, input: T) -> (r: Self::Output)
        ensures
            old(self).adapts(input, &*final(self), r),
    ;
}

/// A function mapped over the elements of a list.
pub trait MapFunc<T> {
    type Output;

    /// Whether calling the function on `item` may give `output` and leave it
    /// as `after`.
    spec fn calls(&self, item: T, after: &Self, output: Self::Output) -> bool;

    fn call(&mut self, item: T) -> (r: Self::Output)
        ensures
            old(self).calls(item, &*final(self), r),
    ;
}

impl<T> Adapter<T> for Nil {
    type Output = T;

    /// The element comes out as it went in.
    open spec fn adapts(&self, input: T, after: &Self, output: T) -> bool {
        output == input && after == *self
    }

    /// The element as it is.
    fn adapt(&mut self, input: T) -> (r: T)
        ensures
            r == input,
    {
        input
    }
}

impl<T, Head, Tail> Adapter<T> for Cons<Head, Tail> where
    Tail: Adapter<T>,
    Head: Adapter<<Tail as Adapter<T>>::Output>,
 {
    type Output = <Head as Adapter<<Tail as Adapter<T>>::Output>>::Output;

    /// The tail's adapters take the element to some `x`, and the head takes
    /// `x` to the output.
    open spec fn adapts(&self, input: T, after: &Self, output: Self::Output) -> bool {
        exists|x: <Tail as Adapter<T>>::Output|
            #![trigger self.tail.adapts(input, &after.tail, x)]
            self.tail.adapts(input, &after.tail, x) && self.head.adapts(x, &after.head, output)
    }

    /// The element through the adapters of the tail, then through the head.
    fn adapt(&mut self, input: T) -> (r: Self::Output) {
        let x = self.tail.adapt(input);
        let r = self.head.adapt(x);
        assert(old(self).tail.adapts(input, &self.tail, x));
        r
    }
}

/// An adapter that calls a function.
pub struct MapAdapter<F> {
    pub f: F,
}

impl<F, T> Adapter<T> for MapAdapter<F> where F: MapFunc<T> {
    type Output = <F as MapFunc<T>>::Output;

    /// The function is called on the element.
    open spec fn adapts(&self, input: T, after: &Self, output: Self::Output) -> bool {
        self.f.calls(input, &after.f, output)
    }

    /// The function called on the element.
    fn adapt(&mut self, input: T) -> (r: Self::Output) {
        self.f.call(input)
    }
}

/// A walk over a list, with the adapters that each element goes through.
pub struct ConsIterator<'a, List, A> {
    pub list: &'a List,
    pub adapter: A,
}

impl<'a, List> ConsIterator<'a, List, Nil> {
    /// A walk with no adapter.
    pub fn new(list: &'a List) -> (r: Self)
        ensures
            r.list == list,
            r.adapter == Nil,
    {
        ConsIterator { list, adapter: Nil }
    }
}

impl<'a, List, A> ConsIterator<'a, List, A> {
    /// A walk with the adapter `adapter`.
    pub fn with_adapter(list: &'a List, adapter: A) -> (r: Self)
        ensures
            r.list == list,
            r.adapter == adapter,
    {
        ConsIterator { list, adapter }
    }
}

impl<'a, H, T, A> ConsIterator<'a, Cons<H, T>, A> where A: Adapter<&'a H> {
    /// The head through the adapter, once, and the walk over the tail with
    /// the adapter as that left it.
    pub fn next(self) -> (r: (<A as Adapter<&'a H>>::Output, ConsIterator<'a, T, A>))
        ensures
            self.adapter.adapts(&self.list.head, &r.1.adapter, r.0),
            r.1.list == &self.list.tail,
    {
        let mut adapter = self.adapter;
        let out = adapter.adapt(&self.list.head);
        (out, ConsIterator::with_adapter(&self.list.tail, adapter))
    }

    /// The walk with `f` applied after the adapters so far.
    pub fn map<F>(self, f: F) -> (r: ConsIterator<'a, Cons<H, T>, Cons<MapAdapter<F>, A>>) where
        F: MapFunc<<A as Adapter<&'a H>>::Output>,

        ensures
            r.list == self.list,
            r.adapter.head.f == f,
            r.adapter.tail == self.adapter,
    {
        ConsIterator::with_adapter(self.list, Cons { head: MapAdapter { f }, tail: self.adapter })
    }
}

/// Mapping `f` over a walk whose adapters are `a`: an element comes out as
/// what calling `f` gives on what `a` made of it, and the adapters are left
/// as `a` and `f` leave themselves.
pub proof fn lemma_map_adapts<X, A, F>(
    a: A,
    f: F,
    x: X,
    after: Cons<MapAdapter<F>, A>,
    out: <F as MapFunc<<A as Adapter<X>>::Output>>::Output,
) where A: Adapter<X>, F: MapFunc<<A as Adapter<X>>::Output>
    ensures
        (Cons { head: MapAdapter { f }, tail: a }).adapts(x, &after, out) <==> exists|
            y: <A as Adapter<X>>::Output,
        |
            #![trigger a.adapts(x, &after.tail, y)]
            a.adapts(x, &after.tail, y) && f.calls(y, &after.head.f, out),
{
    let c = Cons { head: MapAdapter { f }, tail: a };
    if c.adapts(x, &after, out) {
        let y = choose|y: <A as Adapter<X>>::Output|
            #![trigger c.tail.adapts(x, &after.tail, y)]
            c.tail.adapts(x, &after.tail, y) && c.head.adapts(y, &after.head, out);
        assert(a.adapts(x, &after.tail, y) && f.calls(y, &after.head.f, out));
    }
    if exists|y: <A as Adapter<X>>::Output|
        #![trigger a.adapts(x, &after.tail, y)]
        a.adapts(x, &after.tail, y) && f.calls(y, &after.head.f, out) {
        let y = choose|y: <A as Adapter<X>>::Output|
            #![trigger a.adapts(x, &after.tail, y)]
            a.adapts(x, &after.tail, y) && f.calls(y, &after.head.f, out);
        assert(c.head.adapts(y, &after.head, out));
        assert(c.tail.adapts(x, &after.tail, y));
    }
}

/// Mapping `f` and then `g` over a walk whose adapters are `a`: each element
/// the walk reaches (see `ConsIterator::next`) comes out as what `g` gives on
/// what `f` gives on what `a` made of it.
pub proof fn lemma_map_map_adapts<X, A, F, G>(
    a: A,
    f: F,
    g: G,
    x: X,
    after: Cons<MapAdapter<G>, Cons<MapAdapter<F>, A>>,
    out: <G as MapFunc<<F as MapFunc<<A as Adapter<X>>::Output>>::Output>>::Output,
) where
    A: Adapter<X>,
    F: MapFunc<<A as Adapter<X>>::Output>,
    G: MapFunc<<F as MapFunc<<A as Adapter<X>>::Output>>::Output>,

    ensures
        (Cons { head: MapAdapter { f: g }, tail: Cons { head: MapAdapter { f }, tail: a } }).adapts(
            x,
            &after,
            out,
        ) <==> exists|
            y: <A as Adapter<X>>::Output,
            z: <F as MapFunc<<A as Adapter<X>>::Output>>::Output,
        |
            #![trigger a.adapts(x, &after.tail.tail, y), f.calls(y, &after.tail.head.f, z)]
            a.adapts(x, &after.tail.tail, y) && f.calls(y, &after.tail.head.f, z) && g.calls(
                z,
                &after.head.f,
                out,
            ),
{
    let inner = Cons { head: MapAdapter { f }, tail: a };
    lemma_map_adapts(inner, g, x, after, out);
    if (Cons { head: MapAdapter { f: g }, tail: inner }).adapts(x, &after, out) {
        let z = choose|z: <F as MapFunc<<A as Adapter<X>>::Output>>::Output|
            #![trigger inner.adapts(x, &after.tail, z)]
            inner.adapts(x, &after.tail, z) && g.calls(z, &after.head.f, out);
        lemma_map_adapts(a, f, x, after.tail, z);
        let y = choose|y: <A as Adapter<X>>::Output|
            #![trigger a.adapts(x, &after.tail.tail, y)]
            a.adapts(x, &after.tail.tail, y) && f.calls(y, &after.tail.head.f, z);
        assert(a.adapts(x, &after.tail.tail, y) && f.calls(y, &after.tail.head.f, z));
    }
    if exists|
        y: <A as Adapter<X>>::Output,
        z: <F as MapFunc<<A as Adapter<X>>::Output>>::Output,
    |
        #![trigger a.adapts(x, &after.tail.tail, y), f.calls(y, &after.tail.head.f, z)]
        a.adapts(x, &after.tail.tail, y) && f.calls(y, &after.tail.head.f, z) && g.calls(
            z,
            &after.head.f,
            out,
        ) {
        let (y, z) = choose|
            y: <A as Adapter<X>>::Output,
            z: <F as MapFunc<<A as Adapter<X>>::Output>>::Output,
        |
            #![trigger a.adapts(x, &after.tail.tail, y), f.calls(y, &after.tail.head.f, z)]
            a.adapts(x, &after.tail.tail, y) && f.calls(y, &after.tail.head.f, z) && g.calls(
                z,
                &after.head.f,
                out,
            );
        lemma_map_adapts(a, f, x, after.tail, z);
        assert(a.adapts(x, &after.tail.tail, y));
        assert(inner.adapts(x, &after.tail, z));
    }
}

/// Lists with a length known to the compiler.
pub trait Len {
    spec fn spec_len() -> nat;

    fn len(&self) -> (r: usize)
        requires
            Self::spec_len() <= usize::MAX,
        ensures
            r == Self::spec_len(),
    ;
}

impl Len for Nil {
    open spec fn spec_len() -> nat {
        0
    }

    fn len(&self) -> (r: usize) {
        0
    }
}

impl<H, T: Len> Len for Cons<H, T> {
    open spec fn spec_len() -> nat {
        1 + T::spec_len()
    }

    fn len(&self) -> (r: usize) {
        1 + self.tail.len()
    }
}

/// A stack-queue: nested pairs, the newest element outermost.
pub struct StackQue<T>(pub T);

/// The empty stack-queue.
pub struct EmptySQ;

/// Pushing onto a stack-queue (its back, as a queue).
pub trait Push<E, I> {
    fn push(self, insert: E) -> I;
}

impl<E> Push<E, StackQue<(E, EmptySQ)>> for EmptySQ {
    fn push(self, insert: E) -> (r: StackQue<(E, EmptySQ)>)
        ensures
            r.0.0 == insert,
    {
        StackQue((insert, EmptySQ))
    }
}

impl<E, I> Push<E, StackQue<(E, I)>> for StackQue<I> {
    fn push(self, insert: E) -> (r: StackQue<(E, I)>)
        ensures
            r.0.0 == insert,
            r.0.1 == self.0,
    {
        StackQue((insert, self.0))
    }
}

/// Popping from a stack-queue (the newest element).
pub trait Pop<E, R> {
    fn pop(self) -> (E, R);
}

impl<E> Pop<E, EmptySQ> for StackQue<(E, EmptySQ)> {
    fn pop(self) -> (r: (E, EmptySQ))
        ensures
            r.0 == self.0.0,
    {
        (self.0.0, EmptySQ)
    }
}

impl<E, E1, R1> Pop<E, StackQue<(E1, R1)>> for StackQue<(E, (E1, R1))> {
    fn pop(self) -> (r: (E, StackQue<(E1, R1)>))
        ensures
            r.0 == self.0.0,
            r.1.0 == self.0.1,
    {
        (self.0.0, StackQue(self.0.1))
    }
}

/// Popping from the front of a stack-queue (the oldest element).
pub trait PopFront<E, R> {
    type Popped;

    /// The oldest element.
    spec fn front(&self) -> E;

    /// What is left once the oldest element is taken.
    spec fn rest(&self) -> Self::Popped;

    fn pop_front(self) -> (r: (E, Self::Popped))
        ensures
            r.0 == self.front(),
            r.1 == self.rest(),
    ;
}

impl<E> PopFront<E, EmptySQ> for StackQue<(E, EmptySQ)> {
    type Popped = EmptySQ;

    /// The only element.
    open spec fn front(&self) -> E {
        self.0.0
    }

    open spec fn rest(&self) -> EmptySQ {
        EmptySQ
    }

    fn pop_front(self) -> (r: (E, EmptySQ))
        ensures
            r.0 == self.0.0,
    {
        (self.0.0, EmptySQ)
    }
}

impl<E> PopFront<E, EmptySQ> for (E, EmptySQ) {
    type Popped = EmptySQ;

    /// The only element.
    open spec fn front(&self) -> E {
        self.0
    }

    open spec fn rest(&self) -> EmptySQ {
        EmptySQ
    }

    fn pop_front(self) -> (r: (E, EmptySQ))
        ensures
            r.0 == self.0,
    {
        (self.0, EmptySQ)
    }
}

impl<E, E1, E2, R, R2> PopFront<E, R> for (E1, (E2, R2)) where (E2, R2): PopFront<E, R> {
    type Popped = (E1, <(E2, R2) as PopFront<E, R>>::Popped);

    /// The oldest element of the older pairs.
    open spec fn front(&self) -> E {
        self.1.front()
    }

    /// The newest element kept before what is left of the older pairs.
    open spec fn rest(&self) -> Self::Popped {
        (self.0, self.1.rest())
    }

    fn pop_front(self) -> (r: (E, Self::Popped))
        ensures
            r.1.0 == self.0,
    {
        let (e, q) = self.1.pop_front();
        (e, (self.0, q))
    }
}

impl<E, E1, E2, R, R2> PopFront<E, R> for StackQue<(E1, (E2, R2))> where
    (E1, (E2, R2)): PopFront<E, R>,
 {
    type Popped = StackQue<<(E1, (E2, R2)) as PopFront<E, R>>::Popped>;

    /// The oldest element of the pairs.
    open spec fn front(&self) -> E {
        self.0.front()
    }

    /// What is left of the pairs, as a stack-queue.
    open spec fn rest(&self) -> Self::Popped {
        StackQue(self.0.rest())
    }

    fn pop_front(self) -> (r: (E, Self::Popped)) {
        let (e, q) = self.0.pop_front();
        (e, StackQue(q))
    }
}

} // verus!
