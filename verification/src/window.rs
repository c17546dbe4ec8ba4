//! The bounded window of recent samples: appending to a full window drops
//! its oldest element first.

use vstd::prelude::*;

verus! {

/// The window after one more element: where the window already holds
/// `window_size` elements or more, its oldest element leaves first.
pub open spec fn pushed<T>(window: Seq<T>, element: T, window_size: nat) -> Seq<T> {
    if window.len() >= window_size {
        window.drop_first().push(element)
    } else {
        window.push(element)
    }
}

/// The window after a run of elements, appended one by one.
pub open spec fn recorded<T>(window: Seq<T>, elements: Seq<T>, window_size: nat) -> Seq<T>
    decreases elements.len(),
{
    if elements.len() == 0 {
        window
    } else {
        pushed(recorded(window, elements.drop_last(), window_size), elements.last(), window_size)
    }
}

/// The last `count` elements of a sequence, or all of it where it is shorter.
pub open spec fn latest<T>(elements: Seq<T>, count: nat) -> Seq<T> {
    if elements.len() <= count {
        elements
    } else {
        elements.subrange(elements.len() - count, elements.len() as int)
    }
}

/// Appending with loss of the oldest element.
pub trait PushLossy<T> {
    /// The elements held, oldest first.
    spec fn held(&self) -> Seq<T>;

    /// Appends `element`; where `window_size` elements or more are held, the
    /// oldest is removed first. An empty window of size zero has no oldest
    /// element to give up.
    fn push_lossy(&mut self, element: T, window_size: usize)
        requires
            window_size > 0 || old(self).held().len() > 0,
        ensures
            final(self).held() == pushed(old(self).held(), element, window_size as nat),
    ;
}

impl<T> PushLossy<T> for Vec<T> {
    open spec fn held(&self) -> Seq<T> {
        self@
    }

    fn push_lossy(&mut self, element: T, window_size: usize) {
        if self.len() >= window_size {
            self.remove(0);
            assert(self@ =~= old(self)@.drop_first());
        }
        self.push(element);
    }
}

/// A window within its size stays within it when an element is appended.
pub proof fn lemma_pushed_stays_bounded<T>(window: Seq<T>, element: T, window_size: nat)
    requires
        window_size > 0,
        window.len() <= window_size,
    ensures
        0 < pushed(window, element, window_size).len() <= window_size,
{
}

/// A window within its size holds, after any run of appended elements, the
/// latest `window_size` of all it was given, in the order they came.
pub proof fn lemma_recorded_keeps_latest<T>(window: Seq<T>, elements: Seq<T>, window_size: nat)
    requires
        window_size > 0,
        window.len() <= window_size,
    ensures
        recorded(window, elements, window_size) == latest(window + elements, window_size),
    decreases elements.len(),
{
    if elements.len() == 0 {
        assert(window + elements =~= window);
    } else {
        let earlier = elements.drop_last();
        let before = recorded(window, earlier, window_size);
        lemma_recorded_keeps_latest(window, earlier, window_size);
        assert(window + elements =~= (window + earlier).push(elements.last()));
        assert(pushed(before, elements.last(), window_size) =~= latest(
            window + elements,
            window_size,
        ));
    }
}

/// After more appends than the window has room for, an empty window holds
/// exactly `window_size` elements: the last ones appended, oldest first.
pub proof fn lemma_overfull_window<T>(elements: Seq<T>, window_size: nat)
    requires
        window_size > 0,
        elements.len() > window_size,
    ensures
        recorded(Seq::<T>::empty(), elements, window_size).len() == window_size,
        recorded(Seq::<T>::empty(), elements, window_size) == elements.subrange(
            elements.len() - window_size,
            elements.len() as int,
        ),
{
    lemma_recorded_keeps_latest(Seq::<T>::empty(), elements, window_size);
    assert(Seq::<T>::empty() + elements =~= elements);
}

} // verus!
