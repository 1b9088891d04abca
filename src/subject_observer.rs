//! The event bus: a subject notifies the observers registered with it.
use vstd::prelude::*;
use std::rc::Rc;

verus! {

/// A listener of events of type `E` about a source of type `S`.
pub trait Observer<S, E> {
    fn update(&self, source: &S, event: E);
}

/// Holds shared observer handles and notifies them, in registration order.
pub trait Subject<O: ?Sized, E> {
    /// The registered handles, in registration order.
    spec fn handles(&self) -> Seq<Rc<O>>;

    /// Every event notified so far, in order.
    spec fn notified(&self) -> Seq<E>;

    /// Apart from its observers and its notified events, the subject is as
    /// `other`.
    spec fn keeps_state_of(&self, other: &Self) -> bool;

    fn register_observer(&mut self, observer: Rc<O>)
        ensures
            final(self).handles() == old(self).handles().push(observer),
            final(self).notified() == old(self).notified(),
            final(self).keeps_state_of(old(self)),
    ;

    /// Drops every registration of the very handle `observer`; the others
    /// keep their order, and every handle that differs from `observer` stays.
    fn unregister_observer(&mut self, observer: Rc<O>)
        ensures
            is_subsequence(final(self).handles(), old(self).handles()),
            forall|k: int|
                0 <= k < old(self).handles().len() && old(self).handles()[k] != observer
                    ==> final(self).handles().contains(#[trigger] old(self).handles()[k]),
            final(self).notified() == old(self).notified(),
            final(self).keeps_state_of(old(self)),
    ;

    fn notify_observers(&mut self, event: E)
        ensures
            final(self).handles() == old(self).handles(),
            final(self).notified() == old(self).notified().push(event),
            final(self).keeps_state_of(old(self)),
    ;
}

/// `a` is `b` with some entries left out, the others in their order.
pub open spec fn is_subsequence<T>(a: Seq<T>, b: Seq<T>) -> bool {
    exists|idx: Seq<int>|
        idx.len() == a.len() && (forall|k: int| 0 <= k < idx.len() ==> 0 <= #[trigger] idx[k] < b.len() && a[k] == b[idx[k]])
            && (forall|k: int, l: int| 0 <= k < l < idx.len() ==> idx[k] < idx[l])
}

/// Relies on `Rc::ptr_eq`: whether two handles share one allocation, in
/// which case they hold the same value.
#[verifier::external_body]
pub(crate) fn same_handle<O: ?Sized>(a: &Rc<O>, b: &Rc<O>) -> (r: bool)
    ensures
        r ==> *a == *b,
{
    Rc::ptr_eq(a, b)
}

} // verus!
