use std::any::{Any, TypeId};
use vstd::prelude::*;

verus! {

#[verifier::external_type_specification]
#[verifier::external_body]
pub struct ExTypeId(TypeId);

/// A listener with its event type erased. It holds a boxed `dyn FnMut`,
/// which Verus cannot take as a field type, so the struct is opaque.
#[verifier::external_body]
pub struct Erased<'a> {
    f: Box<dyn FnMut(&dyn Any) + 'a>,
}

/// Relies on `std::any::TypeId::of`: the identity of the type `E`.
#[verifier::external_body]
pub(crate) fn type_id_of<E: 'static>() -> TypeId {
    TypeId::of::<E>()
}

/// Relies on `TypeId`'s `==`: two identities are equal exactly when they are
/// the same value.
#[verifier::external_body]
pub(crate) fn same_type(a: &TypeId, b: &TypeId) -> (r: bool)
    ensures
        r == (*a == *b),
{
    *a == *b
}

/// Relies on `Any::downcast_ref`: the boxed callable recovers `&E` from the
/// erased event and calls `listener` with it, and does nothing where the
/// event is of another type.
#[verifier::external_body]
pub(crate) fn erase<'a, E: 'static, F: FnMut(&E) + 'a>(mut listener: F) -> Erased<'a> {
    Erased {
        f: Box::new(move |event: &dyn Any| {
            if let Some(event) = event.downcast_ref::<E>() {
                listener(event);
            }
        }),
    }
}

/// A registered listener: its erased callable, the identity of the event type
/// it was written for, and how many times it has been invoked.
pub struct Listener<'a> {
    f: Erased<'a>,
    ty: TypeId,
    runs: Ghost<nat>,
}

impl<'a> Listener<'a> {
    /// The identity of the event type this listener was written for.
    pub closed spec fn ty(&self) -> TypeId {
        self.ty
    }

    /// How many times this listener has been invoked.
    pub closed spec fn runs(&self) -> nat {
        self.runs@
    }

    /// Wraps `listener`, an `FnMut(&E)`, with its event type's identity and
    /// no invocation yet.
    pub(crate) fn of<E: 'static, F: FnMut(&E) + 'a>(listener: F) -> (l: Self)
        ensures
            l.runs() == 0,
    {
        Listener { f: erase::<E, F>(listener), ty: type_id_of::<E>(), runs: Ghost(0) }
    }

    pub(crate) fn event_type(&self) -> (r: &TypeId)
        ensures
            *r == self.ty(),
    {
        &self.ty
    }
}

/// Relies on calling the boxed `dyn FnMut` once, with `event` as `&dyn Any`:
/// the listener is invoked one more time, and its event type stays.
#[verifier::external_body]
pub(crate) fn call_listener<'a, E: 'static>(listener: &mut Listener<'a>, event: &E)
    ensures
        final(listener).ty() == old(listener).ty(),
        final(listener).runs() == old(listener).runs() + 1,
{
    (listener.f.f)(event)
}

} // verus!
