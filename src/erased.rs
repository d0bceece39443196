//! Type identity and type-erased listeners, as std's `core::any` provides them.
use std::any::{Any, TypeId};
use vstd::prelude::*;

verus! {

/// `std::any::TypeId`, the process-wide identifier of a concrete type.
/// Values of it are opaque here: they are only compared and stored.
#[verifier::external_type_specification]
#[verifier::external_body]
pub struct ExTypeId(TypeId);

/// Relies on `TypeId`'s `PartialEq`: two identifiers compare equal exactly when
/// they are the same identifier.
pub assume_specification[ <TypeId as PartialEq>::eq ](a: &TypeId, b: &TypeId) -> (r: bool)
    ensures
        r == (*a == *b),
;

/// Relies on `TypeId::of`, which yields the identifier of `T`.
pub assume_specification<T: ?Sized + 'static>[ TypeId::of::<T> ]() -> TypeId;

/// A listener with its payload type erased: a boxed callable that receives a
/// type-erased reference and forwards it to the typed listener it was made from
/// when the reference is of that listener's payload type, and does nothing otherwise.
#[verifier::external_body]
pub(crate) struct Listener {
    call: Box<dyn FnMut(&dyn Any)>,
}

/// Relies on `<dyn Any>::downcast_ref`: wraps a typed listener into the erased
/// adapter, which succeeds in recovering `&E` exactly when the payload is an `E`.
#[verifier::external_body]
pub(crate) fn erase<E: 'static>(mut listener: impl FnMut(&E) + 'static) -> Listener {
    Listener {
        call: Box::new(move |event: &dyn Any| {
            if let Some(e) = event.downcast_ref::<E>() {
                listener(e);
            }
        }),
    }
}

/// Relies on calling the boxed `FnMut` of the adapter once with `event`, erased to
/// `&dyn Any`. What the listener does is its own affair.
#[verifier::external_body]
pub(crate) fn invoke<E: 'static>(listener: &mut Listener, event: &E) {
    (listener.call)(event)
}

} // verus!
