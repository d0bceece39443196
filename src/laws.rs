//! Laws of the dispatcher, stated over its model and proved from the contracts of
//! `subscribe` and `dispatch` (through `subscribe_step` and `dispatch_step`).
use crate::manager::{
    ascending, dispatch_step, listeners_of, numbered_once, subscribe_step, EventManager,
};
use std::any::TypeId;
use vstd::prelude::*;

verus! {

/// A listener registered under one type identifier is not among the listeners that
/// a dispatch of any other type identifier invokes.
pub proof fn law_type_isolation(m: EventManager, a: TypeId, b: TypeId, id: nat)
    requires
        m.wf(),
        a != b,
        listeners_of(m.registry(), a).contains(id),
    ensures
        !listeners_of(m.registry(), b).contains(id),
        forall|after: EventManager|
            #[trigger] dispatch_step(m, after, b) ==> !after.delivered().subrange(
                m.delivered().len() as int,
                after.delivered().len() as int,
            ).contains(id),
{
    m.lemma_wf_model();
    let r = m.registry();
    let i = choose|i: int| 0 <= i < listeners_of(r, a).len() && listeners_of(r, a)[i] == id;
    if listeners_of(r, b).contains(id) {
        let j = choose|j: int| 0 <= j < listeners_of(r, b).len() && listeners_of(r, b)[j] == id;
        assert(r[a][i] == r[b][j]);
    }
    assert forall|after: EventManager| #[trigger] dispatch_step(m, after, b) implies !after.delivered().subrange(
        m.delivered().len() as int,
        after.delivered().len() as int,
    ).contains(id) by {
        assert(after.delivered().subrange(m.delivered().len() as int, after.delivered().len() as int)
            =~= listeners_of(r, b));
    }
}

/// The listeners of a type identifier are kept in subscription order, so a dispatch
/// invokes them in the order in which they were subscribed.
pub proof fn law_order_preserved(m: EventManager, k: TypeId, i: int, j: int)
    requires
        m.wf(),
        0 <= i < j < listeners_of(m.registry(), k).len(),
    ensures
        listeners_of(m.registry(), k)[i] < listeners_of(m.registry(), k)[j],
{
    m.lemma_wf_model();
}

/// Dispatching the same type identifier twice invokes the same listeners, in the same
/// order, once per dispatch.
pub proof fn law_repeatable(m0: EventManager, m1: EventManager, m2: EventManager, k: TypeId)
    requires
        dispatch_step(m0, m1, k),
        dispatch_step(m1, m2, k),
    ensures
        m2.registry() == m0.registry(),
        m2.delivered() == m0.delivered() + listeners_of(m0.registry(), k) + listeners_of(
            m0.registry(),
            k,
        ),
{
}

/// Dispatching a type identifier that has no listeners changes nothing.
pub proof fn law_no_listeners_no_effect(m0: EventManager, m1: EventManager, k: TypeId)
    requires
        !m0.registry().contains_key(k),
        dispatch_step(m0, m1, k),
    ensures
        m1.registry() == m0.registry(),
        m1.subscriptions() == m0.subscriptions(),
        m1.delivered() == m0.delivered(),
{
    assert(m0.delivered() + listeners_of(m0.registry(), k) =~= m0.delivered());
}

/// Subscribing under one type identifier leaves the listeners of every other type
/// identifier, and so what a dispatch of it invokes, as they were.
pub proof fn law_independent_registries(m0: EventManager, m1: EventManager, a: TypeId, b: TypeId)
    requires
        a != b,
        subscribe_step(m0, m1, b),
    ensures
        listeners_of(m1.registry(), a) == listeners_of(m0.registry(), a),
{
}

} // verus!
