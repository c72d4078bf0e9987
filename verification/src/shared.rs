//! Values with several owners.
use std::rc::Rc;
use vstd::prelude::*;

verus! {

/// Another pointer to what `shared` points to, from `<Rc<T> as Clone>::clone`, which is taken to
/// leave the value alone.
#[verifier::external_body]
pub(crate) fn share<T>(shared: &Rc<T>) -> (other: Rc<T>)
    ensures
        other == *shared,
{
    Rc::clone(shared)
}

} // verus!
