//! The ambient context of a rebuild, as illicit's implicit environment offers
//! it.
use crate::access::Getter;
use vstd::prelude::*;

verus! {

/// Looks up the rebuild context that the caller offers, with `illicit::get`,
/// and copies it. Nothing is claimed of the outcome: it is whatever the
/// innermost enclosing `illicit::Layer` holds for the type `Getter`, and none
/// where no layer holds one.
#[verifier::external_body]
pub(crate) fn ambient_getter() -> (context: Option<Getter>) {
    match illicit::get::<Getter>() {
        Ok(getter) => Some(Getter { computed_key: getter.computed_key.clone() }),
        Err(_) => None,
    }
}

} // verus!
