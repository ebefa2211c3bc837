use vstd::prelude::*;

verus! {

/// A type that may be held as a shared resource: safe to share between
/// threads and owned for the whole program.
pub trait Resource: Send + Sync + 'static {

}

} // verus!
