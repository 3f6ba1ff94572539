use vstd::prelude::*;

verus! {

/// Marks the event executable as a user of the program registry; the user
/// details it presents are given where the registry's trait is implemented.
pub struct ExecutableFilter;

} // verus!
