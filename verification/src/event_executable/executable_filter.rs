use vstd::prelude::*;

verus! {

/// Filters registry access to the event executable's user; the user details
/// it presents are given where the registry's trait is implemented.
pub struct ExecutableFilter;

} // verus!
