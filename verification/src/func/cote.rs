//! Parameters of the correlated oblivious transfer extension with errors.

use vstd::prelude::*;

verus! {

/// The two dimensions of an extension: the security parameter `kappa` and the
/// number `l` of transfers.
#[derive(Debug)]
pub struct Cote {
    kappa: usize,
    l: usize,
}

} // verus!
