//! The test types that read their results from the steel machines.

pub mod test_acc;
pub mod test_carp_lp;
pub mod utils;
