//! What the service can do on the machine it runs on.

pub mod folders;
pub mod page_scaling;
