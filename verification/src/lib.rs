//! LabLink: the logic of a small laboratory bridge that reads traction
//! tests from steel testing machines and merges them into test minutes.

pub mod text;
pub mod measure;
pub mod errors;
pub mod utils;
pub mod routes;
pub mod upstream;
