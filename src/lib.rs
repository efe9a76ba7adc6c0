//! Verified core of a Solidity-to-TVM build driver: a line index that turns the
//! compiler's byte offsets into lines and columns, the rendering of its
//! diagnostics, the request sent to it, the reading of its response with the
//! choice of the unit to build, and the naming of the artifacts.

pub mod args;
pub mod error;
pub mod interpret;
pub mod json;
pub mod plan;
pub mod position;
pub mod render;
pub mod request;
