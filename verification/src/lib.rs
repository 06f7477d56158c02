//! Verified core of a bridge between Elixir and ONNX Runtime.

pub mod error;
pub mod io_type;
pub mod lists;
pub mod model;
pub mod numeral;
pub mod options;
pub mod providers;
pub mod qnn;
pub mod session;
pub mod tensor;
pub mod text;
pub mod trace;
pub mod utils;
