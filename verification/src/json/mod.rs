//! JSON values, and the text they are written as.

pub mod model;
pub mod number;
pub mod value;
pub mod syntax;
pub mod writer;
pub mod reader;
pub mod round_trip;
pub mod equality;
pub mod parsed;
