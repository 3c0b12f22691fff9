pub mod annotation;
pub mod json;
pub mod laws;
pub mod parser;
pub mod refs;
pub mod value;
