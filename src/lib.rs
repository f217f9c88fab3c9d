pub mod bytes;
pub mod value;
pub mod compare;
pub mod text;
pub mod parse;
pub mod region;
pub mod scan;
