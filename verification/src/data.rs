pub mod bytes;
pub mod compare;
pub mod key_order;
pub mod number;
pub mod text;
pub mod tuple;
pub mod value;
