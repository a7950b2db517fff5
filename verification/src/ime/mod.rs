pub mod dict;
pub mod keys;
