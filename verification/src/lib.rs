pub mod text;
pub mod conf;
pub mod dict;
pub mod engine;
pub mod extend;
pub mod global;
pub mod ime;
pub mod install;
pub mod layout;
pub mod tsf;
pub mod ui;
pub mod wide;
pub mod words;
