//! The operations of the built-in types that work on plain values: argument checks,
//! strings and lists, and how lists and hashes are shown.
pub mod base;
pub mod function_object;
pub mod hash_object;
pub mod instance_object;
pub mod list_object;
pub mod methods;
pub mod string_object;
pub mod utils;
