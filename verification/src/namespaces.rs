//! Records of the response schema, by namespace. They hold data only.

pub mod tt;
