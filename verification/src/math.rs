//! Small numeric helpers.

pub mod arithmetic;
