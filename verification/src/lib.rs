use vstd::prelude::*;

pub mod catalog;
pub mod error;
pub mod order;
pub mod profile;
pub mod state;
pub mod text;
pub mod trust;
