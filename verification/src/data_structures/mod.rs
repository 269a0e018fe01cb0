//! Containers used by the collider trees.

pub mod bit_vec;
pub mod key_set;
pub mod pair_key;
pub mod stable_vec;
