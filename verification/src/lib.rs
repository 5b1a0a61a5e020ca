//! Collections for a key-value store in which every read and every write
//! costs: a stash, which gives values numbered slots and fills the slots of
//! values that were taken out before it makes new ones, and growable arrays,
//! one of them with a fixed capacity. The collections work on what they hold
//! in memory; their cells are numbered from a base key, and a cursor hands
//! out the keys.
//!
//! - `key`: keys of cells, and the cursor over them.
//! - `lazy`, `pack`, `chunk`, `array`: one cell, several values in one cell,
//!   and cells numbered by an index, without and with a bound.
//! - `entry`, `stash`, `stash_iter`: the stash, its slots and its iterators.
//! - `ring`, `counts`, `model`, `theorems`: what a well-formed stash is, what
//!   its operations do to it, and what holds of it.
//! - `ring_check`: whether slots and a header that come from outside are
//!   those of a well-formed stash.
//! - `codec`, `little_endian`: the bytes of a header and of a slot.
//! - `smallvec`, `smallvec_iter`: the array with a fixed capacity.
//! - `vec`, `vec_eq`, `vec_index`, `iter`: the array without one.

pub mod array;
pub mod chunk;
pub mod codec;
pub mod counts;
pub mod entry;
pub mod iter;
pub mod key;
pub mod lazy;
pub mod little_endian;
pub mod model;
pub mod pack;
pub mod ring;
pub mod ring_check;
pub mod smallvec;
pub mod smallvec_iter;
pub mod stash;
pub mod stash_iter;
pub mod theorems;
pub mod vec;
pub mod vec_eq;
pub mod vec_index;
