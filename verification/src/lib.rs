//! Holds a block of memory of a requested size, and tells how much is held.
//!
//! A request names an amount in GiB. `gib` turns it into bytes or refuses it,
//! `mem` sets how much is held, `source` gives the room for a new buffer and
//! `pages` writes its pages, and `api` puts the replies together, with the time from `clock`. `lock` takes the
//! lock on the state that requests share.

pub mod api;
pub mod clock;
pub mod gib;
pub mod lock;
pub mod mem;
pub mod pages;
pub mod source;
