//! A zero-copy archiving core: values are encoded into a byte layout that can
//! be read back in place, because every structural reference is a statically
//! known byte offset rather than a memory address.
//!
//! The crate has two halves:
//!
//! * the *encode protocol* ([`encode`], [`layout`], [`sink`], [`tag`]): a
//!   two-phase, collect-then-place scheme in which `serialize` walks a value
//!   depth-first collecting a resolver, and `resolve` places the archived
//!   bytes at a final position by pure offset arithmetic;
//! * the *structural mirror generator* ([`mirror`], [`copy_mirror`]): given
//!   the shape of a record or tagged-variant type, it synthesizes the matching
//!   resolver and archived declarations, sizes the discriminant, and rejects
//!   shapes that have no well-defined mirror.
//!
//! [`range`] holds a hand-written archived form for half-open and inclusive
//! ranges, as a worked example of a non-generated implementation.

pub mod copy_mirror;
pub mod encode;
pub mod layout;
pub mod mirror;
pub mod range;
pub mod sink;
pub mod tag;
