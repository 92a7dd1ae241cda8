//! A compact binary codec for structured data whose schema may evolve.
//!
//! Every value is written as little-endian bytes of a fixed layout: integers
//! in their width, strings and collections behind a 32-bit count, optional
//! values behind a presence byte. A record is a sparse list of
//! `(field id, value)` pairs behind a 16-bit count, in which a field that
//! holds the default of its type is left out; a tagged union is one variant
//! id followed by at most one payload. Readers and writers that declare
//! different versions of a type understand each other as far as the ids
//! allow: a reader fills the fields that did not arrive with their defaults
//! and refuses a record in which a required field is missing.
//!
//! The modules, from the bytes up:
//!
//! - [`endian`], [`format`]: the wire layout as mathematics.
//! - [`stream`], [`error`]: the input cursor and the failures.
//! - [`write`], [`read`]: the traits by which a type states its wire form,
//!   with the simple and composite types of the standard library;
//!   [`roundtrip`] proves that reading inverts writing for each of them.
//! - [`collections`], [`ordered`], [`shared`], [`address`], [`timestamp`]:
//!   maps, sets, copy-on-write values, internet addresses and points in
//!   time.
//! - [`value`], [`schema`], [`derive`]: values with their kinds, and the
//!   schemas that the declaration of a type yields.
//! - [`record`]: the codec of records and tagged unions that a schema drives.
//! - [`laws`]: what holds of that codec as a whole.

pub use read::LBSRead;
pub use write::LBSWrite;

pub mod address;
pub mod collections;
pub mod derive;
pub mod endian;
pub mod error;
pub mod format;
pub mod laws;
pub mod ordered;
pub mod read;
pub mod record;
pub mod roundtrip;
pub mod schema;
pub mod shared;
pub mod stream;
pub mod timestamp;
pub mod value;
pub mod write;
