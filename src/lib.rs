//! Declarative encoding and decoding of binary formats.
//!
//! A [`schema::Schema`] lists a record's entries in wire order: fields, each
//! with a type and options, and directives (magic sequences, padding). The
//! schema compiler resolves each field's byte order and arguments and yields a
//! [`record::Plan`], whose `decode` and `encode` run the entries in order over
//! a [`stream::Reader`] or a [`stream::Writer`].
//!
//! Below that stand the codecs of numbers ([`plain`], [`data`]), sequences and
//! text ([`codec`]), the argument builders ([`args`]) and projected views
//! ([`view`]). [`laws`] states what holds across them.

mod endian;
pub mod args;
pub mod codec;
pub mod data;
pub mod laws;
pub mod plain;
pub mod record;
pub mod schema;
pub mod stream;
pub mod value;
pub mod view;

pub use endian::{Endian, EndianContext, NoEndian};
