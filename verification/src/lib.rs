use vstd::prelude::*;

pub mod bytes;
pub mod error;
mod text;
pub mod index_types;
pub mod key_parser;
pub mod key_codec;
pub mod key_builder;
pub mod compression;
pub mod mvcc;
pub mod model;
pub mod index_updater;
pub mod changes;
pub mod degree;
pub mod entry_map;
pub mod byte_map;
pub mod edge_index;
pub mod unversioned_vertex_index;
pub mod index_file;
pub mod vertex_index;
pub mod vertex_index_laws;
pub mod vertex_lookup_laws;
pub mod plain_lookup_laws;
mod clock;
pub mod persistence;
pub mod mmap;
pub mod events;
