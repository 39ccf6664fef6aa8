//! Read-only decoder for the HDF5 container format: superblock, object
//! headers, naming and chunk B-trees, filter pipelines and dataset payloads,
//! all parsed from the file's bytes held in memory.
pub mod bytes;
pub mod error;
pub mod padding;
pub mod superblock;
pub mod symbol_table;
pub mod local_heap;
pub mod node;
pub mod group_btree;
pub mod message;
pub mod dataspace;
pub mod datatype;
pub mod data_storage;
pub mod filter_pipeline;
pub mod filters;
pub mod link;
pub mod data_object;
pub mod array;
pub mod dataset;
pub mod group;
pub mod file;
pub mod arena;

pub use dataset::{ArrayData, Dataset, ElementType};
pub use error::Error;
pub use file::FileReader;
pub use group::{Group, Object};
