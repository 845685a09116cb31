//! A log-structured key/value store: records are appended to data files, a key index
//! in memory says where the newest record of each key lies, and a merge rewrites the
//! records still in use into one file.
use vstd::prelude::*;

pub mod bitcask;
pub mod catalog;
pub mod codec;
pub mod config;
pub mod errors;
pub mod keydir;
pub mod laws;
pub mod values;

pub use bitcask::{Bitcask, Moved};
pub use catalog::{data_file_ids, parse_file_id};
pub use codec::{decode_record, encode_record, Decoded, RecordData, HEADER_SIZE};
pub use config::{Builder, Config, StoreModel};
pub use errors::Error;
pub use keydir::RecordPos;
pub use values::{bool_from_value, bool_to_value};

verus! {

/// The outcome of an engine operation.
pub type Result<T> = core::result::Result<T, Error>;

} // verus!
