//! A log-structured key-value store: the record codec, the in-memory index,
//! segment replay, the engine's bookkeeping and the request protocol, each
//! with a contract that Verus proves.

pub mod codec;
pub mod common;
pub mod engines;
pub mod error;
pub mod history;
pub mod index;
pub mod laws;
pub mod ledger;
pub mod replay;
pub mod segments;
pub mod server;
pub mod sled_engine;
pub mod store;
pub mod text;
pub mod thread_pool;

pub use codec::{
    decode_command, encode_command, encode_round_trip, value_of_record, Command,
};
pub use common::{
    encode_request, encode_response, next_request, result_of_response, Request, Response,
};
pub use engines::KvsEngine;
pub use error::{KvError, Result};
pub use index::{CommandPos, Index};
pub use replay::load;
pub use segments::{log_file_name, log_path, parse_segment_name, sorted_gen_list};
pub use server::{handle_request, resolve_engine, KvsServer};
pub use store::{stale_generations, CompactionPlan, KvStore, Segment, COMPACTION_THRESHOLD};
pub use thread_pool::ThreadPool;
