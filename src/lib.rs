//! Bulk transformation of line-delimited `identifier:secret` corpora:
//! line transforms, deduplication, corpus comparison and partitioning.
pub mod args;
pub mod batch;
pub mod combo;
pub mod compare;
pub mod dedup;
pub mod dedup_stream;
pub mod error;
pub mod fingerprint;
pub mod partition;
pub mod paths;
pub mod processors;
pub mod source;
pub mod task;

pub use args::Args;
pub use batch::{encode_lines, frame, join, Batch};
pub use combo::{extract, extract_phone, normalize_phone_combo, remove_domain};
pub use compare::Comparer;
pub use dedup::{DuplicatesRemoverC, DuplicatesRemoverM, DuplicatesRemoverMem};
pub use dedup_stream::{DuplicatesExtractor, DuplicatesRemoverSlow, FingerprintCounter, Seen};
pub use error::CoreError;
pub use partition::{plan_by_lines, plan_by_parts, split_lines, PartWrite, PartWriter};
pub use paths::build_results_path;
pub use processors::{
    process_into, transform_lines, ByLinesSplitter, ByPartsSplitter, DomainRemover,
    LinesProcessor, Merger, PartExtractor, PhonesExtractor,
};
pub use source::{read_lines, Shuffler};
pub use task::Task;
