//! Verified core of a CSV-to-Elasticsearch bulk importer: text formatting,
//! index chunking, delimiter detection, CSV records, bulk request framing,
//! response accounting, retry policy and the import bookkeeping.

pub mod text;
pub mod chunk;
pub mod types;
pub mod json;
pub mod csv_reader;
pub mod es_client;
pub mod import;
pub mod status;
