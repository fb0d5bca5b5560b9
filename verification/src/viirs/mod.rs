//! NASA FIRMS VIIRS active-fire ingest: request checks, source names, the
//! Area API URL, CSV rows, detection filters and summaries.
pub mod source;
pub mod request;
pub mod url;
pub mod summary;
pub mod firms_csv;
