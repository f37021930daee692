//! Decomposition of a byte stream of concatenated gzip members into
//! independently decodable chunks, with per-member header metadata.

pub mod header;
pub mod scan;
pub mod settings;
pub mod stream;
pub mod summary;
pub mod tail;
pub mod text;

pub use header::{GzipHeaderInfo, parse_gzip_header};
pub use scan::{ChunkError, ChunkInfo, read_chunk};
pub use settings::{ChunkFilterSettings, PreviewSettings};
pub use summary::FileSummary;
pub use tail::TailBuffer;
