//! A structural diff engine for files, directories, and a structured binary
//! image format.
//!
//! The library is the pure comparison engine: it partitions directory
//! listings, counts matching bytes or typed elements in buffers, checks image
//! headers for shape and type compatibility, and folds child results into
//! aggregate reports. All input acquisition (filesystem walks, file reads,
//! header parsing, decompression) is left to the caller, which hands the
//! engine plain values.

pub mod buffer;
pub mod diff;
pub mod directory;
pub mod dispatch;
pub mod image;
pub mod render;
pub mod stream;

pub use diff::Diff;
pub use diff::Similarity;
pub use dispatch::TargetKind;
pub use dispatch::classify_target;
pub use directory::aggregate_directory;
pub use directory::partition_entries;
pub use image::ElementType;
pub use image::ImageCheck;
pub use image::check_image_headers;
pub use image::finish_image;
pub use image::total_elements;
pub use stream::ByteScan;
pub use stream::SizeCheck;
pub use stream::TypedScan;
pub use stream::check_file_sizes;
pub use buffer::diff_buffer;
pub use buffer::diff_transmute_buffers_i16;
pub use buffer::diff_transmute_buffers_i32;
pub use buffer::diff_transmute_buffers_i64;
pub use buffer::diff_transmute_buffers_u16;
pub use buffer::diff_transmute_buffers_u32;
pub use buffer::diff_transmute_buffers_u64;
