//! Loading and typed extraction of `multipart/form-data` request bodies.
//!
//! A form body arrives as a sequence of parts, each with headers and a byte
//! stream. The [`decode::Decoder`] classifies every part as text or file,
//! enforces byte and part-count budgets as data arrives, and produces an
//! ordered list of [`field::MultipartField`] values. The extraction traits in
//! [`extract`] then retrieve named fields from that list with exactly-one,
//! zero-or-one, or many cardinality.

pub mod config;
pub mod errors;
pub mod extract;
pub mod field;
pub mod decode;
pub mod numparse;
pub mod text;

pub use config::MultipartLoadConfig;
pub use decode::Classification;
pub use decode::Decoder;
pub use decode::Part;
pub use decode::PartHeaders;
pub use decode::PartKind;
pub use decode::classify_part;
pub use decode::decode;
pub use errors::DecodeError;
pub use errors::GetError;
pub use extract::FromMultipart;
pub use extract::FromText;
pub use extract::MultipartType;
pub use extract::MultipartTypeSpecial;
pub use field::MultipartField;
pub use field::MultipartFile;
pub use field::MultipartText;
pub use field::Multiparts;
