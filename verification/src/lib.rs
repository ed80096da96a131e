//! A filesystem-access facade: path resolution with home-directory shorthand,
//! typed content codecs (UTF-8 text and a structured, JSON-compatible value
//! form with insertion-order-preserving keys), and a normalized error
//! vocabulary for classifying operation failures.
//!
//! The facade itself is stateless: every function here is a pure computation
//! over the values it is given. The operating-system calls (reading, writing,
//! listing) live with the caller, which hands raw outcomes to these functions
//! for decoding and classification.

pub mod errors;
pub mod ops;
pub mod json;
pub mod json_grammar;
pub mod json_laws;
pub mod json_parse;
pub mod json_write;
pub mod queries;
pub mod resolve;
pub mod text;

pub use errors::ErrorKind;
pub use errors::OpError;
pub use queries::dir_exists;
pub use queries::entry_exists;
pub use queries::file_exists;
pub use json::JsonMember;
pub use json::JsonValue;
pub use json_parse::parse_text;
pub use json_write::to_text;
pub use ops::structured_read_outcome;
pub use ops::text_read_outcome;
pub use resolve::resolve;
pub use text::decode_text;
pub use text::encode_text;
