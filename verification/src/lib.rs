//! Extracts the elements of one fixed array field out of a raw JSON response
//! body, byte for byte, together with the numeric identifier each element
//! carries in its own top-level scope, and collects them into an ascending,
//! unique-by-identifier container.

pub mod buf;
pub mod find;
pub mod scan;
pub mod score;

pub use scan::Deserializer;
pub use scan::ScanError;
pub use score::Score;
pub use score::ScoreView;
pub use score::Scores;
