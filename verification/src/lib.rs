//! Strips non-standard additions from JSON-like text: C-style block comments
//! (`/* ... */`), C-style and shell-style line comments (`// ...`, `# ...`),
//! and trailing commas before a closing `]` or `}`. All other content,
//! including string-literal contents and whitespace, is kept byte for byte.

pub mod laws;
pub mod model;
pub mod scanner;

pub use model::ScanMode;
pub use model::StripError;
pub use scanner::strip;
