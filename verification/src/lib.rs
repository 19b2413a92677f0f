//! Password generation under configurable constraints: building the candidate
//! alphabet, validating the request, and producing passwords that either meet
//! per-category minimum counts or follow a positional pattern.

pub mod category;
pub mod charset;
pub mod error;
pub mod generate;
pub mod layout;
pub mod pattern;
pub mod pool;
pub mod random;
pub mod text;
pub mod tokens;
pub mod validate;

pub use category::PatternChar;
pub use charset::{build_char_set, PasswordArgs};
pub use error::PasswordError;
pub use generate::{
    generate_password_from_pattern, generate_password_with_minimums, generate_passwords,
};
pub use layout::{column_count, format_columns};
pub use pattern::parse_pattern;
pub use tokens::parse_exclude_chars;
pub use validate::validate_args;
