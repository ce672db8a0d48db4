//! Recognising the naming convention of an identifier, and rewriting an
//! identifier in another convention.
pub mod ascii;
pub mod cover;
pub mod detector;
pub mod grammar;
pub mod laws;
pub mod naming_case;
pub mod scan;
pub mod text;
pub mod words;

pub use detector::{
    is_camel, is_kebab, is_pascal, is_screaming_snake, is_single_word, is_snake, which_case,
};
pub use naming_case::{from, from_hungarian_notation, NamingCase};
