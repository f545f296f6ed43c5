//! Pure domain logic: quality presets and content types, output naming, and
//! URL validation.

pub mod media;
pub mod naming;
pub mod validation;
