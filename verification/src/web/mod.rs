//! The shapes that cross the HTTP boundary.

pub mod dto;
