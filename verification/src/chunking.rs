//! Messages in pieces.

pub mod fragment;
