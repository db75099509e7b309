//! Extraction and validation of a pagination window from query parameters.

pub mod pagination;
