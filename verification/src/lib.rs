//! Read-only shell fast paths, post-edit checks and prompt lookups, with
//! verified contracts. See the individual modules.
pub mod backends;
pub mod bytes;
pub mod case;
pub mod cli;
pub mod error;
pub mod integrations;
pub mod json;
pub mod json_laws;
pub mod number;
pub mod path_laws;
pub mod paths;
pub mod patterns;
pub mod prompt_enrichment;
pub mod prompt_laws;
pub mod record_laws;
pub mod shell_parse;
pub mod sorting;
pub mod split;
pub mod structured;
pub mod syntax;
pub mod text;
pub mod text_laws;
pub mod unknown_log;
