//! Verified building blocks of WPL, a language for cutting log lines into
//! typed fields: parsers over a `&str` cursor, separators, field pipes, JSON
//! flattening, rule annotations and the values of network fields.
use vstd::prelude::*;

pub mod chars;
pub mod text;
pub mod utils;
pub mod encoding;
pub mod string;
pub mod sep;
pub mod error;
pub mod setting;
pub mod checker;
pub mod desc;
pub mod pkg;
pub mod group;
pub mod field_error;
pub mod wild_map;
pub mod tag;
pub mod codec;
pub mod pipe;
pub mod data_type;
pub mod builtins;
pub mod network;
pub mod json;
pub mod protocol;
pub mod combined;
pub mod gen_rule;
pub mod fun_args;
pub mod sql;
pub mod rule;
