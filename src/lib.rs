pub mod block;
pub mod chain_parser;
pub mod ctx;
pub mod definitions;
pub mod diagnostic;
pub mod document;
pub mod key_profile_parser;
pub mod listeners;
pub mod names;
pub mod paths;
pub mod rules;
pub mod service;
pub mod string_map;
pub mod text;
pub mod typed_value;
pub mod utils;
