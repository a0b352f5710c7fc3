//! A URL parser: a state machine over the input that fills a URL record, with
//! its host parsers and serializers, and the `URLSearchParams` list of name/value pairs.

pub mod text;
pub mod string;
pub mod platform;
pub mod encode_sets;
pub mod number;
pub mod parser;
pub mod serializers;
pub mod url;
pub mod state;
pub mod machine_spec;
pub mod machine;
pub mod url_search_params;
pub mod url_object;
pub mod ipv6_text;
pub mod laws;
pub mod parser_laws;
