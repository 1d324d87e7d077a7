//! Turns the raw record of a game character into a compact canonical
//! record, and decides whether that record has to be stored anew.
//!
//! `json` holds the loosely typed values of a raw record, `character` the
//! parts of it with a fixed shape, `parsed_character` the canonical
//! record. `parsing_funcs` leads from the one to the other, with
//! `templating` for the descriptions and `costs` for the resource costs.
//! `read_and_write_funcs` compares a new record with the stored one.

pub mod character;
pub mod character_list;
pub mod costs;
pub mod json;
pub mod parsed_character;
pub mod parsing_funcs;
pub mod read_and_write_funcs;
pub mod rewrite;
pub mod str_map;
pub mod templating;
pub mod text;
