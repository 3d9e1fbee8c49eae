//! A token vault whose quoted price and floor only rise.

pub mod accuracy;
pub mod address;
pub mod bytes;
pub mod client;
pub mod client_laws;
pub mod codec_laws;
pub mod error;
pub mod growth;
pub mod handler_laws;
pub mod instruction;
pub mod key;
pub mod laws;
pub mod ledger;
pub mod market;
pub mod powers;
pub mod program;
pub mod program_ids;
pub mod program_laws;
pub mod q48;
pub mod q48_laws;
pub mod quote_laws;
pub mod round_trip;
pub mod schedule;
pub mod schedule_laws;
pub mod splitting;
pub mod state;
pub mod token;
