//! A verified local audio catalog: metadata normalization, artist/album
//! resolution, content-addressed cover storage, and incremental scan
//! reconciliation over an in-memory relational model.

pub mod catalog;
pub mod config;
pub mod covers;
pub mod entities;
pub mod lastfm;
pub mod laws;
pub mod meta;
pub mod player;
pub mod presence;
pub mod queries;
pub mod remote;
pub mod scan;
pub mod strutil;
