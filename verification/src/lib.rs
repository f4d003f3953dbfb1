//! Local music library and media-source logic of a desktop media applet.
use vstd::prelude::*;

pub mod albums;
pub mod error;
pub mod manager;
pub mod message;
pub mod mpris;
pub mod music_db;
pub mod order;
pub mod panel;
pub mod paths;
pub mod player;
pub mod scan;
pub mod store_laws;
pub mod pattern;
pub mod text;

verus! {

} // verus!
