//! Decoder and shuttle-landing fixer for Astroneer `.savegame` files.
//!
//! A save is a 16-byte outer header followed by a zlib stream holding the
//! level data: a string table, object records with their property blobs,
//! and actor records with their transforms. [`parse`] decodes it,
//! [`decode_props`] reads an object's property blob, and the landing
//! functions patch a stranded shuttle onto a pad and [`repack`] the result.

pub mod bytes;
pub mod landing;
pub mod props;
pub mod save;
pub mod survey;
pub mod text;
pub mod zlib;

pub use landing::{apply_landing, plan_landing, prepare_landing, LandingPlan};
pub use props::{decode_props, find_voff, try_decode_props, Prop};
pub use save::{obj_by_name, parse, parse_decompressed, ActorRec, ObjRec, Save};
pub use survey::{planet_objects, ship_seats, shuttle_is_lost, slot_items, survey, Overview, PadInfo, ShipInfo};
pub use text::{clean, is_pad, is_shuttle, jstr, planet_label, prettify, ship_label};
pub use zlib::{adler32, repack};
