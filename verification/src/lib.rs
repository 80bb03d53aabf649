//! A verified decklist-to-document pipeline: parse a plain-text deck
//! list, resolve each card to artwork locations, normalize fetched
//! images to opaque pixel buffers, lay them out on A4 pages and
//! assemble the paged document.  The surrounding program performs the
//! network and file work and drives these decisions.

pub mod layout;
pub mod parse;
pub mod pixels;
pub mod plan;
pub mod query;
pub mod resolve;
