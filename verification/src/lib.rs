//! Anchored-metadata core: local sequence alignment (Smith-Waterman with
//! multi-optimal traceback enumeration) and relocation of an anchored text
//! span after its file has been edited.

pub mod alignment;
pub mod anchor;
pub mod diff;
pub mod updating;
