//! A terminal music-library manager.

pub mod actions;
pub mod album_laws;
pub mod albums;
pub mod browser;
pub mod conversion;
pub mod conversion_laws;
pub mod display_laws;
pub mod editing;
pub mod editing_laws;
pub mod editor;
pub mod file_laws;
pub mod format;
pub mod grouping;
pub mod keys;
pub mod laws;
pub mod library;
pub mod library_laws;
pub mod lookup_laws;
pub mod musicbrainz;
pub mod order;
pub mod path;
pub mod path_laws;
pub mod popups;
pub mod preview;
pub mod queue;
pub mod queue_laws;
pub mod rescan;
pub mod row_laws;
pub mod screen;
pub mod screen_laws;
pub mod selection_laws;
pub mod sorting;
pub mod status_laws;
pub mod text;
pub mod text_laws;
pub mod time;
pub mod totals;
