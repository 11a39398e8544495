//! The library's records: playlists, tags, scan statistics, library events,
//! the error type, and the row types shown for an expanded track.

use vstd::prelude::*;

verus! {

#[derive(Debug, Clone)]
pub struct Playlist {
    pub id: i64,
    pub name: String,
}

#[derive(Debug, Clone)]
pub struct Tag {
    pub id: i64,
    pub name: String,
    pub color: String,
}

/// A tag as the sidebar lists it.
#[derive(Debug, Clone)]
pub struct TagDto {
    pub id: i64,
    pub name: String,
    pub color: String,
}

impl From<&Tag> for TagDto {
    fn from(t: &Tag) -> (r: Self) {
        TagDto { id: t.id, name: t.name.clone(), color: t.color.clone() }
    }
}

impl vstd::std_specs::convert::FromSpecImpl<&Tag> for TagDto {
    open spec fn obeys_from_spec() -> bool {
        true
    }

    open spec fn from_spec(t: &Tag) -> TagDto {
        TagDto { id: t.id, name: t.name, color: t.color }
    }
}

/// A tag chip in an expanded track row.
#[derive(Debug, Clone)]
pub struct ExpandedTagItemDto {
    pub id: i64,
    pub name: String,
    pub color: String,
}

/// A playlist chip in an expanded track row.
#[derive(Debug, Clone)]
pub struct ExpandedPlaylistItemDto {
    pub id: i64,
    pub name: String,
}

/// Everything an expanded track row shows.
#[derive(Debug, Clone)]
pub struct ExpandedTrackDto {
    pub tags: Vec<ExpandedTagItemDto>,
    pub playlists: Vec<ExpandedPlaylistItemDto>,
    pub notes: String,
    pub duration_formatted: String,
}

/// A tag in the assignment panel for the current selection.
#[derive(Debug, Clone)]
pub struct SelectedTagDto {
    pub id: i64,
    pub name: String,
    pub color: String,
    /// Every selected track has the tag.
    pub assigned: bool,
    /// Some, but not all, selected tracks have the tag.
    pub partial: bool,
}

/// The selection after a click, with the tag panel to show for it.
#[derive(Debug, Clone)]
pub struct SelectionChangedDto {
    pub selected_ids: Vec<i64>,
    pub tag_items: Vec<SelectedTagDto>,
}

#[verifier::external_type_specification]
#[verifier::external_body]
pub struct ExIoError(std::io::Error);

/// Errors of the audio side of the application.
#[derive(Debug)]
pub enum CoreError {
    Audio(String),
    Io(std::io::Error),
}

/// Events emitted when the library changes on disk.
#[derive(Debug, Clone)]
pub enum LibraryEvent {
    /// A new audio file was detected and upserted into the database.
    TrackAdded { id: i64, path: String },
    /// An audio file was removed from disk and deleted from the database.
    TrackRemoved(String),
}

/// What happened to one file of a directory scan.
#[derive(Debug, Clone)]
pub enum ScanOutcome {
    /// The file's metadata was stored under this track id.
    Upserted { id: i64, path: String },
    /// Reading the file or storing it failed.
    Failed,
    /// The file is not a recognised audio file.
    Skipped,
}

/// Summary of a completed scan.
#[derive(Debug)]
pub struct ScanStats {
    /// Files successfully inserted or updated in the database.
    pub upserted: usize,
    /// Files skipped because they are not recognised audio files.
    pub skipped: usize,
    /// Files that failed to read (I/O or metadata errors).
    pub errors: usize,
    /// IDs of tracks that were upserted, paired with their file path.
    pub upserted_tracks: Vec<(i64, String)>,
}

impl Default for ScanStats {
    /// An empty summary.
    fn default() -> (r: Self)
        ensures
            r.upserted == 0,
            r.skipped == 0,
            r.errors == 0,
            r.upserted_tracks@.len() == 0,
    {
        ScanStats { upserted: 0, skipped: 0, errors: 0, upserted_tracks: Vec::new() }
    }
}

impl ScanStats {
    /// Counts one scanned file.
    pub fn record(&mut self, outcome: ScanOutcome)
        requires
            outcome is Upserted ==> old(self).upserted < usize::MAX,
            outcome is Failed ==> old(self).errors < usize::MAX,
            outcome is Skipped ==> old(self).skipped < usize::MAX,
        ensures
            old(self).upserted == old(self).upserted_tracks@.len() ==> final(self).upserted
                == final(self).upserted_tracks@.len(),
            match outcome {
                ScanOutcome::Upserted { id, path } => {
                    &&& final(self).upserted == old(self).upserted + 1
                    &&& final(self).errors == old(self).errors
                    &&& final(self).skipped == old(self).skipped
                    &&& final(self).upserted_tracks@ == old(self).upserted_tracks@.push((id, path))
                },
                ScanOutcome::Failed => {
                    &&& final(self).upserted == old(self).upserted
                    &&& final(self).errors == old(self).errors + 1
                    &&& final(self).skipped == old(self).skipped
                    &&& final(self).upserted_tracks@ == old(self).upserted_tracks@
                },
                ScanOutcome::Skipped => {
                    &&& final(self).upserted == old(self).upserted
                    &&& final(self).errors == old(self).errors
                    &&& final(self).skipped == old(self).skipped + 1
                    &&& final(self).upserted_tracks@ == old(self).upserted_tracks@
                },
            },
    {
        match outcome {
            ScanOutcome::Upserted { id, path } => {
                self.upserted = self.upserted + 1;
                self.upserted_tracks.push((id, path));
            },
            ScanOutcome::Failed => {
                self.errors = self.errors + 1;
            },
            ScanOutcome::Skipped => {
                self.skipped = self.skipped + 1;
            },
        }
    }
}

} // verus!
