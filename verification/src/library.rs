//! Library maintenance rules: which database work a filesystem change calls
//! for, and the title stored for a track whose tags carry none.

use vstd::prelude::*;
use crate::paths::{file_name_of, file_stem, is_audio_file, is_audio_path, stem_of_name};

verus! {

/// The kind of a filesystem change reported by the file watcher.
#[derive(Debug, Clone, Copy, PartialEq, Eq, Structural)]
pub enum FsEventKind {
    Create,
    Remove,
    /// A rename reported with both the old and the new path.
    RenameBoth,
    Other,
}

/// Database work for one path.
#[derive(Debug, Clone)]
pub enum FsAction {
    /// Read the file's metadata and upsert it; report it as added.
    Scan(String),
    /// Delete the track stored under this path; report it as removed.
    Delete(String),
}

pub enum FsStep {
    Scan(Seq<char>),
    Delete(Seq<char>),
}

impl View for FsAction {
    type V = FsStep;

    open spec fn view(&self) -> FsStep {
        match self {
            FsAction::Scan(p) => FsStep::Scan(p@),
            FsAction::Delete(p) => FsStep::Delete(p@),
        }
    }
}

/// One step per audio path of `paths`, in order.
pub open spec fn audio_steps(paths: Seq<Seq<char>>, scan: bool) -> Seq<FsStep>
    decreases paths.len(),
{
    if paths.len() == 0 {
        seq![]
    } else {
        let p = paths.last();
        let step: Seq<FsStep> = if is_audio_path(p) {
            if scan {
                seq![FsStep::Scan(p)]
            } else {
                seq![FsStep::Delete(p)]
            }
        } else {
            seq![]
        };
        audio_steps(paths.drop_last(), scan) + step
    }
}

/// The work a filesystem change calls for: created audio files are scanned,
/// removed ones deleted; a rename with exactly two paths deletes the old
/// path and scans the new one, each only if it is an audio file. Other
/// changes, and non-audio paths, need nothing.
pub open spec fn fs_event_steps(kind: FsEventKind, paths: Seq<Seq<char>>) -> Seq<FsStep> {
    match kind {
        FsEventKind::Create => audio_steps(paths, true),
        FsEventKind::Remove => audio_steps(paths, false),
        FsEventKind::RenameBoth => if paths.len() == 2 {
            (if is_audio_path(paths[0]) {
                seq![FsStep::Delete(paths[0])]
            } else {
                seq![]
            }) + (if is_audio_path(paths[1]) {
                seq![FsStep::Scan(paths[1])]
            } else {
                seq![]
            })
        } else {
            seq![]
        },
        FsEventKind::Other => seq![],
    }
}

pub open spec fn actions_view(v: Seq<FsAction>) -> Seq<FsStep> {
    v.map_values(|a: FsAction| a@)
}

/// Plans the database work for a filesystem change.
pub fn plan_fs_event(kind: FsEventKind, paths: &Vec<String>) -> (r: Vec<FsAction>)
    ensures
        actions_view(r@) == fs_event_steps(kind, paths@.map_values(|p: String| p@)),
{
    let ghost ps = paths@.map_values(|p: String| p@);
    let mut r: Vec<FsAction> = Vec::new();
    match kind {
        FsEventKind::Create | FsEventKind::Remove => {
            let scan = kind == FsEventKind::Create;
            let mut i: usize = 0;
            while i < paths.len()
                invariant
                    i <= paths.len(),
                    ps == paths@.map_values(|p: String| p@),
                    actions_view(r@) == audio_steps(ps.take(i as int), scan),
                decreases paths.len() - i,
            {
                let ghost before = r@;
                proof {
                    assert(ps.take(i + 1).drop_last() =~= ps.take(i as int));
                    assert(ps.take(i + 1).last() == paths@[i as int]@);
                }
                if is_audio_file(paths[i].as_str()) {
                    let p = paths[i].clone();
                    if scan {
                        r.push(FsAction::Scan(p));
                    } else {
                        r.push(FsAction::Delete(p));
                    }
                    proof {
                        assert(actions_view(r@) =~= actions_view(before).push(r@.last()@));
                    }
                }
                i = i + 1;
                assert(actions_view(r@) =~= audio_steps(ps.take(i as int), scan));
            }
            assert(ps.take(paths.len() as int) =~= ps);
        },
        FsEventKind::RenameBoth => {
            if paths.len() == 2 {
                if is_audio_file(paths[0].as_str()) {
                    r.push(FsAction::Delete(paths[0].clone()));
                }
                if is_audio_file(paths[1].as_str()) {
                    r.push(FsAction::Scan(paths[1].clone()));
                }
                assert(actions_view(r@) =~= fs_event_steps(kind, ps));
            } else {
                assert(actions_view(r@) =~= fs_event_steps(kind, ps));
            }
        },
        FsEventKind::Other => {
            assert(actions_view(r@) =~= fs_event_steps(kind, ps));
        },
    }
    r
}

/// The title stored for a track: its tag title, or else the file name's
/// stem, so that a track is never blank when its path has a file name.
pub fn track_title(tag_title: Option<String>, path: &str) -> (r: Option<String>)
    ensures
        match tag_title {
            Some(t) => r == Some(t),
            None => match file_name_of(path@) {
                Some(n) => r matches Some(s) && s@ == stem_of_name(n),
                None => r is None,
            },
        },
{
    match tag_title {
        Some(t) => Some(t),
        None => file_stem(path),
    }
}

} // verus!
