use vstd::prelude::*;
use crate::naming::{is_archive_file_name, is_archive_name};

verus! {

/// The kinds of filesystem notification the watcher tells apart.
#[derive(Clone, Copy, Debug, PartialEq, Eq, Structural)]
pub enum WatchEventKind {
    /// A file was created; every path of the event is a new file.
    CreateFile,
    /// A file was renamed; the first path of the event is its new name.
    RenameTo,
    /// Anything else, including the combined rename notification that repeats
    /// a `RenameTo`.
    Other,
}

/// A path of a notification, as the watcher saw it.
pub struct EventPath {
    /// The last component of the path.
    pub file_name: String,
    /// Whether the path is a regular file now.
    pub is_file: bool,
}

/// The path is an archive file that is now present.
pub open spec fn is_present_archive(p: EventPath) -> bool {
    p.is_file && is_archive_name(p.file_name@)
}

/// The indices of the present archives among `paths`, in order.
pub open spec fn archive_indices(paths: Seq<EventPath>) -> Seq<usize>
    decreases paths.len(),
{
    if paths.len() == 0 {
        seq![]
    } else {
        let rest = archive_indices(paths.drop_last());
        if is_present_archive(paths.last()) {
            rest.push((paths.len() - 1) as usize)
        } else {
            rest
        }
    }
}

/// The paths of a notification that are to be imported, as indices into `paths`.
pub open spec fn imports_of(kind: WatchEventKind, paths: Seq<EventPath>) -> Seq<usize> {
    match kind {
        WatchEventKind::CreateFile => archive_indices(paths),
        WatchEventKind::RenameTo => if paths.len() > 0 && is_present_archive(paths[0]) {
            seq![0usize]
        } else {
            seq![]
        },
        WatchEventKind::Other => seq![],
    }
}

/// Whether `p` is an archive file that is now present.
pub fn is_present_archive_exec(p: &EventPath) -> (r: bool)
    ensures
        r == is_present_archive(*p),
{
    p.is_file && is_archive_file_name(p.file_name.as_str())
}

/// Selects the paths of a notification that name a new archive: each new
/// archive file of a creation, the new name of a rename when it is an
/// archive, and nothing of any other notification.
pub fn archives_to_import(kind: WatchEventKind, paths: &Vec<EventPath>) -> (r: Vec<usize>)
    ensures
        r@ == imports_of(kind, paths@),
{
    match kind {
        WatchEventKind::CreateFile => {
            let mut r: Vec<usize> = Vec::new();
            let mut i: usize = 0;
            while i < paths.len()
                invariant
                    i <= paths@.len(),
                    r@ == archive_indices(paths@.take(i as int)),
                decreases paths@.len() - i,
            {
                assert(paths@.take(i + 1).drop_last() =~= paths@.take(i as int));
                if is_present_archive_exec(&paths[i]) {
                    r.push(i);
                }
                i = i + 1;
            }
            assert(paths@.take(i as int) =~= paths@);
            r
        },
        WatchEventKind::RenameTo => {
            if paths.len() > 0 && is_present_archive_exec(&paths[0]) {
                let mut r: Vec<usize> = Vec::new();
                r.push(0);
                assert(r@ =~= seq![0usize]);
                r
            } else {
                Vec::new()
            }
        },
        WatchEventKind::Other => Vec::new(),
    }
}

} // verus!
