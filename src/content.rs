use vstd::prelude::*;

verus! {

/// One operation on a repository's content directory.
pub enum ContentOp {
    /// Remove the content directory and everything in it.
    Clear,
    /// Write entry `index` of the archive to `path`, relative to the content
    /// directory, creating its parent directories.
    Write { index: usize, path: String },
}

/// The write operations for the accepted entries of an archive, in archive
/// order. An entry is `None` when its path would leave the content directory:
/// such an entry is skipped.
pub open spec fn entry_writes(entries: Seq<Option<String>>) -> Seq<ContentOp>
    decreases entries.len(),
{
    if entries.len() == 0 {
        seq![]
    } else {
        let rest = entry_writes(entries.drop_last());
        match entries.last() {
            Some(p) => rest.push(ContentOp::Write { index: (entries.len() - 1) as usize, path: p }),
            None => rest,
        }
    }
}

/// The operations that replace the content directory with an archive's
/// entries: clear it, then write every accepted entry.
pub open spec fn replacement_ops(entries: Seq<Option<String>>) -> Seq<ContentOp> {
    seq![ContentOp::Clear] + entry_writes(entries)
}

/// The set of files in the content directory after `ops`, starting from `files`.
pub open spec fn apply_ops(files: Set<Seq<char>>, ops: Seq<ContentOp>) -> Set<Seq<char>>
    decreases ops.len(),
{
    if ops.len() == 0 {
        files
    } else {
        let before = apply_ops(files, ops.drop_last());
        match ops.last() {
            ContentOp::Clear => Set::empty(),
            ContentOp::Write { index, path } => before.insert(path@),
        }
    }
}

/// The paths of the accepted entries of an archive.
pub open spec fn accepted_paths(entries: Seq<Option<String>>) -> Set<Seq<char>> {
    Set::new(
        |p: Seq<char>|
            exists|i: int| 0 <= i < entries.len() && #[trigger] entries[i] is Some && entries[i]->Some_0@ == p,
    )
}

/// Why a content replacement is refused.
#[derive(Clone, Copy, Debug, PartialEq, Eq, Structural)]
pub enum ReplaceError {
    /// The archive has no entries: replacing would erase the project's content.
    EmptyArchive,
}

/// Plans the replacement of the content directory by an archive whose entry
/// paths are `entries`. An empty archive is refused before anything is removed.
pub fn plan_replacement(entries: &Vec<Option<String>>) -> (r: Result<Vec<ContentOp>, ReplaceError>)
    ensures
        entries@.len() == 0 ==> r == Err::<Vec<ContentOp>, ReplaceError>(ReplaceError::EmptyArchive),
        entries@.len() > 0 ==> (r is Ok && r->Ok_0@ == replacement_ops(entries@)),
{
    if entries.len() == 0 {
        return Err(ReplaceError::EmptyArchive);
    }
    let mut ops: Vec<ContentOp> = Vec::new();
    ops.push(ContentOp::Clear);
    let mut i: usize = 0;
    while i < entries.len()
        invariant
            i <= entries@.len(),
            ops@ == seq![ContentOp::Clear] + entry_writes(entries@.take(i as int)),
        decreases entries@.len() - i,
    {
        assert(entries@.take(i + 1).drop_last() =~= entries@.take(i as int));
        match &entries[i] {
            Some(p) => {
                ops.push(ContentOp::Write { index: i, path: p.clone() });
            },
            None => {},
        }
        i = i + 1;
        assert((seq![ContentOp::Clear] + entry_writes(entries@.take(i - 1))).push(
            ops@.last(),
        ) =~= seq![ContentOp::Clear] + entry_writes(entries@.take(i - 1)).push(ops@.last()));
    }
    assert(entries@.take(i as int) =~= entries@);
    Ok(ops)
}

proof fn lemma_apply_writes(files: Set<Seq<char>>, entries: Seq<Option<String>>)
    ensures
        apply_ops(files, replacement_ops(entries)) == accepted_paths(entries),
    decreases entries.len(),
{
    let ops = replacement_ops(entries);
    if entries.len() == 0 {
        assert(ops =~= seq![ContentOp::Clear]);
        assert(ops.drop_last() =~= Seq::<ContentOp>::empty());
        assert(accepted_paths(entries) =~= Set::empty());
    } else {
        let prev = entries.drop_last();
        lemma_apply_writes(files, prev);
        let n = entries.len() - 1;
        match entries.last() {
            Some(p) => {
                assert(ops.drop_last() =~= replacement_ops(prev));
                assert(accepted_paths(entries) =~= accepted_paths(prev).insert(p@)) by {
                    assert forall|q: Seq<char>| accepted_paths(entries).contains(q) implies
                        accepted_paths(prev).insert(p@).contains(q) by {
                        let i = choose|i: int| 0 <= i < entries.len() && #[trigger] entries[i] is Some && entries[i]->Some_0@ == q;
                        if i < n {
                            assert(prev[i] == entries[i]);
                        }
                    }
                    assert forall|q: Seq<char>| accepted_paths(prev).insert(p@).contains(q) implies
                        accepted_paths(entries).contains(q) by {
                        if q == p@ {
                            assert(entries[n] is Some);
                        } else {
                            let i = choose|i: int| 0 <= i < prev.len() && #[trigger] prev[i] is Some && prev[i]->Some_0@ == q;
                            assert(entries[i] == prev[i]);
                        }
                    }
                }
            },
            None => {
                assert(ops =~= replacement_ops(prev));
                assert(accepted_paths(entries) =~= accepted_paths(prev)) by {
                    assert forall|q: Seq<char>| accepted_paths(entries).contains(q) implies
                        accepted_paths(prev).contains(q) by {
                        let i = choose|i: int| 0 <= i < entries.len() && #[trigger] entries[i] is Some && entries[i]->Some_0@ == q;
                        assert(prev[i] == entries[i]);
                    }
                    assert forall|q: Seq<char>| accepted_paths(prev).contains(q) implies
                        accepted_paths(entries).contains(q) by {
                        let i = choose|i: int| 0 <= i < prev.len() && #[trigger] prev[i] is Some && prev[i]->Some_0@ == q;
                        assert(entries[i] == prev[i]);
                    }
                }
            },
        }
    }
}

/// After a replacement, the content directory holds exactly the accepted
/// entries of the archive, whatever it held before.
pub proof fn lemma_replacement_mirrors_archive(files: Set<Seq<char>>, entries: Seq<Option<String>>)
    requires
        entries.len() > 0,
    ensures
        apply_ops(files, replacement_ops(entries)) == accepted_paths(entries),
{
    lemma_apply_writes(files, entries);
}

} // verus!
