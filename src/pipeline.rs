use vstd::prelude::*;
use vstd::string::*;
use crate::content::{plan_replacement, replacement_ops, ContentOp, ReplaceError};
use crate::naming::resolve_project_name;

verus! {

/// Why an import failed.
#[derive(Clone, Copy, Debug, PartialEq, Eq, Structural)]
pub enum ImportError {
    /// The project identifier is empty or would leave the repositories root.
    InvalidProjectName,
    /// An existing repository directory could not be opened.
    OpenRepositoryFailed,
    /// A new repository could not be created with its scaffold.
    BootstrapFailed,
    /// The archive could not be read.
    ArchiveUnreadable,
    /// The archive has no entries.
    EmptyArchive,
    /// Writing the archive's entries into the content directory failed.
    ExtractionFailed,
    /// Copying the archive into the repository failed.
    CopyFailed,
    /// Staging or committing failed.
    CommitFailed,
    /// The outcome reported does not answer the action that was asked for.
    UnexpectedOutcome,
}

/// What an import waits for.
#[derive(Clone, Copy, Debug, PartialEq, Eq, Structural)]
pub enum Stage {
    /// Whether the repository directory exists.
    AwaitExists,
    /// Opening the existing repository.
    AwaitOpen,
    /// Creating the repository with its scaffold.
    AwaitInit,
    /// The initial commit of a new repository.
    AwaitInitialCommit,
    /// The archive's entry paths.
    AwaitArchive,
    /// Replacing the content directory.
    AwaitReplace,
    /// Copying the archive into the repository.
    AwaitCopy,
    /// The update commit.
    AwaitUpdateCommit,
    /// Nothing: the import succeeded.
    Finished,
    /// Nothing: the import failed.
    Failed(ImportError),
}

/// The kind of an action, as the laws of a run speak of it.
#[derive(Clone, Copy, Debug, PartialEq, Eq, Structural)]
pub enum ActionKind {
    CheckRepository,
    OpenRepository,
    InitRepository,
    CommitInitial,
    OpenArchive,
    ReplaceContent,
    CopyArchive,
    CommitUpdate,
    Finish,
    Abort(ImportError),
}

/// What the caller is asked to do next.
pub enum Action {
    /// Report whether `<root>/<identifier>` exists.
    CheckRepository,
    /// Open the existing repository.
    OpenRepository,
    /// Create the repository directory, initialise an empty repository, write
    /// `README` with `readme`, and create the empty content directory `map`.
    InitRepository { readme: String },
    /// Stage everything and commit with no parent.
    CommitInitial,
    /// Open the archive and report the path of each entry, `None` for one
    /// whose path would leave the target directory.
    OpenArchive,
    /// Carry out `ops` on the content directory, in order.
    ReplaceContent { ops: Vec<ContentOp> },
    /// Copy the archive to `file_name` in the repository root.
    CopyArchive { file_name: String },
    /// Stage everything and commit with the current head as sole parent.
    CommitUpdate,
    /// The import succeeded.
    Finish,
    /// The import failed.
    Abort(ImportError),
}

impl Action {
    pub open spec fn kind(&self) -> ActionKind {
        match self {
            Action::CheckRepository => ActionKind::CheckRepository,
            Action::OpenRepository => ActionKind::OpenRepository,
            Action::InitRepository { .. } => ActionKind::InitRepository,
            Action::CommitInitial => ActionKind::CommitInitial,
            Action::OpenArchive => ActionKind::OpenArchive,
            Action::ReplaceContent { .. } => ActionKind::ReplaceContent,
            Action::CopyArchive { .. } => ActionKind::CopyArchive,
            Action::CommitUpdate => ActionKind::CommitUpdate,
            Action::Finish => ActionKind::Finish,
            Action::Abort(e) => ActionKind::Abort(*e),
        }
    }
}

/// What came of the last action.
pub enum Outcome {
    /// Answer to `CheckRepository`.
    Exists(bool),
    /// The action succeeded.
    Succeeded,
    /// The action failed.
    Failed,
    /// Answer to `OpenArchive`: the entry paths, in archive order.
    Entries(Vec<Option<String>>),
}

/// An outcome with an archive's entries reduced to their number.
#[derive(Clone, Copy, Debug, PartialEq, Eq, Structural)]
pub enum OutcomeKind {
    Exists(bool),
    Succeeded,
    Failed,
    Entries(usize),
}

impl Outcome {
    pub open spec fn kind(&self) -> OutcomeKind {
        match self {
            Outcome::Exists(b) => OutcomeKind::Exists(*b),
            Outcome::Succeeded => OutcomeKind::Succeeded,
            Outcome::Failed => OutcomeKind::Failed,
            Outcome::Entries(v) => OutcomeKind::Entries(v@.len() as usize),
        }
    }
}

/// The state of an import as the laws speak of it: the stage, whether this
/// import created the repository, and whether the archive is kept.
#[derive(Clone, Copy, Debug, PartialEq, Eq, Structural)]
pub struct Progress {
    pub stage: Stage,
    pub created: bool,
    pub keep_archive: bool,
}

/// The stage after `o`, when `o` answers an action that can fail with `e`.
pub open spec fn after(o: OutcomeKind, next: Stage, e: ImportError) -> Stage {
    match o {
        OutcomeKind::Succeeded => next,
        OutcomeKind::Failed => Stage::Failed(e),
        _ => Stage::Failed(ImportError::UnexpectedOutcome),
    }
}

/// The action that asks for what `stage` waits for.
pub open spec fn action_for(stage: Stage) -> ActionKind {
    match stage {
        Stage::AwaitExists => ActionKind::CheckRepository,
        Stage::AwaitOpen => ActionKind::OpenRepository,
        Stage::AwaitInit => ActionKind::InitRepository,
        Stage::AwaitInitialCommit => ActionKind::CommitInitial,
        Stage::AwaitArchive => ActionKind::OpenArchive,
        Stage::AwaitReplace => ActionKind::ReplaceContent,
        Stage::AwaitCopy => ActionKind::CopyArchive,
        Stage::AwaitUpdateCommit => ActionKind::CommitUpdate,
        Stage::Finished => ActionKind::Finish,
        Stage::Failed(e) => ActionKind::Abort(e),
    }
}

/// The stage that follows `stage` on outcome `o`.
pub open spec fn next_stage(stage: Stage, keep_archive: bool, o: OutcomeKind) -> Stage {
    match stage {
        Stage::AwaitExists => match o {
            OutcomeKind::Exists(true) => Stage::AwaitOpen,
            OutcomeKind::Exists(false) => Stage::AwaitInit,
            _ => Stage::Failed(ImportError::UnexpectedOutcome),
        },
        Stage::AwaitOpen => after(o, Stage::AwaitArchive, ImportError::OpenRepositoryFailed),
        Stage::AwaitInit => after(o, Stage::AwaitInitialCommit, ImportError::BootstrapFailed),
        Stage::AwaitInitialCommit => after(o, Stage::AwaitArchive, ImportError::CommitFailed),
        Stage::AwaitArchive => match o {
            OutcomeKind::Entries(n) => if n == 0 {
                Stage::Failed(ImportError::EmptyArchive)
            } else {
                Stage::AwaitReplace
            },
            OutcomeKind::Failed => Stage::Failed(ImportError::ArchiveUnreadable),
            _ => Stage::Failed(ImportError::UnexpectedOutcome),
        },
        Stage::AwaitReplace => after(
            o,
            if keep_archive { Stage::AwaitCopy } else { Stage::AwaitUpdateCommit },
            ImportError::ExtractionFailed,
        ),
        Stage::AwaitCopy => after(o, Stage::AwaitUpdateCommit, ImportError::CopyFailed),
        Stage::AwaitUpdateCommit => after(o, Stage::Finished, ImportError::CommitFailed),
        Stage::Finished => Stage::Finished,
        Stage::Failed(e) => Stage::Failed(e),
    }
}

/// One transition: the next state, and the action that it asks for.
pub open spec fn next(p: Progress, o: OutcomeKind) -> (Progress, ActionKind) {
    let stage = next_stage(p.stage, p.keep_archive, o);
    let created = p.created || (p.stage == Stage::AwaitExists && o == OutcomeKind::Exists(false));
    (Progress { stage, created, keep_archive: p.keep_archive }, action_for(stage))
}

/// The state and the actions asked for after the outcomes `outs`.
pub open spec fn run(p: Progress, outs: Seq<OutcomeKind>) -> (Progress, Seq<ActionKind>)
    decreases outs.len(),
{
    if outs.len() == 0 {
        (p, seq![])
    } else {
        let (q, acts) = run(p, outs.drop_last());
        let (r, a) = next(q, outs.last());
        (r, acts.push(a))
    }
}

/// The text that a new repository's `README` starts with.
pub open spec fn readme_head() -> Seq<char> {
    seq!['#', ' ']
}

/// The text that a new repository's `README` ends with.
pub open spec fn readme_tail() -> Seq<char> {
    seq!['\n', '\n', 'T', 'h', 'e', ' ', 'm', 'a', 'p', ' ', 'd', 'i', 'r', 'e', 'c', 't', 'o', 'r', 'y', ' ',
    'i', 's', ' ', 'r', 'e', 'p', 'l', 'a', 'c', 'e', 'd', ' ', 'o', 'n', ' ', 'e', 'v', 'e', 'r', 'y', ' ', 'i',
    'm', 'p', 'o', 'r', 't', '.', '\n']
}

/// A well-formed project identifier: non-empty, no path separator, and not
/// `.` or `..`, so that it names one directory right under the root.
pub open spec fn is_valid_identifier(s: Seq<char>) -> bool {
    &&& s.len() > 0
    &&& forall|i: int| 0 <= i < s.len() ==> #[trigger] s[i] != '/' && s[i] != '\\'
    &&& s != seq!['.']
    &&& s != seq!['.', '.']
}

/// The state an import starts in, before any outcome.
pub open spec fn initial_progress(id: Seq<char>, keep_archive: bool) -> Progress {
    Progress {
        stage: if is_valid_identifier(id) {
            Stage::AwaitExists
        } else {
            Stage::Failed(ImportError::InvalidProjectName)
        },
        created: false,
        keep_archive,
    }
}

/// One import of one archive into its project's repository.
pub struct Import {
    /// The project the archive goes to: the repository is `<root>/<identifier>`.
    pub identifier: String,
    pub progress: Progress,
}

/// The `README` written into a new repository for project `id`.
pub fn readme_text(id: &str) -> (r: String)
    ensures
        r@ == readme_head() + id@ + readme_tail(),
{
    proof {
        reveal_strlit("# ");
        reveal_strlit("\n\nThe map directory is replaced on every import.\n");
    }
    let mut r = "# ".to_string();
    r.append(id);
    r.append("\n\nThe map directory is replaced on every import.\n");
    r
}

/// Whether `s` is a well-formed project identifier.
pub fn is_valid_identifier_exec(s: &str) -> (r: bool)
    ensures
        r == is_valid_identifier(s@),
{
    let n = s.unicode_len();
    if n == 0 {
        return false;
    }
    let mut dots: usize = 0;
    let mut i: usize = 0;
    while i < n
        invariant
            n == s@.len(),
            i <= n,
            dots <= i,
            forall|j: int| 0 <= j < i ==> #[trigger] s@[j] != '/' && s@[j] != '\\',
            dots == i <==> forall|j: int| 0 <= j < i ==> #[trigger] s@[j] == '.',
        decreases n - i,
    {
        let c = s.get_char(i);
        if c == '/' || c == '\\' {
            return false;
        }
        if c == '.' && dots == i {
            dots = dots + 1;
        }
        i = i + 1;
    }
    proof {
        if dots == n && n <= 2 {
            if n == 1 {
                assert(s@ =~= seq!['.']);
            } else {
                assert(s@ =~= seq!['.', '.']);
            }
        }
        if s@ == seq!['.'] || s@ == seq!['.', '.'] {
            assert(s@[0] == '.');
        }
    }
    !(dots == n && n <= 2)
}

fn stage_after(o: &Outcome, next: Stage, e: ImportError) -> (r: Stage)
    ensures
        r == after(o.kind(), next, e),
{
    match o {
        Outcome::Succeeded => next,
        Outcome::Failed => Stage::Failed(e),
        _ => Stage::Failed(ImportError::UnexpectedOutcome),
    }
}

fn next_stage_exec(stage: Stage, keep_archive: bool, o: &Outcome) -> (r: Stage)
    ensures
        r == next_stage(stage, keep_archive, o.kind()),
{
    match stage {
        Stage::AwaitExists => match o {
            Outcome::Exists(true) => Stage::AwaitOpen,
            Outcome::Exists(false) => Stage::AwaitInit,
            _ => Stage::Failed(ImportError::UnexpectedOutcome),
        },
        Stage::AwaitOpen => stage_after(o, Stage::AwaitArchive, ImportError::OpenRepositoryFailed),
        Stage::AwaitInit => stage_after(o, Stage::AwaitInitialCommit, ImportError::BootstrapFailed),
        Stage::AwaitInitialCommit => stage_after(o, Stage::AwaitArchive, ImportError::CommitFailed),
        Stage::AwaitArchive => match o {
            Outcome::Entries(v) => if v.len() == 0 {
                Stage::Failed(ImportError::EmptyArchive)
            } else {
                Stage::AwaitReplace
            },
            Outcome::Failed => Stage::Failed(ImportError::ArchiveUnreadable),
            _ => Stage::Failed(ImportError::UnexpectedOutcome),
        },
        Stage::AwaitReplace => {
            let next = if keep_archive {
                Stage::AwaitCopy
            } else {
                Stage::AwaitUpdateCommit
            };
            stage_after(o, next, ImportError::ExtractionFailed)
        },
        Stage::AwaitCopy => stage_after(o, Stage::AwaitUpdateCommit, ImportError::CopyFailed),
        Stage::AwaitUpdateCommit => stage_after(o, Stage::Finished, ImportError::CommitFailed),
        Stage::Finished => Stage::Finished,
        Stage::Failed(e) => Stage::Failed(e),
    }
}

impl Import {
    /// Starts the import of the archive named `file_name`, into the project
    /// `override_name` when given, else into the project its name resolves to.
    /// Returns the import and the first action.
    pub fn start(file_name: &str, override_name: Option<String>, keep_archive: bool) -> (r: (
        Import,
        Action,
    ))
        ensures
            match override_name {
                Some(n) => r.0.identifier@ == n@,
                None => r.0.identifier@ == crate::naming::identifier_of(file_name@),
            },
            r.0.progress == initial_progress(r.0.identifier@, keep_archive),
            r.1.kind() == action_for(r.0.progress.stage),
    {
        let identifier = resolve_project_name(file_name, override_name);
        let valid = is_valid_identifier_exec(identifier.as_str());
        let stage = if valid {
            Stage::AwaitExists
        } else {
            Stage::Failed(ImportError::InvalidProjectName)
        };
        let action = if valid {
            Action::CheckRepository
        } else {
            Action::Abort(ImportError::InvalidProjectName)
        };
        (Import { identifier, progress: Progress { stage, created: false, keep_archive } }, action)
    }

    /// Takes the outcome of the last action and returns the next action.
    pub fn step(&mut self, outcome: Outcome) -> (a: Action)
        ensures
            final(self).identifier == old(self).identifier,
            (final(self).progress, a.kind()) == next(old(self).progress, outcome.kind()),
            match a {
                Action::InitRepository { readme } => readme@ == readme_head()
                    + old(self).identifier@ + readme_tail(),
                Action::ReplaceContent { ops } => outcome is Entries && ops@ == replacement_ops(
                    outcome->Entries_0@,
                ),
                Action::CopyArchive { file_name } => file_name@ == old(self).identifier@ + seq![
                    '.',
                    'o',
                    's',
                    'z',
                ],
                _ => true,
            },
    {
        let old_progress = self.progress;
        let stage = next_stage_exec(old_progress.stage, old_progress.keep_archive, &outcome);
        let fresh = match (old_progress.stage, &outcome) {
            (Stage::AwaitExists, Outcome::Exists(false)) => true,
            _ => false,
        };
        self.progress = Progress {
            stage,
            created: old_progress.created || fresh,
            keep_archive: old_progress.keep_archive,
        };
        match stage {
            Stage::AwaitExists => Action::CheckRepository,
            Stage::AwaitOpen => Action::OpenRepository,
            Stage::AwaitInit => Action::InitRepository { readme: readme_text(self.identifier.as_str()) },
            Stage::AwaitInitialCommit => Action::CommitInitial,
            Stage::AwaitArchive => Action::OpenArchive,
            Stage::AwaitReplace => match outcome {
                Outcome::Entries(v) => match plan_replacement(&v) {
                    Ok(ops) => Action::ReplaceContent { ops },
                    Err(ReplaceError::EmptyArchive) => Action::Abort(ImportError::EmptyArchive),
                },
                _ => Action::Abort(ImportError::UnexpectedOutcome),
            },
            Stage::AwaitCopy => {
                proof {
                    reveal_strlit(".osz");
                }
                let file_name = self.identifier.clone().concat(".osz");
                Action::CopyArchive { file_name }
            },
            Stage::AwaitUpdateCommit => Action::CommitUpdate,
            Stage::Finished => Action::Finish,
            Stage::Failed(e) => Action::Abort(e),
        }
    }
}

/// The commits among `acts`, in order.
pub open spec fn commits(acts: Seq<ActionKind>) -> Seq<ActionKind>
    decreases acts.len(),
{
    if acts.len() == 0 {
        seq![]
    } else {
        let rest = commits(acts.drop_last());
        let a = acts.last();
        if a == ActionKind::CommitInitial || a == ActionKind::CommitUpdate {
            rest.push(a)
        } else {
            rest
        }
    }
}

/// How many times `acts` asks for a repository to be created.
pub open spec fn bootstraps(acts: Seq<ActionKind>) -> nat
    decreases acts.len(),
{
    if acts.len() == 0 {
        0
    } else {
        bootstraps(acts.drop_last()) + if acts.last() == ActionKind::InitRepository {
            1nat
        } else {
            0nat
        }
    }
}

/// The commits an import has asked for before its update commit.
pub open spec fn commits_before_update(created: bool) -> Seq<ActionKind> {
    if created {
        seq![ActionKind::CommitInitial]
    } else {
        seq![]
    }
}

/// What holds after every run of an import that started with a valid identifier.
pub open spec fn run_invariant(p: Progress, outs: Seq<OutcomeKind>, acts: Seq<ActionKind>) -> bool {
    &&& p.created <==> (outs.len() > 0 && outs[0] == OutcomeKind::Exists(false))
    &&& bootstraps(acts) == if p.created { 1nat } else { 0nat }
    &&& match p.stage {
        Stage::AwaitExists => outs.len() == 0 && acts.len() == 0,
        Stage::AwaitOpen => !p.created && commits(acts) == Seq::<ActionKind>::empty(),
        Stage::AwaitInit => p.created && commits(acts) == Seq::<ActionKind>::empty(),
        Stage::AwaitInitialCommit => p.created && commits(acts) == commits_before_update(p.created),
        Stage::AwaitArchive | Stage::AwaitReplace | Stage::AwaitCopy =>
            commits(acts) == commits_before_update(p.created),
        Stage::AwaitUpdateCommit | Stage::Finished => commits(acts) == commits_before_update(
            p.created,
        ).push(ActionKind::CommitUpdate),
        Stage::Failed(_) => true,
    }
}

proof fn lemma_run_invariant(keep_archive: bool, outs: Seq<OutcomeKind>)
    ensures
        ({
            let start = Progress { stage: Stage::AwaitExists, created: false, keep_archive };
            let (p, acts) = run(start, outs);
            run_invariant(p, outs, acts)
        }),
    decreases outs.len(),
{
    let start = Progress { stage: Stage::AwaitExists, created: false, keep_archive };
    if outs.len() > 0 {
        let prev = outs.drop_last();
        lemma_run_invariant(keep_archive, prev);
        let (q, acts) = run(start, prev);
        let (r, a) = next(q, outs.last());
        let acts2 = acts.push(a);
        assert(acts2.drop_last() =~= acts);
        assert(bootstraps(acts2) == bootstraps(acts) + if a == ActionKind::InitRepository {
            1nat
        } else {
            0nat
        });
        assert(commits(acts2) == if a == ActionKind::CommitInitial || a == ActionKind::CommitUpdate {
            commits(acts).push(a)
        } else {
            commits(acts)
        });
        if prev.len() > 0 {
            assert(outs[0] == prev[0]);
        } else {
            assert(outs[0] == outs.last());
        }
        assert(Seq::<ActionKind>::empty().push(ActionKind::CommitInitial) =~= seq![
            ActionKind::CommitInitial,
        ]);
        assert(run(start, outs) == (r, acts2));
    }
}

/// Commit linearity: a successful import of an archive into an existing
/// repository asks for exactly one commit, an update on top of the current
/// head; one that created the repository asks for exactly two, the initial
/// commit and then the update.
pub proof fn lemma_commit_linearity(keep_archive: bool, outs: Seq<OutcomeKind>)
    ensures
        ({
            let start = Progress { stage: Stage::AwaitExists, created: false, keep_archive };
            let (p, acts) = run(start, outs);
            p.stage == Stage::Finished ==> {
                &&& outs.len() > 0
                &&& outs[0] == OutcomeKind::Exists(false) ==> commits(acts) == seq![
                    ActionKind::CommitInitial,
                    ActionKind::CommitUpdate,
                ]
                &&& outs[0] == OutcomeKind::Exists(true) ==> commits(acts) == seq![
                    ActionKind::CommitUpdate,
                ]
            }
        }),
{
    lemma_run_invariant(keep_archive, outs);
    let start = Progress { stage: Stage::AwaitExists, created: false, keep_archive };
    let (p, acts) = run(start, outs);
    assert(seq![ActionKind::CommitInitial].push(ActionKind::CommitUpdate) =~= seq![
        ActionKind::CommitInitial,
        ActionKind::CommitUpdate,
    ]);
    assert(Seq::<ActionKind>::empty().push(ActionKind::CommitUpdate) =~= seq![
        ActionKind::CommitUpdate,
    ]);
}

/// A repository is bootstrapped once: an import that finds no repository asks
/// for it to be created exactly once, and a later import of the same project,
/// which finds it, never asks for it to be created or for an initial commit.
pub proof fn lemma_bootstrap_once(
    keep_first: bool,
    first: Seq<OutcomeKind>,
    keep_second: bool,
    second: Seq<OutcomeKind>,
)
    requires
        first.len() > 0,
        first[0] == OutcomeKind::Exists(false),
        second.len() > 0,
        second[0] == OutcomeKind::Exists(true),
    ensures
        ({
            let start = Progress { stage: Stage::AwaitExists, created: false, keep_archive: keep_first };
            bootstraps(run(start, first).1) == 1
        }),
        ({
            let start = Progress {
                stage: Stage::AwaitExists,
                created: false,
                keep_archive: keep_second,
            };
            let acts = run(start, second).1;
            &&& bootstraps(acts) == 0
            &&& !commits(acts).contains(ActionKind::CommitInitial)
        }),
{
    lemma_run_invariant(keep_first, first);
    lemma_run_invariant(keep_second, second);
    let start = Progress { stage: Stage::AwaitExists, created: false, keep_archive: keep_second };
    lemma_no_initial_commit_without_bootstrap(start, second);
}

proof fn lemma_no_initial_commit_without_bootstrap(start: Progress, outs: Seq<OutcomeKind>)
    requires
        start.stage == Stage::AwaitExists,
    ensures
        bootstraps(run(start, outs).1) == 0 ==> !commits(run(start, outs).1).contains(
            ActionKind::CommitInitial,
        ),
        bootstraps(run(start, outs).1) == 0 ==> run(start, outs).0.stage != Stage::AwaitInitialCommit,
        bootstraps(run(start, outs).1) == 0 ==> run(start, outs).0.stage != Stage::AwaitInit,
    decreases outs.len(),
{
    if outs.len() > 0 {
        let prev = outs.drop_last();
        lemma_no_initial_commit_without_bootstrap(start, prev);
        let (q, acts) = run(start, prev);
        let (r, a) = next(q, outs.last());
        assert(acts.push(a).drop_last() =~= acts);
        if bootstraps(acts.push(a)) == 0 {
            assert(!commits(acts).contains(ActionKind::CommitInitial));
            assert(a != ActionKind::CommitInitial);
            if commits(acts.push(a)).contains(ActionKind::CommitInitial) {
                let i = choose|i: int| 0 <= i < commits(acts.push(a)).len() && commits(acts.push(a))[i] == ActionKind::CommitInitial;
                assert(commits(acts).contains(commits(acts.push(a))[i]) || commits(acts.push(a))[i] == a);
            }
        }
    }
}

/// Once an import has failed it asks for nothing but to be aborted.
proof fn lemma_failed_only_aborts(p: Progress, e: ImportError, outs: Seq<OutcomeKind>)
    requires
        p.stage == Stage::Failed(e),
    ensures
        run(p, outs).0.stage == Stage::Failed(e),
        run(p, outs).1.len() == outs.len(),
        forall|i: int| 0 <= i < outs.len() ==> #[trigger] run(p, outs).1[i] == ActionKind::Abort(e),
    decreases outs.len(),
{
    if outs.len() > 0 {
        let prev = outs.drop_last();
        lemma_failed_only_aborts(p, e, prev);
        let acts = run(p, prev).1;
        let a = next(run(p, prev).0, outs.last()).1;
        assert forall|i: int| 0 <= i < outs.len() implies #[trigger] run(p, outs).1[i] == ActionKind::Abort(e) by {
            if i < prev.len() {
                assert(acts.push(a)[i] == acts[i]);
            }
        }
    }
}

/// An empty archive is refused before the content directory is touched: the
/// import fails with `EmptyArchive`, and asks for no content operation after.
pub proof fn lemma_empty_archive_refused(p: Progress, outs: Seq<OutcomeKind>)
    requires
        p.stage == Stage::AwaitArchive,
    ensures
        next(p, OutcomeKind::Entries(0)).0.stage == Stage::Failed(ImportError::EmptyArchive),
        next(p, OutcomeKind::Entries(0)).1 == ActionKind::Abort(ImportError::EmptyArchive),
        forall|i: int|
            0 <= i < outs.len() ==> #[trigger] run(next(p, OutcomeKind::Entries(0)).0, outs).1[i]
                == ActionKind::Abort(ImportError::EmptyArchive),
{
    lemma_failed_only_aborts(next(p, OutcomeKind::Entries(0)).0, ImportError::EmptyArchive, outs);
}

} // verus!
