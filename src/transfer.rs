use vstd::prelude::*;

use crate::path::{base_name, base_name_spec, join, join_spec};

verus! {

/// What a path turned out to be when it was looked at.
#[derive(Clone, Copy, Debug, PartialEq, Eq, Structural)]
pub enum PathKind {
    /// Nothing exists there.
    Missing,
    /// A regular file.
    File,
    /// A directory.
    Dir,
    /// Something else that exists: it is copied like a file and never removed.
    Other,
}

/// One entry of a directory listing.
#[derive(Clone, Debug, PartialEq, Eq)]
pub struct Child {
    pub name: String,
    pub is_dir: bool,
}

impl View for Child {
    type V = (Seq<char>, bool);

    open spec fn view(&self) -> (Seq<char>, bool) {
        (self.name@, self.is_dir)
    }
}

/// A message for the user; none of them stops the transfer.
#[derive(Clone, Debug, PartialEq, Eq)]
pub enum Notice {
    /// A stored path no longer exists and was skipped.
    Missing(String),
    /// A stored path has no final component to name its copy by.
    NoFileName(String),
    /// Copying an entry failed, for the given reason; it is left as it is.
    CopyFailed(String),
    /// Removing an original, once copied, failed for the given reason.
    RemoveFailed { path: String, is_dir: bool, reason: String },
}

/// A notice as the contracts see it.
pub enum NoticeView {
    Missing(Seq<char>),
    NoFileName(Seq<char>),
    CopyFailed(Seq<char>),
    RemoveFailed(Seq<char>, bool, Seq<char>),
}

impl View for Notice {
    type V = NoticeView;

    open spec fn view(&self) -> NoticeView {
        match self {
            Notice::Missing(p) => NoticeView::Missing(p@),
            Notice::NoFileName(p) => NoticeView::NoFileName(p@),
            Notice::CopyFailed(m) => NoticeView::CopyFailed(m@),
            Notice::RemoveFailed { path, is_dir, reason } => NoticeView::RemoveFailed(
                path@,
                *is_dir,
                reason@,
            ),
        }
    }
}

/// One piece of filesystem work, or a message to show.
#[derive(Clone, Debug, PartialEq, Eq)]
pub enum Step {
    /// Find out what the stored path is.
    Probe(String),
    /// Create the directory and any missing ancestors.
    CreateDir(String),
    /// Copy one file.
    CopyFile { from: String, to: String },
    /// List the directory `from`; its entries are copied under `to`.
    ListDir { from: String, to: String },
    /// Remove an original: a file, or a directory with all it holds.
    Remove { path: String, is_dir: bool },
    /// Show a message.
    Report(Notice),
}

/// A step as the contracts see it.
pub enum StepView {
    Probe(Seq<char>),
    CreateDir(Seq<char>),
    CopyFile(Seq<char>, Seq<char>),
    ListDir(Seq<char>, Seq<char>),
    Remove(Seq<char>, bool),
    Report(NoticeView),
}

impl View for Step {
    type V = StepView;

    open spec fn view(&self) -> StepView {
        match self {
            Step::Probe(p) => StepView::Probe(p@),
            Step::CreateDir(d) => StepView::CreateDir(d@),
            Step::CopyFile { from, to } => StepView::CopyFile(from@, to@),
            Step::ListDir { from, to } => StepView::ListDir(from@, to@),
            Step::Remove { path, is_dir } => StepView::Remove(path@, *is_dir),
            Step::Report(n) => StepView::Report(n@),
        }
    }
}

/// How a step went.
#[derive(Clone, Debug, PartialEq, Eq)]
pub enum Outcome {
    /// The answer to a probe.
    Kind(PathKind),
    /// The step succeeded.
    Done,
    /// The entries of a listed directory, in the order they were read.
    Listed(Vec<Child>),
    /// The step failed, for the given reason.
    Failed(String),
}

/// An outcome as the contracts see it; a listing is a sequence of names,
/// each with whether it is a directory.
pub enum OutcomeView {
    Kind(PathKind),
    Done,
    Listed(Seq<(Seq<char>, bool)>),
    Failed(Seq<char>),
}

impl View for Outcome {
    type V = OutcomeView;

    open spec fn view(&self) -> OutcomeView {
        match self {
            Outcome::Kind(k) => OutcomeView::Kind(*k),
            Outcome::Done => OutcomeView::Done,
            Outcome::Listed(cs) => OutcomeView::Listed(cs@.map_values(|c: Child| c@)),
            Outcome::Failed(m) => OutcomeView::Failed(m@),
        }
    }
}

/// A paste or a move in progress. `tasks` is a stack whose last element is
/// the step to take now; it only ever holds the steps of one stored entry.
pub struct TransferView {
    pub target: Seq<char>,
    pub remove_afterwards: bool,
    pub entries: Seq<Seq<char>>,
    pub next: int,
    pub tasks: Seq<StepView>,
}

/// The steps of one child of a listed directory: a subdirectory is created,
/// then listed; a file is copied. Both keep the child's name.
pub open spec fn child_steps(from: Seq<char>, to: Seq<char>, c: (Seq<char>, bool)) -> Seq<
    StepView,
> {
    let f = join_spec(from, c.0);
    let d = join_spec(to, c.0);
    if c.1 {
        seq![StepView::ListDir(f, d), StepView::CreateDir(d)]
    } else {
        seq![StepView::CopyFile(f, d)]
    }
}

/// The steps of all children, as a stack: the first child's on top.
pub open spec fn children_steps(from: Seq<char>, to: Seq<char>, cs: Seq<(Seq<char>, bool)>) -> Seq<
    StepView,
>
    decreases cs.len(),
{
    if cs.len() == 0 {
        Seq::empty()
    } else {
        children_steps(from, to, cs.drop_first()) + child_steps(from, to, cs[0])
    }
}

/// The steps that copy an existing stored path `p` to `d` inside the target.
pub open spec fn copy_steps(p: Seq<char>, d: Seq<char>, kind: PathKind) -> Seq<StepView> {
    if kind == PathKind::Dir {
        seq![StepView::ListDir(p, d), StepView::CreateDir(d)]
    } else {
        seq![StepView::CopyFile(p, d)]
    }
}

/// The steps for the stored path `p` once it is known to be of `kind`: a
/// missing path is reported and skipped; otherwise it is copied into the
/// target under its own name, and in a move a file or directory is removed
/// after the copy (the removal sits below the copy on the stack).
pub open spec fn entry_steps(target: Seq<char>, remove: bool, p: Seq<char>, kind: PathKind) -> Seq<
    StepView,
> {
    if kind == PathKind::Missing {
        seq![StepView::Report(NoticeView::Missing(p))]
    } else {
        match base_name_spec(p) {
            None => seq![StepView::Report(NoticeView::NoFileName(p))],
            Some(n) => {
                let copy = copy_steps(p, join_spec(target, n), kind);
                if remove && kind != PathKind::Other {
                    seq![StepView::Remove(p, kind == PathKind::Dir)] + copy
                } else {
                    copy
                }
            },
        }
    }
}

/// What a probe was answered with; an answer of another sort counts as a
/// missing path.
pub open spec fn probe_kind(o: OutcomeView) -> PathKind {
    match o {
        OutcomeView::Kind(k) => k,
        _ => PathKind::Missing,
    }
}

/// The stack once the top step has had outcome `o`. A failed copy, listing or
/// directory creation abandons the rest of the entry, its removal included,
/// and reports why. A failed removal is reported. An outcome that does not
/// answer the step counts as success.
pub open spec fn after_step(t: TransferView, o: OutcomeView) -> Seq<StepView> {
    let rest = t.tasks.drop_last();
    match t.tasks.last() {
        StepView::Probe(p) => rest + entry_steps(t.target, t.remove_afterwards, p, probe_kind(o)),
        StepView::CreateDir(_) => match o {
            OutcomeView::Failed(m) => seq![StepView::Report(NoticeView::CopyFailed(m))],
            _ => rest,
        },
        StepView::CopyFile(_, _) => match o {
            OutcomeView::Failed(m) => seq![StepView::Report(NoticeView::CopyFailed(m))],
            _ => rest,
        },
        StepView::ListDir(from, to) => match o {
            OutcomeView::Listed(cs) => rest + children_steps(from, to, cs),
            OutcomeView::Failed(m) => seq![StepView::Report(NoticeView::CopyFailed(m))],
            _ => rest,
        },
        StepView::Remove(p, d) => match o {
            OutcomeView::Failed(m) => rest.push(
                StepView::Report(NoticeView::RemoveFailed(p, d, m)),
            ),
            _ => rest,
        },
        StepView::Report(_) => rest,
    }
}

/// When no step is left, the next stored entry is taken up by probing it.
pub open spec fn settle(t: TransferView) -> TransferView {
    if t.tasks.len() == 0 && 0 <= t.next < t.entries.len() {
        TransferView { tasks: seq![StepView::Probe(t.entries[t.next])], next: t.next + 1, ..t }
    } else {
        t
    }
}

/// A transfer of `entries` into `target`, before any step.
pub open spec fn start_spec(target: Seq<char>, remove: bool, entries: Seq<Seq<char>>) -> TransferView {
    settle(
        TransferView {
            target,
            remove_afterwards: remove,
            entries,
            next: 0,
            tasks: Seq::empty(),
        },
    )
}

/// The transfer after its current step had outcome `o`; a finished transfer
/// stays as it is.
pub open spec fn advance_spec(t: TransferView, o: OutcomeView) -> TransferView {
    if t.tasks.len() == 0 {
        t
    } else {
        settle(TransferView { tasks: after_step(t, o), ..t })
    }
}

/// Entries are taken up in order, and the transfer is over only once every
/// entry has been.
pub open spec fn transfer_wf(t: TransferView) -> bool {
    &&& 0 <= t.next <= t.entries.len()
    &&& t.tasks.len() == 0 ==> t.next == t.entries.len()
}

/// The stored paths of a paste or a move, and the steps that remain.
pub struct Transfer {
    target: String,
    remove_afterwards: bool,
    entries: Vec<String>,
    next: usize,
    tasks: Vec<Step>,
}

impl View for Transfer {
    type V = TransferView;

    closed spec fn view(&self) -> TransferView {
        TransferView {
            target: self.target@,
            remove_afterwards: self.remove_afterwards,
            entries: self.entries.deep_view(),
            next: self.next as int,
            tasks: self.tasks@.map_values(|s: Step| s@),
        }
    }
}

impl Transfer {
    fn push_step(&mut self, s: Step)
        ensures
            final(self)@ == (TransferView { tasks: old(self)@.tasks.push(s@), ..old(self)@ }),
    {
        self.tasks.push(s);
        assert(self.tasks@.map_values(|s: Step| s@) == old(self).tasks@.map_values(
            |s: Step| s@,
        ).push(s@));
    }

    fn settle(&mut self)
        ensures
            final(self)@ == settle(old(self)@),
    {
        if self.tasks.len() == 0 && self.next < self.entries.len() {
            let p = self.entries[self.next].clone();
            assert(self.tasks@.map_values(|s: Step| s@) == Seq::<StepView>::empty());
            self.push_step(Step::Probe(p));
            self.next = self.next + 1;
            assert(seq![StepView::Probe(p@)] == Seq::<StepView>::empty().push(
                StepView::Probe(p@),
            ));
        }
    }

    /// A transfer of the stored `entries` into the directory `target`; the
    /// originals are removed afterwards when `remove_afterwards` holds.
    pub fn new(target: String, remove_afterwards: bool, entries: Vec<String>) -> (r: Transfer)
        ensures
            r@ == start_spec(target@, remove_afterwards, entries.deep_view()),
            transfer_wf(r@),
    {
        let mut t = Transfer { target, remove_afterwards, entries, next: 0, tasks: Vec::new() };
        assert(t.tasks@.map_values(|s: Step| s@) == Seq::<StepView>::empty());
        t.settle();
        t
    }

    /// The step to take now, or `None` when the transfer is over.
    pub fn action(&self) -> (r: Option<&Step>)
        ensures
            match r {
                Some(s) => self@.tasks.len() > 0 && s@ == self@.tasks.last(),
                None => self@.tasks.len() == 0,
            },
    {
        let n = self.tasks.len();
        if n == 0 {
            None
        } else {
            Some(&self.tasks[n - 1])
        }
    }

    fn push_entry_steps(&mut self, p: String, kind: PathKind)
        ensures
            final(self)@ == (TransferView {
                tasks: old(self)@.tasks + entry_steps(
                    old(self)@.target,
                    old(self)@.remove_afterwards,
                    p@,
                    kind,
                ),
                ..old(self)@
            }),
    {
        let ghost t0 = self@;
        if kind == PathKind::Missing {
            self.push_step(Step::Report(Notice::Missing(p)));
            assert(t0.tasks.push(StepView::Report(NoticeView::Missing(p@))) == t0.tasks + seq![
                StepView::Report(NoticeView::Missing(p@)),
            ]);
            return;
        }
        match base_name(p.as_str()) {
            None => {
                let ghost v = StepView::Report(NoticeView::NoFileName(p@));
                self.push_step(Step::Report(Notice::NoFileName(p)));
                assert(t0.tasks.push(v) == t0.tasks + seq![v]);
            },
            Some(n) => {
                let d = join(self.target.as_str(), n.as_str());
                let ghost copy = copy_steps(p@, d@, kind);
                let ghost removal = if self.remove_afterwards && kind != PathKind::Other {
                    seq![StepView::Remove(p@, kind == PathKind::Dir)]
                } else {
                    Seq::<StepView>::empty()
                };
                if self.remove_afterwards && kind != PathKind::Other {
                    self.push_step(Step::Remove { path: p.clone(), is_dir: kind == PathKind::Dir });
                }
                assert(self@.tasks == t0.tasks + removal);
                let ghost t1 = self@;
                if kind == PathKind::Dir {
                    self.push_step(Step::ListDir { from: p, to: d.clone() });
                    self.push_step(Step::CreateDir(d));
                    assert(t1.tasks.push(copy[0]).push(copy[1]) == t1.tasks + copy);
                } else {
                    self.push_step(Step::CopyFile { from: p, to: d });
                    assert(t1.tasks.push(copy[0]) == t1.tasks + copy);
                }
                assert(t0.tasks + removal + copy == t0.tasks + (removal + copy));
                if !(self.remove_afterwards && kind != PathKind::Other) {
                    assert(removal + copy == copy);
                }
            },
        }
    }

    fn push_children(&mut self, from: &str, to: &str, cs: &Vec<Child>)
        ensures
            final(self)@ == (TransferView {
                tasks: old(self)@.tasks + children_steps(
                    from@,
                    to@,
                    cs@.map_values(|c: Child| c@),
                ),
                ..old(self)@
            }),
    {
        let ghost t0 = self@;
        let ghost cv = cs@.map_values(|c: Child| c@);
        let mut i: usize = cs.len();
        assert(cv.subrange(i as int, cv.len() as int) == Seq::<(Seq<char>, bool)>::empty());
        assert(t0.tasks + Seq::<StepView>::empty() == t0.tasks);
        while i > 0
            invariant
                0 <= i <= cs@.len(),
                cv == cs@.map_values(|c: Child| c@),
                self@ == (TransferView {
                    tasks: t0.tasks + children_steps(
                        from@,
                        to@,
                        cv.subrange(i as int, cv.len() as int),
                    ),
                    ..t0
                }),
            decreases i,
        {
            let ghost before = self@.tasks;
            i = i - 1;
            let c = &cs[i];
            let f = join(from, c.name.as_str());
            let d = join(to, c.name.as_str());
            assert(cv[i as int] == (c.name@, c.is_dir));
            let ghost steps = child_steps(from@, to@, cv[i as int]);
            if c.is_dir {
                self.push_step(Step::ListDir { from: f, to: d.clone() });
                self.push_step(Step::CreateDir(d));
                assert(before.push(steps[0]).push(steps[1]) == before + steps);
            } else {
                self.push_step(Step::CopyFile { from: f, to: d });
                assert(before.push(steps[0]) == before + steps);
            }
            proof {
                let sub = cv.subrange(i as int, cv.len() as int);
                let prev = cv.subrange(i + 1, cv.len() as int);
                assert(sub.drop_first() == prev);
                assert(sub[0] == cv[i as int]);
                assert(children_steps(from@, to@, sub) == children_steps(from@, to@, prev) + steps);
                assert(t0.tasks + children_steps(from@, to@, prev) + steps == t0.tasks + (
                children_steps(from@, to@, prev) + steps));
            }
        }
        assert(cv.subrange(0, cv.len() as int) == cv);
    }

    /// Records the outcome of the current step and moves on to the next one.
    pub fn advance(&mut self, outcome: Outcome)
        requires
            transfer_wf(old(self)@),
        ensures
            final(self)@ == advance_spec(old(self)@, outcome@),
            transfer_wf(final(self)@),
    {
        let ghost t0 = self@;
        if self.tasks.len() == 0 {
            return;
        }
        let top = self.tasks.pop().unwrap();
        assert(self.tasks@.map_values(|s: Step| s@) == t0.tasks.drop_last());
        assert(top@ == t0.tasks.last());
        match top {
            Step::Probe(p) => {
                let kind = match outcome {
                    Outcome::Kind(k) => k,
                    _ => PathKind::Missing,
                };
                self.push_entry_steps(p, kind);
            },
            Step::CreateDir(_) => {
                match outcome {
                    Outcome::Failed(m) => self.fail(m),
                    _ => {},
                }
            },
            Step::CopyFile { .. } => {
                match outcome {
                    Outcome::Failed(m) => self.fail(m),
                    _ => {},
                }
            },
            Step::ListDir { from, to } => {
                match outcome {
                    Outcome::Listed(cs) => self.push_children(from.as_str(), to.as_str(), &cs),
                    Outcome::Failed(m) => self.fail(m),
                    _ => {},
                }
            },
            Step::Remove { path, is_dir } => {
                match outcome {
                    Outcome::Failed(m) => {
                        self.push_step(
                            Step::Report(Notice::RemoveFailed { path, is_dir, reason: m }),
                        );
                    },
                    _ => {},
                }
            },
            Step::Report(_) => {},
        }
        assert(self@.tasks == after_step(t0, outcome@));
        self.settle();
    }

    fn fail(&mut self, reason: String)
        ensures
            final(self)@ == (TransferView {
                tasks: seq![StepView::Report(NoticeView::CopyFailed(reason@))],
                ..old(self)@
            }),
    {
        self.tasks = Vec::new();
        assert(self.tasks@.map_values(|s: Step| s@) == Seq::<StepView>::empty());
        self.push_step(Step::Report(Notice::CopyFailed(reason)));
        assert(seq![StepView::Report(NoticeView::CopyFailed(reason@))]
            == Seq::<StepView>::empty().push(StepView::Report(NoticeView::CopyFailed(reason@))));
    }
}

/// A stack with no removal on it.
pub open spec fn no_removal(tasks: Seq<StepView>) -> bool {
    forall|i: int| 0 <= i < tasks.len() ==> !(#[trigger] tasks[i] is Remove)
}

proof fn lemma_children_no_removal(from: Seq<char>, to: Seq<char>, cs: Seq<(Seq<char>, bool)>)
    ensures
        no_removal(children_steps(from, to, cs)),
    decreases cs.len(),
{
    if cs.len() > 0 {
        lemma_children_no_removal(from, to, cs.drop_first());
        let a = children_steps(from, to, cs.drop_first());
        let b = child_steps(from, to, cs[0]);
        assert forall|i: int| 0 <= i < (a + b).len() implies !(#[trigger] (a + b)[i] is Remove) by {
            if i >= a.len() {
                assert((a + b)[i] == b[i - a.len()]);
            }
        }
    }
}

/// A stored path that no longer exists is reported and skipped, and the
/// transfer goes on with the next stored entry as if that one had not been
/// there: nothing is copied or removed for it, and nothing stops.
pub proof fn lemma_missing_entry_skipped(t: TransferView, p: Seq<char>)
    requires
        transfer_wf(t),
        t.tasks == seq![StepView::Probe(p)],
    ensures
        ({
            let t1 = advance_spec(t, OutcomeView::Kind(PathKind::Missing));
            &&& t1.tasks == seq![StepView::Report(NoticeView::Missing(p))]
            &&& t1.next == t.next
            &&& advance_spec(t1, OutcomeView::Done) == settle(
                TransferView { tasks: Seq::empty(), ..t },
            )
        }),
{
    let t1 = advance_spec(t, OutcomeView::Kind(PathKind::Missing));
    assert(t.tasks.drop_last() == Seq::<StepView>::empty());
    assert(Seq::<StepView>::empty() + seq![StepView::Report(NoticeView::Missing(p))] == seq![
        StepView::Report(NoticeView::Missing(p)),
    ]);
    assert(t1.tasks.drop_last() == Seq::<StepView>::empty());
}

/// A paste never removes anything: from a stack without removals, every
/// step leads to a stack without removals, and a paste starts with one.
pub proof fn lemma_paste_never_removes(t: TransferView, o: OutcomeView)
    requires
        !t.remove_afterwards,
        no_removal(t.tasks),
    ensures
        no_removal(advance_spec(t, o).tasks),
        no_removal(start_spec(t.target, false, t.entries).tasks),
{
    if t.tasks.len() > 0 {
        let rest = t.tasks.drop_last();
        assert forall|i: int| 0 <= i < rest.len() implies !(#[trigger] rest[i] is Remove) by {
            assert(rest[i] == t.tasks[i]);
        }
        let added: Seq<StepView> = match t.tasks.last() {
            StepView::Probe(p) => entry_steps(t.target, false, p, probe_kind(o)),
            StepView::ListDir(from, to) => match o {
                OutcomeView::Listed(cs) => children_steps(from, to, cs),
                _ => Seq::empty(),
            },
            _ => Seq::empty(),
        };
        if let StepView::ListDir(from, to) = t.tasks.last() {
            if let OutcomeView::Listed(cs) = o {
                lemma_children_no_removal(from, to, cs);
            }
        }
        assert(t.tasks[t.tasks.len() - 1] == t.tasks.last());
        assert(no_removal(added));
        assert forall|i: int| 0 <= i < (rest + added).len() implies !(
        #[trigger] (rest + added)[i] is Remove) by {
            if i >= rest.len() {
                assert((rest + added)[i] == added[i - rest.len()]);
            } else {
                assert((rest + added)[i] == rest[i]);
            }
        }
        let u = after_step(t, o);
        assert(no_removal(u));
        if u.len() == 0 && 0 <= t.next < t.entries.len() {
            assert(settle(TransferView { tasks: u, ..t }).tasks == seq![
                StepView::Probe(t.entries[t.next]),
            ]);
        }
    }
}

/// In a move, an existing file or directory that has a name is first copied
/// into the target under that name, and removed only once every copy step
/// above its removal on the stack has succeeded.
pub proof fn lemma_move_removes_after_copy(t: TransferView, p: Seq<char>, kind: PathKind)
    requires
        t.remove_afterwards,
        t.tasks == seq![StepView::Probe(p)],
        kind == PathKind::File || kind == PathKind::Dir,
        base_name_spec(p) is Some,
    ensures
        advance_spec(t, OutcomeView::Kind(kind)).tasks == seq![
            StepView::Remove(p, kind == PathKind::Dir),
        ] + copy_steps(p, join_spec(t.target, base_name_spec(p)->0), kind),
{
    assert(t.tasks.drop_last() == Seq::<StepView>::empty());
    let e = entry_steps(t.target, true, p, kind);
    assert(Seq::<StepView>::empty() + e == e);
}

/// A failed copy, listing or directory creation ends the entry: what is left
/// of it, the removal of the original in a move included, is dropped and the
/// reason is reported.
pub proof fn lemma_copy_failure_keeps_original(t: TransferView, m: Seq<char>)
    requires
        t.tasks.len() > 0,
        t.tasks.last() is CreateDir || t.tasks.last() is CopyFile || t.tasks.last() is ListDir,
    ensures
        advance_spec(t, OutcomeView::Failed(m)).tasks == seq![
            StepView::Report(NoticeView::CopyFailed(m)),
        ],
        no_removal(advance_spec(t, OutcomeView::Failed(m)).tasks),
{
}

/// The step that takes up the child `c` of `from`: a subdirectory is listed
/// into its namesake below `to`, a file copied there.
pub open spec fn child_step(from: Seq<char>, to: Seq<char>, c: (Seq<char>, bool)) -> StepView {
    if c.1 {
        StepView::ListDir(join_spec(from, c.0), join_spec(to, c.0))
    } else {
        StepView::CopyFile(join_spec(from, c.0), join_spec(to, c.0))
    }
}

/// `s` is one of the steps that copy the child `c` of `from` to `to`.
pub open spec fn copies_child(from: Seq<char>, to: Seq<char>, c: (Seq<char>, bool), s: StepView) -> bool {
    let f = join_spec(from, c.0);
    let d = join_spec(to, c.0);
    if c.1 {
        s == StepView::ListDir(f, d) || s == StepView::CreateDir(d)
    } else {
        s == StepView::CopyFile(f, d)
    }
}

proof fn lemma_children_steps_cover(from: Seq<char>, to: Seq<char>, cs: Seq<(Seq<char>, bool)>)
    ensures
        forall|k: int|
            0 <= k < children_steps(from, to, cs).len() ==> exists|i: int|
                0 <= i < cs.len() && copies_child(
                    from,
                    to,
                    cs[i],
                    #[trigger] children_steps(from, to, cs)[k],
                ),
        forall|i: int|
            0 <= i < cs.len() ==> exists|k: int|
                0 <= k < children_steps(from, to, cs).len() && #[trigger] children_steps(
                    from,
                    to,
                    cs,
                )[k] == child_step(from, to, #[trigger] cs[i]),
    decreases cs.len(),
{
    if cs.len() > 0 {
        let tail = cs.drop_first();
        lemma_children_steps_cover(from, to, tail);
        let a = children_steps(from, to, tail);
        let b = child_steps(from, to, cs[0]);
        let all = children_steps(from, to, cs);
        assert(all == a + b);
        assert forall|k: int| 0 <= k < all.len() implies exists|i: int|
            0 <= i < cs.len() && copies_child(from, to, cs[i], #[trigger] all[k]) by {
            if k < a.len() {
                assert(all[k] == a[k]);
                let j = choose|j: int| 0 <= j < tail.len() && copies_child(from, to, tail[j], a[k]);
                assert(tail[j] == cs[j + 1]);
            } else {
                assert(all[k] == b[k - a.len()]);
                assert(copies_child(from, to, cs[0], all[k]));
            }
        }
        assert forall|i: int| 0 <= i < cs.len() implies exists|k: int|
            0 <= k < all.len() && #[trigger] all[k] == child_step(from, to, #[trigger] cs[i]) by {
            if i == 0 {
                assert(all[a.len() as int] == b[0]);
            } else {
                assert(cs[i] == tail[i - 1]);
                let k = choose|k: int| 0 <= k < a.len() && #[trigger] a[k] == child_step(from, to, tail[i - 1]);
                assert(all[k] == a[k]);
            }
        }
    }
}

/// Copies keep the layout of what they copy: once the directory `from` has
/// been listed, every child is taken up under its own name at the same place
/// below `to` (a subdirectory to be created and listed in turn, a file to be
/// copied), and nothing else is added. (When nothing at all is left, the
/// transfer then goes on to the next entry, see `advance_spec`.)
pub proof fn lemma_listing_keeps_names(t: TransferView, cs: Seq<(Seq<char>, bool)>)
    requires
        t.tasks.len() > 0,
        t.tasks.last() is ListDir,
    ensures
        ({
            let from = t.tasks.last()->ListDir_0;
            let to = t.tasks.last()->ListDir_1;
            let added = children_steps(from, to, cs);
            &&& after_step(t, OutcomeView::Listed(cs)) == t.tasks.drop_last() + added
            &&& forall|k: int|
                0 <= k < added.len() ==> exists|i: int|
                    0 <= i < cs.len() && copies_child(from, to, cs[i], #[trigger] added[k])
            &&& forall|i: int|
                0 <= i < cs.len() ==> exists|k: int|
                    0 <= k < added.len() && #[trigger] added[k] == child_step(from, to, #[trigger] cs[i])
        }),
{
    let from = t.tasks.last()->ListDir_0;
    let to = t.tasks.last()->ListDir_1;
    lemma_children_steps_cover(from, to, cs);
}

} // verus!
