//! The decisions of watch mode: when a rebuild starts, and when the process may exit.

use vstd::prelude::*;
use crate::fragments::FragmentSet;

verus! {

/// What the file watcher reports about the source directory.
#[derive(Debug, Clone, Copy, PartialEq, Eq, Structural)]
pub enum ChangeKind {
    /// A file appeared.
    Created,
    /// A file's content changed.
    ContentChanged,
    /// A file disappeared.
    Removed,
    /// A file was renamed.
    Renamed,
    /// Anything else; it triggers nothing.
    Other,
}

impl ChangeKind {
    /// The change calls for a rebuild.
    pub open spec fn qualifies(self) -> bool {
        self != ChangeKind::Other
    }

    /// The change may have altered which fragments the directory holds, so
    /// that the directory has to be listed again.
    pub open spec fn changes_membership(self) -> bool {
        self == ChangeKind::Created || self == ChangeKind::Removed || self == ChangeKind::Renamed
    }

    /// Whether the change may have altered which fragments the directory holds.
    pub fn alters_membership(self) -> (alters: bool)
        ensures
            alters == self.changes_membership(),
    {
        match self {
            ChangeKind::Created | ChangeKind::Removed | ChangeKind::Renamed => true,
            ChangeKind::ContentChanged | ChangeKind::Other => false,
        }
    }
}

/// What the caller has to do next.
#[derive(Debug, Clone, Copy, PartialEq, Eq, Structural)]
pub enum Directive {
    /// Nothing; the controller's state did not change.
    Ignore,
    /// Nothing now: a rebuild is running, and the change waits for its end.
    Defer,
    /// Run a rebuild, after listing the directory again where `relist` is set,
    /// and report its end.
    Rebuild { relist: bool },
    /// Nothing: no rebuild is running any more.
    Idle,
}

/// The state that the event path and the shutdown path share.
pub struct WatchState {
    /// A rebuild is running.
    pub compiling: bool,
    /// Shutdown was requested.
    pub shutting_down: bool,
    /// The changes that arrived while a rebuild was running, oldest first.
    pub pending: Seq<ChangeKind>,
    /// The fragment names that were resolved last.
    pub fragments: Seq<Seq<u8>>,
}

/// The state after a change was reported, and what to do about it.
///
/// A change that does not qualify, or that arrives after shutdown was
/// requested, is dropped. While a rebuild runs, a change waits. Otherwise it
/// starts a rebuild.
pub open spec fn on_change(s: WatchState, kind: ChangeKind) -> (WatchState, Directive) {
    if !kind.qualifies() || s.shutting_down {
        (s, Directive::Ignore)
    } else if s.compiling {
        (WatchState { pending: s.pending.push(kind), ..s }, Directive::Defer)
    } else {
        (WatchState { compiling: true, ..s }, Directive::Rebuild { relist: kind.changes_membership() })
    }
}

/// The state after the running rebuild ended, and what to do next; `resolved`
/// holds the fragment names where the directory was listed again.
///
/// With no rebuild running the report is dropped. Otherwise the oldest waiting
/// change starts the next rebuild, unless shutdown was requested or no change
/// waits: then no rebuild runs any more.
pub open spec fn on_finished(s: WatchState, resolved: Option<Seq<Seq<u8>>>) -> (
    WatchState,
    Directive,
) {
    if !s.compiling {
        (s, Directive::Ignore)
    } else {
        let fragments = match resolved {
            Some(names) => names,
            None => s.fragments,
        };
        if s.shutting_down || s.pending.len() == 0 {
            (WatchState { compiling: false, fragments, ..s }, Directive::Idle)
        } else {
            (
                WatchState { pending: s.pending.drop_first(), fragments, ..s },
                Directive::Rebuild { relist: s.pending[0].changes_membership() },
            )
        }
    }
}

/// The state after shutdown was requested.
pub open spec fn on_shutdown_request(s: WatchState) -> WatchState {
    WatchState { shutting_down: true, ..s }
}

/// The process may exit: shutdown was requested and no rebuild is running.
pub open spec fn may_exit(s: WatchState) -> bool {
    s.shutting_down && !s.compiling
}

/// Serialises rebuilds and holds back the exit while one is running.
#[derive(Debug)]
pub struct WatchController {
    compiling: bool,
    shutting_down: bool,
    pending: Vec<ChangeKind>,
    fragments: FragmentSet,
}

impl View for WatchController {
    type V = WatchState;

    closed spec fn view(&self) -> WatchState {
        WatchState {
            compiling: self.compiling,
            shutting_down: self.shutting_down,
            pending: self.pending@,
            fragments: self.fragments@,
        }
    }
}

impl WatchController {
    /// The fragment set that the controller holds is a valid one.
    pub closed spec fn wf(&self) -> bool {
        self.fragments.wf()
    }

    /// A controller at rest, after the initial build of `fragments`.
    pub fn new(fragments: FragmentSet) -> (controller: WatchController)
        requires
            fragments.wf(),
        ensures
            controller.wf(),
            controller@ == (WatchState {
                compiling: false,
                shutting_down: false,
                pending: Seq::empty(),
                fragments: fragments@,
            }),
    {
        WatchController { compiling: false, shutting_down: false, pending: Vec::new(), fragments }
    }

    /// Takes a change that the watcher reported.
    pub fn notify(&mut self, kind: ChangeKind) -> (directive: Directive)
        requires
            old(self).wf(),
        ensures
            final(self).wf(),
            (final(self)@, directive) == on_change(old(self)@, kind),
    {
        if matches!(kind, ChangeKind::Other) || self.shutting_down {
            Directive::Ignore
        } else if self.compiling {
            self.pending.push(kind);
            Directive::Defer
        } else {
            self.compiling = true;
            Directive::Rebuild { relist: kind.alters_membership() }
        }
    }

    /// Takes the end of the running rebuild, whether it succeeded or failed;
    /// `resolved` is the fragment set where the directory was listed again
    /// and fragments were found.
    pub fn finish(&mut self, resolved: Option<FragmentSet>) -> (directive: Directive)
        requires
            old(self).wf(),
            resolved matches Some(set) ==> set.wf(),
        ensures
            final(self).wf(),
            (final(self)@, directive) == on_finished(
                old(self)@,
                match resolved {
                    Some(set) => Some(set@),
                    None => None,
                },
            ),
    {
        if !self.compiling {
            return Directive::Ignore;
        }
        if let Some(set) = resolved {
            self.fragments = set;
        }
        if self.shutting_down || self.pending.len() == 0 {
            self.compiling = false;
            Directive::Idle
        } else {
            let next = self.pending.remove(0);
            assert(self.pending@ =~= old(self).pending@.drop_first());
            Directive::Rebuild { relist: next.alters_membership() }
        }
    }

    /// Takes a request to shut down, and says whether the process may exit at
    /// once. Where it may not, the caller polls `may_exit`.
    pub fn request_shutdown(&mut self) -> (exit: bool)
        requires
            old(self).wf(),
        ensures
            final(self).wf(),
            final(self)@ == on_shutdown_request(old(self)@),
            exit == may_exit(final(self)@),
    {
        self.shutting_down = true;
        !self.compiling
    }

    /// Whether the process may exit now.
    pub fn may_exit(&self) -> (exit: bool)
        ensures
            exit == may_exit(self@),
    {
        self.shutting_down && !self.compiling
    }

    /// Whether a rebuild is running.
    pub fn is_compiling(&self) -> (compiling: bool)
        ensures
            compiling == self@.compiling,
    {
        self.compiling
    }

    /// Whether shutdown was requested.
    pub fn is_shutting_down(&self) -> (shutting_down: bool)
        ensures
            shutting_down == self@.shutting_down,
    {
        self.shutting_down
    }

    /// How many changes wait for the running rebuild to end.
    pub fn pending_len(&self) -> (n: usize)
        ensures
            n == self@.pending.len(),
    {
        self.pending.len()
    }

    /// The fragment set that was resolved last.
    pub fn fragments(&self) -> (set: &FragmentSet)
        requires
            self.wf(),
        ensures
            set.wf(),
            set@ == self@.fragments,
    {
        &self.fragments
    }
}

/// What can reach the controller.
pub enum WatchInput {
    /// The watcher reported a change.
    Change { kind: ChangeKind },
    /// The running rebuild ended.
    Finished { resolved: Option<Seq<Seq<u8>>> },
    /// Shutdown was requested.
    ShutdownRequested,
}

/// The state after one input.
pub open spec fn step(s: WatchState, input: WatchInput) -> WatchState {
    match input {
        WatchInput::Change { kind } => on_change(s, kind).0,
        WatchInput::Finished { resolved } => on_finished(s, resolved).0,
        WatchInput::ShutdownRequested => on_shutdown_request(s),
    }
}

/// The input makes the caller start a rebuild.
pub open spec fn starts_rebuild(s: WatchState, input: WatchInput) -> bool {
    match input {
        WatchInput::Change { kind } => on_change(s, kind).1 is Rebuild,
        WatchInput::Finished { resolved } => on_finished(s, resolved).1 is Rebuild,
        WatchInput::ShutdownRequested => false,
    }
}

/// The input reports the end of the rebuild that is running.
pub open spec fn completes_rebuild(s: WatchState, input: WatchInput) -> bool {
    input is Finished && s.compiling
}

/// The state after all of `inputs`, taken in their order.
pub open spec fn run(s: WatchState, inputs: Seq<WatchInput>) -> WatchState
    decreases inputs.len(),
{
    if inputs.len() == 0 {
        s
    } else {
        step(run(s, inputs.drop_last()), inputs.last())
    }
}

/// How many rebuilds `inputs` made the caller start.
pub open spec fn rebuilds_started(s: WatchState, inputs: Seq<WatchInput>) -> nat
    decreases inputs.len(),
{
    if inputs.len() == 0 {
        0
    } else {
        let before = inputs.drop_last();
        rebuilds_started(s, before) + if starts_rebuild(run(s, before), inputs.last()) {
            1nat
        } else {
            0nat
        }
    }
}

/// How many rebuilds `inputs` reported as ended.
pub open spec fn rebuilds_completed(s: WatchState, inputs: Seq<WatchInput>) -> nat
    decreases inputs.len(),
{
    if inputs.len() == 0 {
        0
    } else {
        let before = inputs.drop_last();
        rebuilds_completed(s, before) + if completes_rebuild(run(s, before), inputs.last()) {
            1nat
        } else {
            0nat
        }
    }
}

/// A rebuild starts only when none is running, or in the very step that
/// takes the end of the one that was.
pub proof fn lemma_rebuild_starts_at_rest(s: WatchState, input: WatchInput)
    requires
        starts_rebuild(s, input),
    ensures
        !s.compiling || completes_rebuild(s, input),
        step(s, input).compiling,
{
}

/// At most one rebuild is under way at any time: whatever reaches a
/// controller that began at rest, the rebuilds started exceed the rebuilds
/// ended by one while the compiling flag is set, and by none while it is not.
pub proof fn lemma_one_rebuild_at_a_time(s: WatchState, inputs: Seq<WatchInput>)
    requires
        !s.compiling,
    ensures
        rebuilds_started(s, inputs) - rebuilds_completed(s, inputs) == if run(s, inputs).compiling {
            1int
        } else {
            0int
        },
    decreases inputs.len(),
{
    if inputs.len() > 0 {
        lemma_one_rebuild_at_a_time(s, inputs.drop_last());
    }
}

/// The exit waits for the rebuild: when a controller that began at rest
/// lets the process exit, every rebuild that was started has ended.
pub proof fn lemma_exit_waits_for_rebuild(s: WatchState, inputs: Seq<WatchInput>)
    requires
        !s.compiling,
        may_exit(run(s, inputs)),
    ensures
        rebuilds_started(s, inputs) == rebuilds_completed(s, inputs),
{
    lemma_one_rebuild_at_a_time(s, inputs);
}

/// Once shutdown was requested, no input starts a rebuild, and the request stands.
pub proof fn lemma_no_rebuild_after_shutdown(s: WatchState, input: WatchInput)
    requires
        s.shutting_down,
    ensures
        !starts_rebuild(s, input),
        step(s, input).shutting_down,
{
}

/// A shutdown request alone never ends a rebuild: the exit is open after it
/// only where no rebuild was running.
pub proof fn lemma_shutdown_defers_to_rebuild(s: WatchState)
    ensures
        may_exit(on_shutdown_request(s)) == !s.compiling,
        on_shutdown_request(s).compiling == s.compiling,
{
}

} // verus!
