//! The panel's two-phase refresh protocol as an explicit state machine.
//!
//! The controller decides which driver request comes next; the caller performs
//! it and reports the outcome back, so no transport is ever touched here.
use vstd::prelude::*;

verus! {

/// Where the panel stands in the refresh protocol.
#[derive(Clone, Copy, Debug, PartialEq, Eq, Structural)]
pub enum RefreshState {
    /// No frame has been pushed yet.
    Uninitialized,
    /// The reference frame is pushed; a full refresh must come next.
    FullFramePending,
    /// A full refresh has committed a frame; partial refreshes follow.
    Steady,
}

/// A request to the display driver.
#[derive(Clone, Copy, Debug, PartialEq, Eq, Structural)]
pub enum RefreshAction {
    /// Push the frame as the panel's comparison frame, with no visible redraw.
    CommitReferenceFrame,
    /// Commit the frame and redraw the whole panel.
    FullRefresh,
    /// Commit the frame and redraw only what changed.
    PartialRefresh,
}

/// The driver failed to push a frame or to read the panel's readiness.
#[derive(Clone, Copy, Debug, PartialEq, Eq, Structural)]
pub enum DriverError {
    Transport,
}

/// The request that the protocol asks for in state `s`.
pub open spec fn action_for(s: RefreshState) -> RefreshAction {
    match s {
        RefreshState::Uninitialized => RefreshAction::CommitReferenceFrame,
        RefreshState::FullFramePending => RefreshAction::FullRefresh,
        RefreshState::Steady => RefreshAction::PartialRefresh,
    }
}

/// The state after the request of state `s` succeeded.
pub open spec fn advance(s: RefreshState) -> RefreshState {
    match s {
        RefreshState::Uninitialized => RefreshState::FullFramePending,
        RefreshState::FullFramePending => RefreshState::Steady,
        RefreshState::Steady => RefreshState::Steady,
    }
}

/// A history of succeeded requests that follows the protocol: one reference
/// frame, then one full refresh, then partial refreshes only.
pub open spec fn well_ordered(h: Seq<RefreshAction>) -> bool {
    &&& h.len() >= 1 ==> h[0] == RefreshAction::CommitReferenceFrame
    &&& h.len() >= 2 ==> h[1] == RefreshAction::FullRefresh
    &&& forall|i: int| 2 <= i < h.len() ==> #[trigger] h[i] == RefreshAction::PartialRefresh
}

/// The state that a well-ordered history of succeeded requests leads to.
pub open spec fn state_after(h: Seq<RefreshAction>) -> RefreshState {
    if h.len() == 0 {
        RefreshState::Uninitialized
    } else if h.len() == 1 {
        RefreshState::FullFramePending
    } else {
        RefreshState::Steady
    }
}

/// Decides the driver requests of the refresh protocol and tracks their success.
pub struct RefreshController {
    state: RefreshState,
    succeeded: Ghost<Seq<RefreshAction>>,
}

impl RefreshController {
    pub closed spec fn state_spec(&self) -> RefreshState {
        self.state
    }

    /// The driver requests that succeeded so far, in order.
    pub closed spec fn history(&self) -> Seq<RefreshAction> {
        self.succeeded@
    }

    pub open spec fn wf(&self) -> bool {
        &&& well_ordered(self.history())
        &&& self.state_spec() == state_after(self.history())
    }

    pub fn new() -> (r: Self)
        ensures
            r.wf(),
            r.state_spec() == RefreshState::Uninitialized,
            r.history() == Seq::<RefreshAction>::empty(),
    {
        RefreshController { state: RefreshState::Uninitialized, succeeded: Ghost(Seq::empty()) }
    }

    pub fn state(&self) -> (r: RefreshState)
        ensures
            r == self.state_spec(),
    {
        self.state
    }

    /// The request that the caller must perform next.
    pub fn next_action(&self) -> (r: RefreshAction)
        ensures
            r == action_for(self.state_spec()),
    {
        match self.state {
            RefreshState::Uninitialized => RefreshAction::CommitReferenceFrame,
            RefreshState::FullFramePending => RefreshAction::FullRefresh,
            RefreshState::Steady => RefreshAction::PartialRefresh,
        }
    }

    /// Takes the outcome of the request that `next_action` named.
    ///
    /// A success moves the protocol on; a failure leaves the state as it was
    /// and is handed back to the caller.
    pub fn record(&mut self, outcome: Result<(), DriverError>) -> (r: Result<(), DriverError>)
        requires
            old(self).wf(),
        ensures
            final(self).wf(),
            r == outcome,
            outcome is Ok ==> final(self).state_spec() == advance(old(self).state_spec()),
            outcome is Ok ==> final(self).history() == old(self).history().push(
                action_for(old(self).state_spec()),
            ),
            outcome is Err ==> final(self).state_spec() == old(self).state_spec(),
            outcome is Err ==> final(self).history() == old(self).history(),
    {
        if outcome.is_ok() {
            let ghost h = self.succeeded@.push(action_for(self.state));
            self.state =
            match self.state {
                RefreshState::Uninitialized => RefreshState::FullFramePending,
                RefreshState::FullFramePending => RefreshState::Steady,
                RefreshState::Steady => RefreshState::Steady,
            };
            self.succeeded = Ghost(h);
        }
        outcome
    }
}

/// A partial refresh is only ever requested once exactly one reference frame
/// and then one full refresh have succeeded, and nothing but partial refreshes
/// has succeeded since.
pub proof fn lemma_partial_only_after_startup(c: RefreshController)
    requires
        c.wf(),
        action_for(c.state_spec()) == RefreshAction::PartialRefresh,
    ensures
        c.history().len() >= 2,
        c.history()[0] == RefreshAction::CommitReferenceFrame,
        c.history()[1] == RefreshAction::FullRefresh,
        forall|i: int|
            2 <= i < c.history().len() ==> #[trigger] c.history()[i]
                == RefreshAction::PartialRefresh,
        c.history().filter(|a: RefreshAction| a == RefreshAction::CommitReferenceFrame).len()
            == 1,
        c.history().filter(|a: RefreshAction| a == RefreshAction::FullRefresh).len() == 1,
{
    let h = c.history();
    lemma_count_startup(h, h.len() as int);
    assert(h.subrange(0, h.len() as int) =~= h);
}

proof fn lemma_count_startup(h: Seq<RefreshAction>, n: int)
    requires
        well_ordered(h),
        2 <= n <= h.len(),
    ensures
        h.subrange(0, n).filter(|a: RefreshAction| a == RefreshAction::CommitReferenceFrame).len()
            == 1,
        h.subrange(0, n).filter(|a: RefreshAction| a == RefreshAction::FullRefresh).len() == 1,
    decreases n,
{
    let p = h.subrange(0, n);
    let f1 = |a: RefreshAction| a == RefreshAction::CommitReferenceFrame;
    let f2 = |a: RefreshAction| a == RefreshAction::FullRefresh;
    reveal(Seq::filter);
    if n == 2 {
        assert(p.drop_last() =~= seq![RefreshAction::CommitReferenceFrame]);
        assert(p.drop_last().drop_last() =~= Seq::<RefreshAction>::empty());
        assert(p.drop_last().filter(f1) =~= seq![RefreshAction::CommitReferenceFrame]) by {
            assert(p.drop_last().drop_last().filter(f1) =~= Seq::<RefreshAction>::empty());
        };
        assert(p.drop_last().filter(f2) =~= Seq::<RefreshAction>::empty()) by {
            assert(p.drop_last().drop_last().filter(f2) =~= Seq::<RefreshAction>::empty());
        };
    } else {
        lemma_count_startup(h, n - 1);
        assert(p.drop_last() =~= h.subrange(0, n - 1));
        assert(p.last() == RefreshAction::PartialRefresh);
    }
}

} // verus!
