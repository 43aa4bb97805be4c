//! The decisions of the render loop: what text to show, which refresh request
//! to make, and when one iteration is over.
//!
//! The loop itself, with the drawing and the driver calls, is run by the caller.
use vstd::prelude::*;
use vstd::array::array_as_slice;
use vstd::string::StringSliceAdditionalSpecFns;
use vstd::utf8::is_ascii_chars_encode_utf8;
use crate::refresh::{RefreshAction, RefreshController, RefreshState, DriverError, action_for, advance};
use crate::write_to::{FormatError, Piece, decimal, render, show};

verus! {

/// The bytes of the label put in front of the counter: `count: `.
pub open spec fn count_label() -> Seq<u8> {
    seq![99u8, 111u8, 117u8, 110u8, 116u8, 58u8, 32u8]
}

/// The counter's value after `count`: one more, wrapping to zero past the largest value.
pub open spec fn next_count_spec(count: u32) -> u32 {
    if count == u32::MAX {
        0
    } else {
        (count + 1) as u32
    }
}

/// The counter's value after `count`, wrapping silently past the largest value.
pub fn next_count(count: u32) -> (r: u32)
    ensures
        r == next_count_spec(count),
{
    count.wrapping_add(1)
}

/// Renders `count: <count>` into `buffer` and views it as text.
pub fn format_count<'a>(buffer: &'a mut [u8], count: u32) -> (r: Result<&'a str, FormatError>)
    requires
        old(buffer)@.len() < usize::MAX,
    ensures
        r is Ok <==> count_label().len() + decimal(count as nat).len() <= old(buffer)@.len(),
        r matches Ok(s) ==> s.spec_bytes() == count_label() + decimal(count as nat),
        r is Err ==> r == Err::<&'a str, FormatError>(FormatError::Overflow),
        final(buffer)@.len() == old(buffer)@.len(),
        r matches Ok(s) ==> final(buffer)@.subrange(0, s.spec_bytes().len() as int)
            == s.spec_bytes(),
        forall|i: int|
            count_label().len() + decimal(count as nat).len() <= i < old(buffer)@.len()
                ==> #[trigger] final(buffer)@[i] == old(buffer)@[i],
{
    let label = "count: ";
    let pieces: [Piece; 2] = [Piece::Text(label), Piece::Uint(count)];
    proof {
        reveal_strlit("count: ");
        is_ascii_chars_encode_utf8(label@);
        assert(label.spec_bytes() =~= count_label());
        let ps = pieces@;
        assert(ps.len() == 2);
        assert(ps[0] == Piece::Text(label));
        assert(ps[1] == Piece::Uint(count));
        assert(ps.drop_last().drop_last() =~= Seq::<Piece>::empty());
        reveal_with_fuel(render, 3);
        assert(render(ps.drop_last()) =~= label.spec_bytes());
        assert(render(ps) =~= count_label() + decimal(count as nat));
    }
    show(buffer, array_as_slice(&pieces))
}

/// How an iteration goes on after a driver request.
#[derive(Clone, Copy, Debug, PartialEq, Eq, Structural)]
pub enum IterationStep {
    /// A start-up request succeeded: make the next request in this iteration.
    Continue,
    /// The iteration is over: the partial refresh was made, or a request failed.
    Done,
}

/// The state threaded through the render loop: the counter and the refresh protocol.
pub struct RenderLoop {
    count: u32,
    controller: RefreshController,
}

impl RenderLoop {
    pub closed spec fn count_spec(&self) -> u32 {
        self.count
    }

    pub closed spec fn controller_spec(&self) -> RefreshController {
        self.controller
    }

    pub open spec fn wf(&self) -> bool {
        self.controller_spec().wf()
    }

    pub fn new() -> (r: Self)
        ensures
            r.wf(),
            r.count_spec() == 0,
            r.controller_spec().state_spec() == RefreshState::Uninitialized,
            r.controller_spec().history() == Seq::<RefreshAction>::empty(),
    {
        RenderLoop { count: 0, controller: RefreshController::new() }
    }

    pub fn count(&self) -> (r: u32)
        ensures
            r == self.count_spec(),
    {
        self.count
    }

    pub fn controller(&self) -> (r: &RefreshController)
        ensures
            r == self.controller_spec(),
    {
        &self.controller
    }

    /// The driver request to make next.
    pub fn next_action(&self) -> (r: RefreshAction)
        ensures
            r == action_for(self.controller_spec().state_spec()),
    {
        self.controller.next_action()
    }

    /// Takes the outcome of the request that `next_action` named.
    ///
    /// The iteration ends after the partial refresh or after a failed request;
    /// the counter then moves on. Only a successful start-up request lets the
    /// iteration go on.
    pub fn record(&mut self, outcome: Result<(), DriverError>) -> (r: IterationStep)
        requires
            old(self).wf(),
        ensures
            final(self).wf(),
            outcome is Ok ==> final(self).controller_spec().state_spec() == advance(
                old(self).controller_spec().state_spec(),
            ),
            outcome is Ok ==> final(self).controller_spec().history() == old(
                self,
            ).controller_spec().history().push(
                action_for(old(self).controller_spec().state_spec()),
            ),
            outcome is Err ==> final(self).controller_spec().state_spec() == old(
                self,
            ).controller_spec().state_spec(),
            outcome is Err ==> final(self).controller_spec().history() == old(
                self,
            ).controller_spec().history(),
            r == IterationStep::Done <==> (outcome is Err
                || old(self).controller_spec().state_spec() == RefreshState::Steady),
            r == IterationStep::Done ==> final(self).count_spec() == next_count_spec(
                old(self).count_spec(),
            ),
            r == IterationStep::Continue ==> final(self).count_spec() == old(self).count_spec(),
    {
        let was_steady = match self.controller.state() {
            RefreshState::Steady => true,
            _ => false,
        };
        let res = self.controller.record(outcome);
        if res.is_err() || was_steady {
            self.count = next_count(self.count);
            IterationStep::Done
        } else {
            IterationStep::Continue
        }
    }
}

} // verus!
