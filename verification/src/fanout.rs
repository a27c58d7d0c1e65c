use crate::client::ClientView;
use crate::format::encode_message;
use crate::messages::{MessageView, UserId};
use crate::transport::{outcomes, DispatchView, SignalView};
use vstd::prelude::*;

verus! {

/// The frame that tells a board that the member with this id is gone.
pub open spec fn leave_frame(user_id: UserId) -> Seq<u8> {
    encode_message(MessageView::UserLeave { user_id })
}

/// The leave frames of the members with these ids, in order.
pub open spec fn leave_frames(ids: Seq<UserId>) -> Seq<Seq<u8>> {
    Seq::new(ids.len(), |i: int| leave_frame(ids[i]))
}

/// A seat on a board as a mathematical value: the id that the board gave, and the connection
/// as it was when it was seated.
pub struct SeatView {
    pub id: UserId,
    pub client: ClientView,
}

impl SeatView {
    /// The call that hands `frame` to the channel of this seat.
    pub open spec fn call(self, frame: Seq<u8>, accepted: bool) -> DispatchView {
        DispatchView {
            out: self.client.out,
            to: Some(self.id),
            signal: SignalView::Frame(frame),
            accepted,
        }
    }
}

/// One sweep over a roster: the frame is handed to every entry, in order. `flags` says, entry
/// by entry, whether the channel took it.
pub open spec fn sweep_trace(roster: Seq<SeatView>, frame: Seq<u8>, flags: Seq<bool>) -> Seq<
    DispatchView,
> {
    Seq::new(roster.len(), |i: int| roster[i].call(frame, flags[i]))
}

/// The entries whose channel took the frame, in their old order.
pub open spec fn survivors(roster: Seq<SeatView>, flags: Seq<bool>) -> Seq<SeatView>
    decreases roster.len(),
{
    if roster.len() == 0 {
        Seq::empty()
    } else {
        let before = survivors(roster.drop_last(), flags);
        if flags[roster.len() - 1] {
            before.push(roster.last())
        } else {
            before
        }
    }
}

/// The ids of the entries whose channel refused the frame, in their old order.
pub open spec fn casualties(roster: Seq<SeatView>, flags: Seq<bool>) -> Seq<UserId>
    decreases roster.len(),
{
    if roster.len() == 0 {
        Seq::empty()
    } else {
        let before = casualties(roster.drop_last(), flags);
        if flags[roster.len() - 1] {
            before
        } else {
            before.push(roster.last().id)
        }
    }
}

/// A sweep parts the roster in two.
pub proof fn sweep_parts(roster: Seq<SeatView>, flags: Seq<bool>)
    ensures
        survivors(roster, flags).len() + casualties(roster, flags).len() == roster.len(),
    decreases roster.len(),
{
    if roster.len() > 0 {
        sweep_parts(roster.drop_last(), flags);
    }
}

/// A sweep looks at no more flags than the roster has entries.
pub proof fn sweep_reads_prefix(
    roster: Seq<SeatView>,
    frame: Seq<u8>,
    f: Seq<bool>,
    g: Seq<bool>,
)
    requires
        forall|i: int| 0 <= i < roster.len() ==> f[i] == g[i],
    ensures
        survivors(roster, f) == survivors(roster, g),
        casualties(roster, f) == casualties(roster, g),
        sweep_trace(roster, frame, f) == sweep_trace(roster, frame, g),
    decreases roster.len(),
{
    if roster.len() > 0 {
        sweep_reads_prefix(roster.drop_last(), frame, f, g);
    }
    assert(sweep_trace(roster, frame, f) =~= sweep_trace(roster, frame, g));
}

/// What a broadcast leaves behind: the roster, and the calls that were made.
pub struct FanOut {
    pub roster: Seq<SeatView>,
    pub trace: Seq<DispatchView>,
}

/// Works off the frames in `pending`, first one first. Each is swept over the roster as it then
/// stands. The entries that refuse it leave the roster, and their leave frames go to the head
/// of `pending`, so that the survivors hear of every loss before anything else is sent.
/// `flags` says, call by call, whether the channel took the frame.
pub open spec fn drain(roster: Seq<SeatView>, pending: Seq<Seq<u8>>, flags: Seq<bool>) -> FanOut
    decreases roster.len(), pending.len(),
{
    if pending.len() == 0 {
        FanOut { roster, trace: Seq::empty() }
    } else {
        proof {
            sweep_parts(roster, flags);
        }
        let rest = drain(
            survivors(roster, flags),
            leave_frames(casualties(roster, flags)) + pending.drop_first(),
            flags.skip(roster.len() as int),
        );
        FanOut { roster: rest.roster, trace: sweep_trace(roster, pending[0], flags) + rest.trace }
    }
}

/// Whether a broadcast that started from `roster0` with `pending0`, and has made the calls in
/// `done`, goes on from `roster` with `pending` as if it had started there.
pub(crate) open spec fn carries(
    roster0: Seq<SeatView>,
    pending0: Seq<Seq<u8>>,
    done: Seq<DispatchView>,
    roster: Seq<SeatView>,
    pending: Seq<Seq<u8>>,
) -> bool {
    forall|g: Seq<bool>|
        drain(roster0, pending0, outcomes(done) + g) == (FanOut {
            roster: (#[trigger] drain(roster, pending, g)).roster,
            trace: done + drain(roster, pending, g).trace,
        })
}

/// A broadcast that has done nothing goes on from where it started.
pub(crate) proof fn carries_at_start(roster: Seq<SeatView>, pending: Seq<Seq<u8>>)
    ensures
        carries(roster, pending, Seq::empty(), roster, pending),
{
    assert forall|g: Seq<bool>|
        drain(roster, pending, outcomes(Seq::<DispatchView>::empty()) + g) == (FanOut {
            roster: (#[trigger] drain(roster, pending, g)).roster,
            trace: Seq::<DispatchView>::empty() + drain(roster, pending, g).trace,
        }) by {
        assert(outcomes(Seq::<DispatchView>::empty()) + g =~= g);
        assert(Seq::<DispatchView>::empty() + drain(roster, pending, g).trace =~= drain(
            roster,
            pending,
            g,
        ).trace);
    }
}

/// One sweep takes a broadcast from one state to the next.
pub(crate) proof fn carries_over_sweep(
    roster0: Seq<SeatView>,
    pending0: Seq<Seq<u8>>,
    done: Seq<DispatchView>,
    roster: Seq<SeatView>,
    pending: Seq<Seq<u8>>,
    f: Seq<bool>,
)
    requires
        carries(roster0, pending0, done, roster, pending),
        pending.len() > 0,
        f.len() == roster.len(),
    ensures
        carries(
            roster0,
            pending0,
            done + sweep_trace(roster, pending[0], f),
            survivors(roster, f),
            leave_frames(casualties(roster, f)) + pending.drop_first(),
        ),
{
    let step = sweep_trace(roster, pending[0], f);
    let roster1 = survivors(roster, f);
    let pending1 = leave_frames(casualties(roster, f)) + pending.drop_first();
    assert forall|g: Seq<bool>|
        drain(roster0, pending0, outcomes(done + step) + g) == (FanOut {
            roster: (#[trigger] drain(roster1, pending1, g)).roster,
            trace: (done + step) + drain(roster1, pending1, g).trace,
        }) by {
        let h = f + g;
        assert(outcomes(done + step) + g =~= outcomes(done) + h);
        sweep_reads_prefix(roster, pending[0], h, f);
        assert(h.skip(roster.len() as int) =~= g);
        let here = drain(roster, pending, h);
        assert(here.roster == drain(roster1, pending1, g).roster);
        assert(here.trace == step + drain(roster1, pending1, g).trace);
        assert(done + here.trace =~= (done + step) + drain(roster1, pending1, g).trace);
    }
}

/// A broadcast with nothing pending is over.
pub(crate) proof fn carries_to_end(
    roster0: Seq<SeatView>,
    pending0: Seq<Seq<u8>>,
    done: Seq<DispatchView>,
    roster: Seq<SeatView>,
)
    requires
        carries(roster0, pending0, done, roster, Seq::empty()),
    ensures
        drain(roster0, pending0, outcomes(done)) == (FanOut { roster, trace: done }),
{
    let g = Seq::<bool>::empty();
    let last = drain(roster, Seq::empty(), g);
    assert(outcomes(done) + g =~= outcomes(done));
    assert(done + last.trace =~= done);
}

/// A broadcast looks at no more flags than it makes calls.
pub proof fn drain_reads_prefix(
    roster: Seq<SeatView>,
    pending: Seq<Seq<u8>>,
    f: Seq<bool>,
    g: Seq<bool>,
)
    requires
        drain(roster, pending, f).trace.len() == f.len(),
    ensures
        drain(roster, pending, f + g) == drain(roster, pending, f),
    decreases roster.len(), pending.len(),
{
    if pending.len() > 0 {
        sweep_parts(roster, f);
        let n = roster.len() as int;
        assert(sweep_trace(roster, pending[0], f).len() == n);
        assert(n <= f.len());
        sweep_reads_prefix(roster, pending[0], f + g, f);
        assert((f + g).skip(n) =~= f.skip(n) + g);
        drain_reads_prefix(
            survivors(roster, f),
            leave_frames(casualties(roster, f)) + pending.drop_first(),
            f.skip(n),
            g,
        );
    } else {
        assert(f + g =~= g);
    }
}

} // verus!
