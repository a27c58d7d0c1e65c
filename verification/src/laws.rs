use crate::fanout::{
    casualties, drain, leave_frame, leave_frames, survivors, sweep_parts, sweep_trace, SeatView,
};
use crate::client::{ClientView, Phase, Turn};
use crate::format::{decode_message, encodable, encode_message, MAX_FIELD_LEN};
use crate::messages::MessageView;
use crate::roundtrip::decode_of_encode;
use crate::server::BoardView;
use crate::transport::DispatchView;
use vstd::prelude::*;

verus! {

/// Whether `t` holds a call that handed `frame` to the channel of the seat `to`, and that the
/// channel took.
pub open spec fn reached(t: Seq<DispatchView>, to: SeatView, frame: Seq<u8>) -> bool {
    exists|k: int| 0 <= k < t.len() && #[trigger] t[k] == to.call(frame, true)
}

/// Whether `entry` stands on `roster`.
pub open spec fn on_roster(roster: Seq<SeatView>, entry: SeatView) -> bool {
    exists|i: int| 0 <= i < roster.len() && #[trigger] roster[i] == entry
}

/// Whether `entry` stands on `roster` at a place whose flag is set.
pub open spec fn took(roster: Seq<SeatView>, flags: Seq<bool>, entry: SeatView) -> bool {
    exists|i: int| 0 <= i < roster.len() && flags[i] && #[trigger] roster[i] == entry
}

/// What is reached in a part of a trace is reached in the whole.
proof fn reached_in_part(
    head: Seq<DispatchView>,
    tail: Seq<DispatchView>,
    to: SeatView,
    frame: Seq<u8>,
)
    ensures
        reached(head, to, frame) ==> reached(head + tail, to, frame),
        reached(tail, to, frame) ==> reached(head + tail, to, frame),
{
    let whole = head + tail;
    if reached(head, to, frame) {
        let k = choose|k: int| 0 <= k < head.len() && #[trigger] head[k] == to.call(frame, true);
        assert(whole[k] == head[k]);
    }
    if reached(tail, to, frame) {
        let k = choose|k: int| 0 <= k < tail.len() && #[trigger] tail[k] == to.call(frame, true);
        assert(whole[head.len() + k] == tail[k]);
    }
}

/// Who survives a sweep stood on the roster, and its channel took the frame.
pub proof fn survivors_took(roster: Seq<SeatView>, flags: Seq<bool>)
    ensures
        forall|j: int|
            0 <= j < survivors(roster, flags).len() ==> took(
                roster,
                flags,
                #[trigger] survivors(roster, flags)[j],
            ),
    decreases roster.len(),
{
    if roster.len() > 0 {
        let init = roster.drop_last();
        survivors_took(init, flags);
        assert forall|j: int| 0 <= j < survivors(roster, flags).len() implies took(
            roster,
            flags,
            #[trigger] survivors(roster, flags)[j],
        ) by {
            let s = survivors(roster, flags)[j];
            if j < survivors(init, flags).len() {
                assert(s == survivors(init, flags)[j]);
                assert(took(init, flags, s));
                let i = choose|i: int| 0 <= i < init.len() && flags[i] && #[trigger] init[i] == s;
                assert(roster[i] == s);
            } else {
                assert(roster[roster.len() - 1] == s);
            }
        }
    }
}

/// Whose channel refuses the frame in a sweep is among the casualties, by id.
pub proof fn refused_are_casualties(roster: Seq<SeatView>, flags: Seq<bool>, i: int)
    requires
        0 <= i < roster.len(),
        !flags[i],
    ensures
        casualties(roster, flags).contains(roster[i].id),
    decreases roster.len(),
{
    let init = roster.drop_last();
    let before = casualties(init, flags);
    if i < roster.len() - 1 {
        refused_are_casualties(init, flags, i);
        let k = choose|k: int| 0 <= k < before.len() && before[k] == init[i].id;
        assert(casualties(roster, flags)[k] == roster[i].id);
    } else {
        assert(casualties(roster, flags)[before.len() as int] == roster[i].id);
    }
}

/// A broadcast seats nobody: who is on the roster after it was on it before, and where a frame
/// was pending, took the first of them.
pub proof fn drain_keeps(roster: Seq<SeatView>, pending: Seq<Seq<u8>>, flags: Seq<bool>)
    ensures
        drain(roster, pending, flags).roster.len() <= roster.len(),
        forall|j: int|
            0 <= j < drain(roster, pending, flags).roster.len() ==> on_roster(
                roster,
                #[trigger] drain(roster, pending, flags).roster[j],
            ),
        pending.len() > 0 ==> forall|j: int|
            0 <= j < drain(roster, pending, flags).roster.len() ==> took(
                roster,
                flags,
                #[trigger] drain(roster, pending, flags).roster[j],
            ),
    decreases roster.len(), pending.len(),
{
    let fan = drain(roster, pending, flags);
    if pending.len() > 0 {
        sweep_parts(roster, flags);
        let alive = survivors(roster, flags);
        let next = leave_frames(casualties(roster, flags)) + pending.drop_first();
        drain_keeps(alive, next, flags.skip(roster.len() as int));
        survivors_took(roster, flags);
        assert forall|j: int| 0 <= j < fan.roster.len() implies took(
            roster,
            flags,
            #[trigger] fan.roster[j],
        ) by {
            let s = fan.roster[j];
            assert(on_roster(alive, s));
            let a = choose|a: int| 0 <= a < alive.len() && #[trigger] alive[a] == s;
            assert(took(roster, flags, alive[a]));
        }
        assert forall|j: int| 0 <= j < fan.roster.len() implies on_roster(
            roster,
            #[trigger] fan.roster[j],
        ) by {
            let s = fan.roster[j];
            assert(took(roster, flags, s));
            let i = choose|i: int| 0 <= i < roster.len() && flags[i] && #[trigger] roster[i] == s;
            assert(roster[i] == s);
        }
    } else {
        assert forall|j: int| 0 <= j < fan.roster.len() implies on_roster(
            roster,
            #[trigger] fan.roster[j],
        ) by {
            assert(roster[j] == fan.roster[j]);
        }
    }
}

/// Whether every frame of `frames` reached everybody on `roster`.
pub open spec fn all_reached(
    t: Seq<DispatchView>,
    roster: Seq<SeatView>,
    frames: Seq<Seq<u8>>,
) -> bool {
    forall|p: int, j: int|
        0 <= p < frames.len() && 0 <= j < roster.len() ==> reached(
            t,
            #[trigger] roster[j],
            #[trigger] frames[p],
        )
}

/// Whether every refusal in `t` was made known to everybody on `roster`: for every call that a
/// channel refused, the frame that announces the leaving of its owner reached them.
pub open spec fn all_losses_told(t: Seq<DispatchView>, roster: Seq<SeatView>) -> bool {
    forall|k: int, j: int|
        0 <= k < t.len() && !(#[trigger] t[k]).accepted && t[k].to is Some && 0 <= j < roster.len()
            ==> reached(t, #[trigger] roster[j], leave_frame(t[k].to->0))
}

/// What a broadcast achieves, whatever the channels do: every pending frame reaches everybody
/// who is on the roster at its end, and so does the news of every connection that was lost on
/// the way.
pub proof fn drain_reaches(roster: Seq<SeatView>, pending: Seq<Seq<u8>>, flags: Seq<bool>)
    ensures
        all_reached(
            drain(roster, pending, flags).trace,
            drain(roster, pending, flags).roster,
            pending,
        ),
        all_losses_told(drain(roster, pending, flags).trace, drain(roster, pending, flags).roster),
    decreases roster.len(), pending.len(),
{
    let fan = drain(roster, pending, flags);
    if pending.len() > 0 {
        sweep_parts(roster, flags);
        let first = sweep_trace(roster, pending[0], flags);
        let alive = survivors(roster, flags);
        let lost = casualties(roster, flags);
        let next = leave_frames(lost) + pending.drop_first();
        let rest = drain(alive, next, flags.skip(roster.len() as int));
        drain_reaches(alive, next, flags.skip(roster.len() as int));
        drain_keeps(roster, pending, flags);
        assert(fan.roster == rest.roster);
        assert(fan.trace == first + rest.trace);
        assert forall|p: int, j: int|
            0 <= p < pending.len() && 0 <= j < fan.roster.len() implies reached(
            fan.trace,
            #[trigger] fan.roster[j],
            #[trigger] pending[p],
        ) by {
            let s = fan.roster[j];
            if p == 0 {
                assert(took(roster, flags, s));
                let i = choose|i: int|
                    0 <= i < roster.len() && flags[i] && #[trigger] roster[i] == s;
                assert(first[i] == s.call(pending[0], true));
                assert(reached(first, s, pending[0]));
            } else {
                assert(next[lost.len() + p - 1] == pending[p]);
                assert(reached(rest.trace, rest.roster[j], next[lost.len() + p - 1]));
            }
            reached_in_part(first, rest.trace, s, pending[p]);
        }
        assert forall|k: int, j: int|
            0 <= k < fan.trace.len() && !(#[trigger] fan.trace[k]).accepted && fan.trace[k].to
                is Some && 0 <= j < fan.roster.len() implies reached(
            fan.trace,
            #[trigger] fan.roster[j],
            leave_frame(fan.trace[k].to->0),
        ) by {
            let s = fan.roster[j];
            let id = fan.trace[k].to->0;
            if k < first.len() {
                assert(fan.trace[k] == first[k]);
                refused_are_casualties(roster, flags, k);
                let c = choose|c: int| 0 <= c < lost.len() && lost[c] == roster[k].id;
                assert(next[c] == leave_frame(id));
                assert(reached(rest.trace, rest.roster[j], next[c]));
            } else {
                assert(fan.trace[k] == rest.trace[k - first.len()]);
                assert(reached(
                    rest.trace,
                    rest.roster[j],
                    leave_frame(rest.trace[k - first.len()].to->0),
                ));
            }
            reached_in_part(first, rest.trace, s, leave_frame(id));
        }
    }
}

/// Whether `call` was made on a seat of `roster`: on its channel and under its id.
pub open spec fn on_a_seat(roster: Seq<SeatView>, call: DispatchView) -> bool {
    exists|i: int|
        0 <= i < roster.len() && (#[trigger] roster[i]).client.out == call.out && Some(
            roster[i].id,
        ) == call.to
}

/// A frame that is broadcast is handed to every connection on the roster, on its own channel
/// and in the order of the roster, the sender among them; it reaches everybody who is on the
/// roster when the broadcast is over; and no call is made but on seats of this roster.
pub proof fn broadcast_scope(roster: Seq<SeatView>, frame: Seq<u8>, flags: Seq<bool>)
    ensures
        drain(roster, seq![frame], flags).trace.len() >= roster.len(),
        forall|i: int|
            0 <= i < roster.len() ==> #[trigger] drain(roster, seq![frame], flags).trace[i]
                == roster[i].call(frame, flags[i]),
        forall|j: int|
            0 <= j < drain(roster, seq![frame], flags).roster.len() ==> reached(
                drain(roster, seq![frame], flags).trace,
                #[trigger] drain(roster, seq![frame], flags).roster[j],
                frame,
            ),
        forall|k: int|
            0 <= k < drain(roster, seq![frame], flags).trace.len() ==> on_a_seat(
                roster,
                #[trigger] drain(roster, seq![frame], flags).trace[k],
            ),
{
    let pending = seq![frame];
    let fan = drain(roster, pending, flags);
    let first = sweep_trace(roster, frame, flags);
    assert(fan.trace.subrange(0, roster.len() as int) =~= first);
    assert forall|i: int| 0 <= i < roster.len() implies #[trigger] fan.trace[i] == roster[i].call(
        frame,
        flags[i],
    ) by {
        assert(fan.trace[i] == first[i]);
    }
    drain_reaches(roster, pending, flags);
    assert forall|j: int| 0 <= j < fan.roster.len() implies reached(
        fan.trace,
        #[trigger] fan.roster[j],
        frame,
    ) by {
        assert(pending[0] == frame);
    }
    drain_stays_home(roster, pending, flags);
}

/// A broadcast makes no call but on seats of its roster.
pub proof fn drain_stays_home(roster: Seq<SeatView>, pending: Seq<Seq<u8>>, flags: Seq<bool>)
    ensures
        forall|k: int|
            0 <= k < drain(roster, pending, flags).trace.len() ==> on_a_seat(
                roster,
                #[trigger] drain(roster, pending, flags).trace[k],
            ),
    decreases roster.len(), pending.len(),
{
    let fan = drain(roster, pending, flags);
    if pending.len() > 0 {
        sweep_parts(roster, flags);
        let first = sweep_trace(roster, pending[0], flags);
        let alive = survivors(roster, flags);
        let next = leave_frames(casualties(roster, flags)) + pending.drop_first();
        let rest = drain(alive, next, flags.skip(roster.len() as int));
        drain_stays_home(alive, next, flags.skip(roster.len() as int));
        survivors_took(roster, flags);
        assert forall|k: int| 0 <= k < fan.trace.len() implies on_a_seat(
            roster,
            #[trigger] fan.trace[k],
        ) by {
            if k < first.len() {
                assert(fan.trace[k] == first[k]);
                assert(roster[k].client.out == fan.trace[k].out);
            } else {
                let r = k - first.len();
                assert(fan.trace[k] == rest.trace[r]);
                assert(on_a_seat(alive, rest.trace[r]));
                let a = choose|a: int|
                    0 <= a < alive.len() && (#[trigger] alive[a]).client.out == rest.trace[r].out
                        && Some(alive[a].id) == rest.trace[r].to;
                assert(took(roster, flags, alive[a]));
                let i = choose|i: int|
                    0 <= i < roster.len() && flags[i] && #[trigger] roster[i] == alive[a];
                assert(roster[i].client.out == fan.trace[k].out);
            }
        }
    }
}

/// A connection whose channel refuses the frame of a broadcast is off the roster when the
/// broadcast is over: all who are then on it took the frame. And for every call that a channel
/// refused during the broadcast, the frame that announces the leaving of its owner reaches
/// everybody who is then on the roster.
pub proof fn dead_peer_eviction(roster: Seq<SeatView>, frame: Seq<u8>, flags: Seq<bool>)
    ensures
        drain(roster, seq![frame], flags).roster.len() <= survivors(roster, flags).len(),
        forall|j: int|
            0 <= j < drain(roster, seq![frame], flags).roster.len() ==> took(
                roster,
                flags,
                #[trigger] drain(roster, seq![frame], flags).roster[j],
            ),
        all_losses_told(
            drain(roster, seq![frame], flags).trace,
            drain(roster, seq![frame], flags).roster,
        ),
{
    let pending = seq![frame];
    drain_keeps(roster, pending, flags);
    drain_reaches(roster, pending, flags);
    sweep_parts(roster, flags);
    drain_keeps(
        survivors(roster, flags),
        leave_frames(casualties(roster, flags)) + pending.drop_first(),
        flags.skip(roster.len() as int),
    );
}

/// The board after the connections of `joiners` were seated on it one after the other, where
/// `flags[k]` says how the calls went that were made for the `k`-th of them.
pub open spec fn after_joins(
    board: BoardView,
    joiners: Seq<ClientView>,
    flags: Seq<Seq<bool>>,
) -> BoardView
    decreases joiners.len(),
{
    if joiners.len() == 0 {
        board
    } else {
        after_joins(board, joiners.drop_last(), flags.drop_last()).with_member(
            joiners.last(),
            flags.last(),
        )
    }
}

/// On a board that has seated nobody yet, the `k`-th connection to be seated gets the id `k`
/// modulo 256, whoever was seated before it and whatever the channels did.
pub proof fn ids_count_up(
    board: BoardView,
    joiners: Seq<ClientView>,
    flags: Seq<Seq<bool>>,
)
    requires
        board.next_client_id == 0,
        joiners.len() == flags.len(),
    ensures
        after_joins(board, joiners, flags).next_client_id == joiners.len() % 256,
        joiners.len() > 0 ==> after_joins(board, joiners, flags).roster.last().id == (
        joiners.len() - 1) % 256,
    decreases joiners.len(),
{
    if joiners.len() > 0 {
        ids_count_up(board, joiners.drop_last(), flags.drop_last());
    }
}

/// The first `n` pieces of the history of a board, joined.
pub open spec fn joined_chunks(board: BoardView, n: nat) -> Seq<u8>
    decreases n,
{
    if n == 0 {
        Seq::empty()
    } else {
        joined_chunks(board, (n - 1) as nat) + board.chunk(n - 1)
    }
}

proof fn joined_chunks_are_a_prefix(board: BoardView, n: nat)
    requires
        n <= board.chunk_count(),
    ensures
        joined_chunks(board, n) == board.history.take(
            if n * MAX_FIELD_LEN <= board.history.len() {
                n * MAX_FIELD_LEN
            } else {
                board.history.len() as int
            },
        ),
    decreases n,
{
    if n > 0 {
        joined_chunks_are_a_prefix(board, (n - 1) as nat);
        assert(joined_chunks(board, n) =~= board.history.take(
            if n * MAX_FIELD_LEN <= board.history.len() {
                n * MAX_FIELD_LEN
            } else {
                board.history.len() as int
            },
        ));
    } else {
        assert(joined_chunks(board, n) =~= board.history.take(0));
    }
}

/// The burst that a joiner is owed starts with the configuration of the board; every frame
/// after it is a history frame; and the data of the history frames, joined in order, are the
/// history of the board.
pub proof fn history_replay(board: BoardView)
    requires
        board.wf(),
    ensures
        decode_message(board.burst_frame(0)) == Some(board.configuration()),
        forall|i: int|
            1 <= i <= board.chunk_count() ==> decode_message(#[trigger] board.burst_frame(i))
                == Some(MessageView::History { data: board.chunk(i - 1) }),
        joined_chunks(board, board.chunk_count()) == board.history,
{
    decode_of_encode(board.configuration(), Seq::empty());
    assert(encode_message(board.configuration()) + Seq::<u8>::empty() =~= encode_message(
        board.configuration(),
    ));
    assert forall|i: int| 1 <= i <= board.chunk_count() implies decode_message(
        #[trigger] board.burst_frame(i),
    ) == Some(MessageView::History { data: board.chunk(i - 1) }) by {
        let m = MessageView::History { data: board.chunk(i - 1) };
        assert(encodable(m));
        decode_of_encode(m, Seq::empty());
        assert(encode_message(m) + Seq::<u8>::empty() =~= encode_message(m));
    }
    joined_chunks_are_a_prefix(board, board.chunk_count());
    assert(board.history.take(board.history.len() as int) =~= board.history);
}

/// Serving a frame moves a connection forward by one phase or not at all: from
/// unauthenticated to authenticated by a token and by nothing else, from authenticated onto a
/// board by creating or joining one and by nothing else, and never back.
pub proof fn phases_move_forward(turn: Turn, bytes: Seq<u8>)
    requires
        turn.serves(bytes),
        turn.client.board_context is Some ==> turn.client.authenticated_user is Some,
    ensures
        turn.client_after.phase() != turn.client.phase() ==> decode_message(bytes) is Some && ({
            let m = decode_message(bytes)->0;
            ||| turn.client.phase() == Phase::Unauthenticated && m is Auth
                && turn.client_after.phase() == Phase::Authenticated
            ||| turn.client.phase() == Phase::Authenticated && (m is Create || m is Join)
                && turn.client_after.phase() == Phase::InBoard
        }),
        turn.client_after.board_context is Some ==> turn.client_after.authenticated_user is Some,
{
}

/// Serving a frame takes no board out of the registry and changes none but the one that the
/// connection is on afterwards.
pub proof fn serving_touches_one_board(turn: Turn, bytes: Seq<u8>, other: Seq<char>)
    requires
        turn.serves(bytes),
        turn.server.contains_key(other),
        turn.client_after.board_context is Some ==> turn.client_after.board_context->0.board_name
            != other,
    ensures
        turn.server_after.contains_key(other),
        turn.server_after[other] == turn.server[other],
{
}

} // verus!
