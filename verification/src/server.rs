use crate::client::{BoardContextView, Client, ClientView};
use crate::error::SessionError;
use crate::fanout::{
    carries, carries_at_start, carries_over_sweep, carries_to_end, casualties, drain,
    drain_reads_prefix, leave_frame, leave_frames, survivors, sweep_parts,
    sweep_reads_prefix, sweep_trace, SeatView,
};
use crate::format::{encode_message, str_fits_prefix, MAX_FIELD_LEN};
use crate::messages::{
    BoardConfiguration, BoardFlags, Color, History, Message, MessageView, Palette, UserId, UserJoin,
    UserLeave, HISTORY_ENABLED, HISTORY_TRIMMED, PALETTE_DEFAULT, PALETTE_SIZE,
};
use crate::ser::to_bytes;
use crate::transport::{
    added, added_nothing, added_twice, deliver, extends, outcomes, trace, Dispatch, DispatchView,
    SignalView,
};
use vstd::slice::{slice_subrange, slice_to_vec};
use vstd::prelude::*;
use vstd::string::*;
use vstd::utf8::*;

verus! {

/// Somebody the auth oracle has accepted.
pub struct User {
    pub username: String,
}

impl View for User {
    type V = Seq<char>;

    /// A user is known by name.
    open spec fn view(&self) -> Seq<char> {
        self.username@
    }
}

impl Clone for User {
    fn clone(&self) -> (res: User)
        ensures
            res@ == self@,
    {
        User { username: self.username.clone() }
    }
}

/// A connection on a board, with the id that the board gave it.
struct Seat {
    id: UserId,
    client: Client,
}

impl View for Seat {
    type V = SeatView;

    closed spec fn view(&self) -> SeatView {
        SeatView { id: self.id, client: self.client@ }
    }
}

/// A shared canvas: who is on it, what was drawn, and how it looks.
pub struct Board {
    clients: Vec<Seat>,
    last_client_id: UserId,
    history: Vec<u8>,
    pub history_size: u16,
    palette: Palette,
    background_color: Color,
    flags: BoardFlags,
}

/// A board as a mathematical value.
pub struct BoardView {
    /// The connections on the board, in the order in which they came.
    pub roster: Seq<SeatView>,
    /// The id that the next joiner gets.
    pub next_client_id: UserId,
    /// The drawing frames kept for late joiners, oldest first.
    pub history: Seq<u8>,
    /// How many bytes of history are kept at most.
    pub history_size: u16,
    pub palette: Seq<u32>,
    pub background: Color,
    /// The bits of the board's flags.
    pub flags: u8,
}

/// Frames as mathematical values.
spec fn frames_view(frames: Seq<Vec<u8>>) -> Seq<Seq<u8>> {
    Seq::new(frames.len(), |i: int| frames[i]@)
}

/// The entries of a roster as mathematical values.
spec fn roster_view(clients: Seq<Seat>) -> Seq<SeatView> {
    Seq::new(clients.len(), |i: int| clients[i]@)
}

/// The history after `message` was added to it under a limit of `limit` bytes: the old bytes,
/// then the new, and of these the last `limit` where they are more.
pub open spec fn kept_history(history: Seq<u8>, message: Seq<u8>, limit: u16) -> Seq<u8> {
    let all = history + message;
    if all.len() <= limit {
        all
    } else {
        all.skip(all.len() - limit)
    }
}

/// A connection after it was given the board id `id`: the id stands in its board context,
/// where it has one.
pub open spec fn seated(client: ClientView, id: UserId) -> ClientView {
    match client.board_context {
        Some(context) => ClientView {
            board_context: Some(
                BoardContextView { board_name: context.board_name, board_client_id: id },
            ),
            ..client
        },
        None => client,
    }
}

/// The frame that tells a board who entered.
pub open spec fn join_message(client: ClientView, id: UserId) -> MessageView {
    MessageView::UserJoin { user_id: id, username: client.authenticated_user->0 }
}

impl BoardView {
    /// Whether the palette holds its eight colours.
    pub open spec fn wf(self) -> bool {
        self.palette.len() == PALETTE_SIZE
    }

    /// This board with another roster.
    pub open spec fn with_roster(self, roster: Seq<SeatView>) -> BoardView {
        BoardView { roster, ..self }
    }

    /// This board after `message` was added to its history: what is kept of it, and the
    /// trimmed flag set where bytes were discarded.
    pub open spec fn with_history_of(self, message: Seq<u8>) -> BoardView {
        BoardView {
            history: kept_history(self.history, message, self.history_size),
            flags: if self.history.len() + message.len() > self.history_size {
                self.flags | HISTORY_TRIMMED
            } else {
                self.flags
            },
            ..self
        }
    }

    /// What a joiner is told first.
    pub open spec fn configuration(self) -> MessageView {
        MessageView::BoardConfiguration {
            palette: self.palette,
            background: self.background,
            board_flags: self.flags,
            history_size: self.history_size,
        }
    }

    /// In how many pieces the history is replayed: pieces of 65535 bytes, and a shorter last
    /// one where the history does not divide.
    pub open spec fn chunk_count(self) -> nat {
        ((self.history.len() + MAX_FIELD_LEN - 1) / (MAX_FIELD_LEN as int)) as nat
    }

    /// The `k`-th piece of the history.
    pub open spec fn chunk(self, k: int) -> Seq<u8> {
        self.history.subrange(
            k * MAX_FIELD_LEN,
            if (k + 1) * MAX_FIELD_LEN <= self.history.len() {
                (k + 1) * MAX_FIELD_LEN
            } else {
                self.history.len() as int
            },
        )
    }

    /// The frames that a joiner is owed, in order: the configuration, then the history piece
    /// by piece.
    pub open spec fn burst_frame(self, i: int) -> Seq<u8> {
        if i == 0 {
            encode_message(self.configuration())
        } else {
            encode_message(MessageView::History { data: self.chunk(i - 1) })
        }
    }

    /// Whether `t` is the burst to the joiner with the channel `out` and the id `id`: the frames
    /// that the joiner is owed, handed to that channel one by one up to the first that the
    /// channel refuses.
    pub open spec fn is_burst(self, out: ws::Sender, id: UserId, t: Seq<DispatchView>) -> bool {
        &&& 1 <= t.len() <= 1 + self.chunk_count()
        &&& forall|i: int|
            0 <= i < t.len() ==> (#[trigger] t[i]).out == out && t[i].to == Some(id)
                && t[i].signal == SignalView::Frame(self.burst_frame(i))
        &&& forall|i: int| 0 <= i < t.len() - 1 ==> (#[trigger] t[i]).accepted
        &&& t.len() < 1 + self.chunk_count() ==> !t.last().accepted
    }

    /// This board after the connection `client` was seated on it and announced with the calls
    /// whose outcomes are `flags`.
    pub open spec fn with_member(self, client: ClientView, flags: Seq<bool>) -> BoardView {
        BoardView {
            roster: drain(
                self.roster,
                seq![encode_message(join_message(client, self.next_client_id))],
                flags,
            ).roster.push(
                SeatView { id: self.next_client_id, client: seated(client, self.next_client_id) },
            ),
            next_client_id: self.next_client_id.wrapping_add(1),
            ..self
        }
    }
}

impl View for Board {
    type V = BoardView;

    closed spec fn view(&self) -> BoardView {
        BoardView {
            roster: roster_view(self.clients@),
            next_client_id: self.last_client_id,
            history: self.history@,
            history_size: self.history_size,
            palette: self.palette@,
            background: self.background_color,
            flags: self.flags.bits(),
        }
    }
}

impl Board {
    /// Every board has its eight colours.
    pub proof fn view_is_wf(&self)
        ensures
            self@.wf(),
    {
    }

    /// An empty board as a mathematical value: nobody on it, nothing drawn, the default
    /// palette on black, room for 65535 bytes of history, and the history switched on.
    pub open spec fn new_view() -> BoardView {
        BoardView {
            roster: Seq::empty(),
            next_client_id: 0,
            history: Seq::empty(),
            history_size: u16::MAX,
            palette: PALETTE_DEFAULT@,
            background: 0,
            flags: HISTORY_ENABLED,
        }
    }

    /// An empty board.
    pub fn new() -> (board: Board)
        ensures
            board@ == Board::new_view(),
    {
        let board = Board {
            clients: Vec::new(),
            last_client_id: 0,
            history: Vec::new(),
            history_size: u16::MAX,
            palette: PALETTE_DEFAULT,
            background_color: 0,
            flags: BoardFlags::from_bits_retain(HISTORY_ENABLED),
        };
        assert(board@.roster =~= Seq::empty());
        board
    }

    /// How many bytes of history the board keeps at most.
    pub fn history_limit(&self) -> (limit: u16)
        ensures
            limit == self@.history_size,
    {
        self.history_size
    }

    /// The drawing frames kept for late joiners, oldest first.
    pub fn history(&self) -> (history: &Vec<u8>)
        ensures
            history@ == self@.history,
    {
        &self.history
    }

    /// The colours of the board.
    pub fn palette(&self) -> (palette: Palette)
        ensures
            palette@ == self@.palette,
    {
        self.palette
    }

    /// The colour behind everything.
    pub fn background_color(&self) -> (color: Color)
        ensures
            color == self@.background,
    {
        self.background_color
    }

    /// The id that the next joiner gets.
    pub fn next_client_id(&self) -> (id: UserId)
        ensures
            id == self@.next_client_id,
    {
        self.last_client_id
    }

    /// The board ids of the connections on the roster, in the order of the roster.
    pub fn member_ids(&self) -> (ids: Vec<UserId>)
        ensures
            ids@.len() == self@.roster.len(),
            forall|i: int| 0 <= i < ids@.len() ==> #[trigger] ids@[i] == self@.roster[i].id,
    {
        let mut ids: Vec<UserId> = Vec::new();
        let mut i: usize = 0;
        while i < self.clients.len()
            invariant
                i <= self.clients.len(),
                ids@.len() == i,
                forall|k: int| 0 <= k < i ==> #[trigger] ids@[k] == self@.roster[k].id,
            decreases self.clients.len() - i,
        {
            ids.push(self.clients[i].id);
            i += 1;
        }
        ids
    }

    /// The switches of the board as they stand.
    pub fn board_flags(&self) -> (flags: BoardFlags)
        ensures
            flags.bits() == self@.flags,
    {
        self.flags
    }

    /// Hands `frame` to every entry of the roster, in order. The entries whose channel refuses
    /// it leave the roster; the frames that announce their leaving are returned, in the order
    /// of the roster.
    fn sweep(&mut self, frame: &Vec<u8>, sent: &mut Vec<Dispatch>) -> (leaves: Vec<Vec<u8>>)
        ensures
            extends(old(sent)@, final(sent)@),
            added(old(sent)@, final(sent)@) == sweep_trace(
                old(self)@.roster,
                frame@,
                outcomes(added(old(sent)@, final(sent)@)),
            ),
            final(self)@ == old(self)@.with_roster(
                survivors(old(self)@.roster, outcomes(added(old(sent)@, final(sent)@))),
            ),
            leaves@.len() == casualties(
                old(self)@.roster,
                outcomes(added(old(sent)@, final(sent)@)),
            ).len(),
            forall|k: int|
                0 <= k < leaves@.len() ==> (#[trigger] leaves@[k])@ == leave_frame(
                    casualties(old(self)@.roster, outcomes(added(old(sent)@, final(sent)@)))[k],
                ),
    {
        let mut initial: Vec<Seat> = Vec::new();
        std::mem::swap(&mut self.clients, &mut initial);
        let mut leaves: Vec<Vec<u8>> = Vec::new();
        let ghost roster = roster_view(initial@);
        let ghost start = sent@;
        assert(added(start, sent@) =~= Seq::empty());
        assert(trace(sent@).take(start.len() as int) =~= trace(start));
        assert(roster_view(self.clients@) =~= Seq::empty());
        for x in it: initial
            invariant
                roster == old(self)@.roster,
                start == old(sent)@,
                roster == roster_view(it.seq()),
                self.last_client_id == old(self).last_client_id,
                self.history == old(self).history,
                self.history_size == old(self).history_size,
                self.palette == old(self).palette,
                self.background_color == old(self).background_color,
                self.flags == old(self).flags,
                extends(start, sent@),
                sent@.len() == start.len() + it.index(),
                added(start, sent@) == sweep_trace(
                    roster.take(it.index() as int),
                    frame@,
                    outcomes(added(start, sent@)),
                ),
                roster_view(self.clients@) == survivors(
                    roster.take(it.index() as int),
                    outcomes(added(start, sent@)),
                ),
                leaves@.len() == casualties(
                    roster.take(it.index() as int),
                    outcomes(added(start, sent@)),
                ).len(),
                forall|k: int|
                    0 <= k < leaves@.len() ==> (#[trigger] leaves@[k])@ == leave_frame(
                        casualties(
                            roster.take(it.index() as int),
                            outcomes(added(start, sent@)),
                        )[k],
                    ),
        {
            let ghost i = it.index() as int;
            let ghost before = sent@;
            let ghost f = outcomes(added(start, before));
            let ghost kept = roster_view(self.clients@);
            assert(x@ == roster[i]);
            let id = x.id;
            let ok = deliver(&x.client.out, Some(id), frame, sent);
            let ghost g = outcomes(added(start, sent@));
            proof {
                assert(added(start, sent@) =~= added(start, before) + added(before, sent@));
                assert(roster.take(i + 1).drop_last() =~= roster.take(i));
                assert(roster.take(i + 1).last() == roster[i]);
                assert forall|k: int| 0 <= k < i implies f[k] == g[k] by {}
                sweep_reads_prefix(roster.take(i), frame@, f, g);
                assert(g[i] == ok);
                assert(added(start, sent@) =~= sweep_trace(roster.take(i + 1), frame@, g));
                assert(extends(start, sent@)) by {
                    assert(trace(sent@).take(start.len() as int) =~= trace(before).take(
                        start.len() as int,
                    ));
                }
            }
            if ok {
                self.clients.push(x);
                assert(roster_view(self.clients@) =~= kept.push(roster[i]));
            } else {
                let leave_message = to_bytes(&Message::UserLeave(UserLeave { user_id: id }));
                match leave_message {
                    Ok(bytes) => {
                        leaves.push(bytes);
                    },
                    Err(_) => {},
                }
            }
        }
        proof {
            assert(roster.take(roster.len() as int) =~= roster);
        }
        leaves
    }

    /// Sends `message` to every connection on the board. A connection whose channel refuses a
    /// frame leaves the roster, and those that stay are sent the frame that announces its
    /// leaving, before anything else: `drain` says in which order, and that the frames that
    /// announce a leaving can themselves uncover connections that are gone.
    pub fn broadcast(&mut self, message: &Vec<u8>, sent: &mut Vec<Dispatch>)
        ensures
            extends(old(sent)@, final(sent)@),
            added(old(sent)@, final(sent)@) == drain(
                old(self)@.roster,
                seq![message@],
                outcomes(added(old(sent)@, final(sent)@)),
            ).trace,
            final(self)@ == old(self)@.with_roster(
                drain(
                    old(self)@.roster,
                    seq![message@],
                    outcomes(added(old(sent)@, final(sent)@)),
                ).roster,
            ),
    {
        let mut pending: Vec<Vec<u8>> = Vec::new();
        pending.push(slice_to_vec(message.as_slice()));
        let ghost roster0 = self@.roster;
        let ghost pending0 = seq![message@];
        let ghost start = sent@;
        proof {
            assert(frames_view(pending@) =~= pending0);
            carries_at_start(roster0, pending0);
            added_nothing(start);
        }
        while pending.len() > 0
            invariant
                extends(start, sent@),
                self@ == old(self)@.with_roster(self@.roster),
                carries(
                    roster0,
                    pending0,
                    added(start, sent@),
                    self@.roster,
                    frames_view(pending@),
                ),
            decreases self@.roster.len(), pending.len(),
        {
            let ghost before = sent@;
            let ghost roster = self@.roster;
            let ghost waiting = frames_view(pending@);
            let frame = pending.remove(0);
            let mut leaves = self.sweep(&frame, sent);
            let ghost f = outcomes(added(before, sent@));
            proof {
                added_twice(start, before, sent@);
                sweep_parts(roster, f);
                carries_over_sweep(roster0, pending0, added(start, before), roster, waiting, f);
                assert(frames_view(leaves@) =~= leave_frames(casualties(roster, f)));
                assert(frames_view(pending@) =~= waiting.drop_first());
            }
            let ghost fresh = leaves@;
            let ghost rest = pending@;
            leaves.append(&mut pending);
            pending = leaves;
            proof {
                assert(frames_view(pending@) =~= frames_view(fresh) + frames_view(rest));
            }
        }
        proof {
            assert(frames_view(pending@) =~= Seq::<Seq<u8>>::empty());
            carries_to_end(roster0, pending0, added(start, sent@), self@.roster);
        }
    }

    /// Adds `message` to the history. Where the history then holds more bytes than
    /// `history_size`, the oldest are discarded and the board is flagged as trimmed.
    pub fn add_to_history(&mut self, message: &Vec<u8>)
        ensures
            final(self)@ == old(self)@.with_history_of(message@),
    {
        let limit = self.history_size as usize;
        let ghost all = self.history@ + message@;
        let mut i: usize = 0;
        while i < message.len()
            invariant
                i <= message.len(),
                self.history@ == old(self).history@ + message@.take(i as int),
                self.clients == old(self).clients,
                self.last_client_id == old(self).last_client_id,
                self.history_size == old(self).history_size,
                self.palette == old(self).palette,
                self.background_color == old(self).background_color,
                self.flags == old(self).flags,
            decreases message.len() - i,
        {
            self.history.push(message[i]);
            i += 1;
            assert(self.history@ =~= old(self).history@ + message@.take(i as int));
        }
        assert(message@.take(i as int) =~= message@);
        if self.history.len() > limit {
            let excess = self.history.len() - limit;
            let kept = self.history.split_off(excess);
            self.history = kept;
            self.flags.insert(HISTORY_TRIMMED);
            assert(self.history@ =~= all.skip(all.len() - limit));
        }
    }

    /// Seats `client` on the board. The connection gets the next id, which is written into its
    /// board context where it has one; those already on the board are told of it as by
    /// `broadcast`; the connection joins the roster; and it is then sent the configuration and
    /// the history, piece by piece, up to the first frame that its channel refuses.
    ///
    /// Fails, and changes nothing, for a connection without a user, and for one whose name is
    /// too long for a frame. Fails with `SendFailed`, the connection seated, where the channel
    /// refuses a frame of the burst.
    pub fn add_client(
        &mut self,
        client: &mut Client,
        sent: &mut Vec<Dispatch>,
    ) -> (res: Result<(), SessionError>)
        ensures
            extends(old(sent)@, final(sent)@),
            old(client)@.authenticated_user is None ==> res == Err::<(), SessionError>(
                SessionError::Unauthenticated,
            ),
            old(client)@.authenticated_user is Some && !str_fits_prefix(
                old(client)@.authenticated_user->0,
            ) ==> res == Err::<(), SessionError>(SessionError::Internal),
            !old(client)@.can_be_seated() ==> {
                &&& final(self)@ == old(self)@
                &&& final(client)@ == old(client)@
                &&& final(sent)@ == old(sent)@
            },
            old(client)@.can_be_seated() ==> {
                let id = old(self)@.next_client_id;
                let calls = added(old(sent)@, final(sent)@);
                let fan = drain(
                    old(self)@.roster,
                    seq![encode_message(join_message(old(client)@, id))],
                    outcomes(calls),
                );
                &&& final(client)@ == seated(old(client)@, id)
                &&& final(self)@ == old(self)@.with_member(old(client)@, outcomes(calls))
                &&& fan.trace.len() < calls.len()
                &&& calls.take(fan.trace.len() as int) == fan.trace
                &&& old(self)@.is_burst(old(client)@.out, id, calls.skip(fan.trace.len() as int))
                &&& res == if calls.last().accepted {
                    Ok::<(), SessionError>(())
                } else {
                    Err::<(), SessionError>(SessionError::SendFailed)
                }
            },
    {
        let ghost board0 = self@;
        let ghost start = sent@;
        proof {
            added_nothing(start);
        }
        let user = match &client.authenticated_user {
            Some(t) => t,
            None => {
                return Err(SessionError::Unauthenticated);
            },
        };
        let id = self.last_client_id;
        let join = match to_bytes(
            &Message::UserJoin(UserJoin { username: user.username.as_str(), user_id: id }),
        ) {
            Ok(bytes) => bytes,
            Err(_) => {
                return Err(SessionError::Internal);
            },
        };
        self.seat(client, &join, sent);
        let ghost announced = sent@;
        let ghost announcement = added(start, announced);
        let res = self.replay(&client.out, id, sent);
        proof {
            let calls = added(start, sent@);
            added_twice(start, announced, sent@);
            assert(calls.take(announcement.len() as int) =~= announcement);
            assert(calls.skip(announcement.len() as int) =~= added(announced, sent@));
            announcement_reads_prefix(board0.roster, join@, announcement, calls);
            assert(calls.last() == added(announced, sent@).last());
            board0.burst_is_the_same(self@, client@.out, id, added(announced, sent@));
        }
        res
    }

    /// The first half of `add_client`: the id, the announcement, the roster.
    fn seat(&mut self, client: &mut Client, join: &Vec<u8>, sent: &mut Vec<Dispatch>)
        requires
            join@ == encode_message(join_message(old(client)@, old(self)@.next_client_id)),
        ensures
            extends(old(sent)@, final(sent)@),
            final(client)@ == seated(old(client)@, old(self)@.next_client_id),
            added(old(sent)@, final(sent)@) == drain(
                old(self)@.roster,
                seq![join@],
                outcomes(added(old(sent)@, final(sent)@)),
            ).trace,
            final(self)@ == old(self)@.with_member(
                old(client)@,
                outcomes(added(old(sent)@, final(sent)@)),
            ),
    {
        let ghost client0 = client@;
        let id = self.last_client_id;
        match &mut client.board_context {
            Some(context) => {
                context.board_client_id = id;
            },
            None => {},
        }
        assert(client@ == seated(client0, id));
        self.last_client_id = id.wrapping_add(1);
        assert(self@.roster == old(self)@.roster);
        self.broadcast(join, sent);
        let ghost kept = self@.roster;
        self.clients.push(Seat { id, client: client.clone() });
        proof {
            assert(roster_view(self.clients@) =~= kept.push(
                SeatView { id, client: seated(client0, id) },
            ));
        }
    }

    /// The second half of `add_client`: the configuration and the history, to the channel
    /// `out` of the joiner with id `id`.
    fn replay(
        &self,
        out: &ws::Sender,
        id: UserId,
        sent: &mut Vec<Dispatch>,
    ) -> (res: Result<(), SessionError>)
        ensures
            extends(old(sent)@, final(sent)@),
            self@.is_burst(*out, id, added(old(sent)@, final(sent)@)),
            res == if added(old(sent)@, final(sent)@).last().accepted {
                Ok::<(), SessionError>(())
            } else {
                Err::<(), SessionError>(SessionError::SendFailed)
            },
    {
        let ghost start = sent@;
        let ghost board = self@;
        let ghost channel = *out;
        let configuration = match to_bytes(
            &Message::BoardConfiguration(
                BoardConfiguration {
                    history_size: self.history_size,
                    palette: self.palette,
                    board_flags: self.board_flags(),
                    background: self.background_color,
                },
            ),
        ) {
            Ok(bytes) => bytes,
            Err(_) => {
                return Err(SessionError::Internal);
            },
        };
        assert(configuration@ == board.burst_frame(0));
        let ok = deliver(out, Some(id), &configuration, sent);
        if !ok {
            proof {
                assert(board.granted(channel, id, 0) =~= Seq::empty());
                assert(added(start, sent@) =~= board.granted(channel, id, 0).push(
                    board.refused(channel, id, 0),
                ));
                board.burst_cut_short(channel, id, 0);
            }
            return Err(SessionError::SendFailed);
        }
        assert(added(start, sent@) =~= board.granted(channel, id, 1));
        let total = self.history.len();
        let mut offset: usize = 0;
        let ghost mut k: int = 0;
        while offset < total
            invariant
                start == old(sent)@,
                channel == *out,
                board == self@,
                total == board.history.len(),
                total == self.history@.len(),
                extends(start, sent@),
                offset <= total,
                0 <= k,
                offset == k * MAX_FIELD_LEN,
                added(start, sent@) == board.granted(channel, id, 1 + k),
            decreases total - offset,
        {
            let ghost before = sent@;
            proof {
                chunks_to_come(total as int, k);
            }
            let end = if total - offset > MAX_FIELD_LEN {
                offset + MAX_FIELD_LEN
            } else {
                total
            };
            let chunk = slice_subrange(self.history.as_slice(), offset, end);
            assert(chunk@ == board.chunk(k));
            let frame = match to_bytes(&Message::History(History { data: chunk })) {
                Ok(bytes) => bytes,
                Err(_) => {
                    return Err(SessionError::Internal);
                },
            };
            assert(frame@ == board.burst_frame(k + 1));
            let ok = deliver(out, Some(id), &frame, sent);
            proof {
                added_twice(start, before, sent@);
            }
            if !ok {
                proof {
                    assert(added(start, sent@) =~= board.granted(channel, id, 1 + k).push(
                        board.refused(channel, id, 1 + k),
                    ));
                    board.burst_cut_short(channel, id, 1 + k);
                }
                return Err(SessionError::SendFailed);
            }
            assert(added(start, sent@) =~= board.granted(channel, id, 2 + k));
            if end == total {
                proof {
                    board.burst_in_full(channel, id);
                }
                return Ok(());
            }
            offset = end;
            proof {
                k = k + 1;
            }
        }
        proof {
            chunks_at_end(total as int, k);
            board.burst_in_full(channel, id);
        }
        Ok(())
    }
}

/// While bytes remain behind `k` whole pieces, the `k`-th piece is still to come, and it is
/// the last where the bytes that remain fill no more than one piece.
proof fn chunks_to_come(total: int, k: int)
    requires
        0 <= k,
        k * 65535 < total,
    ensures
        k + 1 <= (total + 65534) / 65535,
        total <= (k + 1) * 65535 ==> (total + 65534) / 65535 == k + 1,
{
}

/// A history of `k` whole pieces has `k` pieces.
proof fn chunks_at_end(total: int, k: int)
    requires
        0 <= k,
        k * 65535 == total,
    ensures
        (total + 65534) / 65535 == k,
{
}

impl BoardView {
    /// The first `n` frames of the burst, each taken by the channel.
    spec fn granted(self, out: ws::Sender, id: UserId, n: int) -> Seq<DispatchView> {
        Seq::new(
            n as nat,
            |i: int|
                DispatchView {
                    out,
                    to: Some(id),
                    signal: SignalView::Frame(self.burst_frame(i)),
                    accepted: true,
                },
        )
    }

    /// The `n`-th frame of the burst, refused by the channel.
    spec fn refused(self, out: ws::Sender, id: UserId, n: int) -> DispatchView {
        DispatchView {
            out,
            to: Some(id),
            signal: SignalView::Frame(self.burst_frame(n)),
            accepted: false,
        }
    }

    /// A burst whose every frame was taken.
    proof fn burst_in_full(self, out: ws::Sender, id: UserId)
        ensures
            self.is_burst(out, id, self.granted(out, id, 1 + self.chunk_count() as int)),
            self.granted(out, id, 1 + self.chunk_count() as int).last().accepted,
    {
    }

    /// A burst that ended at the first frame that was refused.
    proof fn burst_cut_short(self, out: ws::Sender, id: UserId, n: int)
        requires
            0 <= n <= self.chunk_count(),
        ensures
            self.is_burst(out, id, self.granted(out, id, n).push(self.refused(out, id, n))),
            !self.granted(out, id, n).push(self.refused(out, id, n)).last().accepted,
    {
    }
}

impl BoardView {
    /// The burst depends on the history and on what the configuration tells, on nothing else.
    proof fn burst_is_the_same(
        self,
        other: BoardView,
        out: ws::Sender,
        id: UserId,
        t: Seq<DispatchView>,
    )
        requires
            self.history == other.history,
            self.configuration() == other.configuration(),
        ensures
            self.is_burst(out, id, t) == other.is_burst(out, id, t),
    {
        assert(self.chunk_count() == other.chunk_count());
        assert forall|i: int| self.burst_frame(i) == other.burst_frame(i) by {
            assert(self.chunk(i - 1) == other.chunk(i - 1));
        }
    }
}

/// The calls that announce a joiner are settled by their own outcomes: the calls that follow
/// them have no say.
proof fn announcement_reads_prefix(
    roster: Seq<SeatView>,
    join: Seq<u8>,
    announcement: Seq<DispatchView>,
    calls: Seq<DispatchView>,
)
    requires
        announcement.len() <= calls.len(),
        calls.take(announcement.len() as int) == announcement,
        drain(roster, seq![join], outcomes(announcement)).trace == announcement,
    ensures
        drain(roster, seq![join], outcomes(calls)) == drain(
            roster,
            seq![join],
            outcomes(announcement),
        ),
{
    drain_reads_prefix(
        roster,
        seq![join],
        outcomes(announcement),
        outcomes(calls).skip(announcement.len() as int),
    );
    assert(outcomes(calls) =~= outcomes(announcement) + outcomes(calls).skip(
        announcement.len() as int,
    ));
}

/// Whether two texts are the same, character for character.
pub fn same_text(a: &str, b: &str) -> (same: bool)
    ensures
        same == (a@ == b@),
{
    let x = a.as_bytes();
    let y = b.as_bytes();
    if x.len() != y.len() {
        return false;
    }
    let mut i: usize = 0;
    while i < x.len()
        invariant
            i <= x.len(),
            x.len() == y.len(),
            x@ == encode_utf8(a@),
            y@ == encode_utf8(b@),
            forall|k: int| 0 <= k < i ==> x@[k] == y@[k],
        decreases x.len() - i,
    {
        if x[i] != y[i] {
            return false;
        }
        i += 1;
    }
    proof {
        assert(x@ =~= y@);
        encode_utf8_decode_utf8(a@);
        encode_utf8_decode_utf8(b@);
    }
    true
}

/// A board under its name.
struct Slot {
    name: String,
    board: Board,
}

/// The registry of boards: every board of this worker, under its name.
pub struct Server {
    boards: Vec<Slot>,
}

/// Whether `i` is the place of the board called `name`.
spec fn holds(slots: Seq<Slot>, name: Seq<char>, i: int) -> bool {
    0 <= i < slots.len() && slots[i].name@ == name
}

/// Whether no two boards have one name.
spec fn distinct(slots: Seq<Slot>) -> bool {
    forall|i: int, j: int| holds(slots, slots[i].name@, j) && 0 <= i < slots.len() ==> i == j
}

/// The boards by name.
spec fn registry(slots: Seq<Slot>) -> Map<Seq<char>, BoardView> {
    Map::new(
        |name: Seq<char>| exists|i: int| holds(slots, name, i),
        |name: Seq<char>| slots[choose|i: int| holds(slots, name, i)].board@,
    )
}

/// Putting another board in a place changes the registry at the name of that place only.
proof fn registry_after_update(before: Seq<Slot>, after: Seq<Slot>, i: int)
    requires
        distinct(before),
        0 <= i < before.len(),
        after.len() == before.len(),
        forall|j: int| 0 <= j < before.len() ==> (#[trigger] after[j]).name@ == before[j].name@,
        forall|j: int|
            0 <= j < before.len() && j != i ==> (#[trigger] after[j]).board == before[j].board,
    ensures
        distinct(after),
        registry(after) == registry(before).insert(before[i].name@, after[i].board@),
{
    assert forall|a: int, b: int| holds(after, after[a].name@, b) && 0 <= a < after.len() implies a
        == b by {
        assert(holds(before, before[a].name@, b));
    }
    let target = registry(before).insert(before[i].name@, after[i].board@);
    assert forall|name: Seq<char>| registry(after).dom().contains(name) == target.dom().contains(
        name,
    ) by {
        if exists|j: int| holds(after, name, j) {
            let j = choose|j: int| holds(after, name, j);
            assert(holds(before, name, j));
        }
        if exists|j: int| holds(before, name, j) {
            let j = choose|j: int| holds(before, name, j);
            assert(holds(after, name, j));
        }
        if name == before[i].name@ {
            assert(holds(after, name, i));
        }
    }
    assert forall|name: Seq<char>| registry(after).dom().contains(name) implies registry(
        after,
    )[name] == target[name] by {
        let j = choose|j: int| holds(after, name, j);
        assert(holds(before, name, j));
        let k = choose|k: int| holds(before, name, k);
        assert(holds(before, before[j].name@, k));
        assert(j == k);
        if name == before[i].name@ {
            assert(holds(before, before[i].name@, j));
        }
    }
    assert(registry(after) =~= target);
}

/// A board in a new place, under a new name, is one more entry of the registry.
proof fn registry_after_push(before: Seq<Slot>, slot: Slot)
    requires
        distinct(before),
        !registry(before).dom().contains(slot.name@),
    ensures
        distinct(before.push(slot)),
        registry(before.push(slot)) == registry(before).insert(slot.name@, slot.board@),
{
    let after = before.push(slot);
    assert forall|a: int, b: int| holds(after, after[a].name@, b) && 0 <= a < after.len() implies a
        == b by {
        if a < before.len() && b < before.len() {
            assert(holds(before, before[a].name@, b));
        } else if a < before.len() {
            assert(holds(before, slot.name@, a));
        } else if b < before.len() {
            assert(holds(before, slot.name@, b));
        }
    }
    let target = registry(before).insert(slot.name@, slot.board@);
    assert forall|name: Seq<char>| registry(after).dom().contains(name) == target.dom().contains(
        name,
    ) by {
        if exists|j: int| holds(after, name, j) {
            let j = choose|j: int| holds(after, name, j);
            if j < before.len() {
                assert(holds(before, name, j));
            }
        }
        if exists|j: int| holds(before, name, j) {
            let j = choose|j: int| holds(before, name, j);
            assert(holds(after, name, j));
        }
        if name == slot.name@ {
            assert(holds(after, name, before.len() as int));
        }
    }
    assert forall|name: Seq<char>| registry(after).dom().contains(name) implies registry(
        after,
    )[name] == target[name] by {
        let j = choose|j: int| holds(after, name, j);
        if j < before.len() {
            assert(holds(before, name, j));
            let k = choose|k: int| holds(before, name, k);
            assert(holds(before, before[j].name@, k));
        }
    }
    assert(registry(after) =~= target);
}

impl View for Server {
    type V = Map<Seq<char>, BoardView>;

    /// The boards by name.
    closed spec fn view(&self) -> Map<Seq<char>, BoardView> {
        registry(self.boards@)
    }
}

impl Server {
    /// Whether the registry is in order: no name stands for two boards.
    pub closed spec fn wf(&self) -> bool {
        distinct(self.boards@)
    }

    /// A registry without boards.
    pub fn new() -> (server: Server)
        ensures
            server.wf(),
            server@ == Map::<Seq<char>, BoardView>::empty(),
    {
        let server = Server { boards: Vec::new() };
        assert(server@ =~= Map::<Seq<char>, BoardView>::empty());
        server
    }

    /// The place of the board called `name`.
    fn locate(&self, name: &str) -> (place: Option<usize>)
        ensures
            match place {
                Some(i) => holds(self.boards@, name@, i as int),
                None => !self@.contains_key(name@),
            },
    {
        let mut i: usize = 0;
        while i < self.boards.len()
            invariant
                i <= self.boards.len(),
                forall|j: int| 0 <= j < i ==> !holds(self.boards@, name@, j),
            decreases self.boards.len() - i,
        {
            if same_text(self.boards[i].name.as_str(), name) {
                return Some(i);
            }
            i += 1;
        }
        None
    }

    /// Whether there is a board called `name`.
    pub fn has_board(&self, name: &str) -> (found: bool)
        ensures
            found == self@.contains_key(name@),
    {
        self.locate(name).is_some()
    }

    /// The board called `name`, to work on.
    pub fn find(&mut self, name: &str) -> (res: Option<&mut Board>)
        requires
            old(self).wf(),
        ensures
            res is Some == old(self)@.contains_key(name@),
            res matches Some(board) ==> {
                &&& board@ == old(self)@[name@]
                &&& final(self)@ == old(self)@.insert(name@, final(board)@)
            },
            res is None ==> final(self)@ == old(self)@,
            final(self).wf(),
    {
        match self.locate(name) {
            Some(i) => {
                let ghost before = self.boards@;
                proof {
                    let k = choose|k: int| holds(before, name@, k);
                    assert(holds(before, before[i as int].name@, k));
                }
                let board = &mut self.boards[i].board;
                proof {
                    let after = after_borrow(self.boards)@;
                    registry_after_update(before, after, i as int);
                }
                Some(board)
            },
            None => None,
        }
    }

    /// The board called `name`, to work on: the one there is, or else a new, empty one.
    pub fn create(&mut self, name: String) -> (board: &mut Board)
        requires
            old(self).wf(),
        ensures
            board@ == if old(self)@.contains_key(name@) {
                old(self)@[name@]
            } else {
                Board::new_view()
            },
            final(self)@ == old(self)@.insert(name@, final(board)@),
            final(self).wf(),
    {
        let ghost before = self.boards@;
        match self.locate(name.as_str()) {
            Some(i) => {
                proof {
                    let k = choose|k: int| holds(before, name@, k);
                    assert(holds(before, before[i as int].name@, k));
                }
                let board = &mut self.boards[i].board;
                proof {
                    let after = after_borrow(self.boards)@;
                    registry_after_update(before, after, i as int);
                }
                board
            },
            None => {
                let slot = Slot { name, board: Board::new() };
                proof {
                    registry_after_push(before, slot);
                }
                self.boards.push(slot);
                let last = self.boards.len() - 1;
                let ghost pushed = self.boards@;
                let board = &mut self.boards[last].board;
                proof {
                    let after = after_borrow(self.boards)@;
                    registry_after_update(pushed, after, last as int);
                    assert(registry(after) =~= registry(before).insert(
                        name@,
                        after[last as int].board@,
                    ));
                }
                board
            },
        }
    }
}

} // verus!
