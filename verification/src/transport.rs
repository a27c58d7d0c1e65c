use crate::error::SessionError;
use crate::messages::UserId;
use vstd::prelude::*;
use vstd::slice::slice_to_vec;

verus! {

/// `ws::Sender`, the handle on the outbound channel of one connection. Nothing of what it
/// holds is looked at.
#[verifier::external_type_specification]
#[verifier::external_body]
pub struct ExSender(ws::Sender);

/// `ws::Error`, what a channel answers when it does not take a call. Nothing of what it holds
/// is looked at.
#[verifier::external_type_specification]
#[verifier::external_body]
pub struct ExTransportError(ws::Error);

/// The close codes that the server sends.
#[derive(Debug, Clone, Copy, PartialEq, Eq, Structural)]
pub enum CloseCode {
    /// The frame was of a kind that the server does not take.
    Invalid,
    /// The connection broke a rule of the session.
    Error,
}

/// Why the server closes a connection.
#[derive(Debug, Clone, Copy, PartialEq, Eq, Structural)]
pub enum CloseReason {
    ExpectedBinary,
    InvalidMessage,
    InvalidAuth,
    AuthExpected,
    BoardAlreadyExists,
    BoardNotFound,
    AlreadyAuthenticated,
    AlreadyJoined,
    BoardConfigurationInvalid,
    HistoryInvalid,
    ServerMessageInvalid,
    UserJoinInvalid,
    UserLeaveInvalid,
    Internal,
}

impl CloseReason {
    /// The code that goes with this reason: `Invalid` for a frame that is not binary, `Error`
    /// for everything else.
    pub open spec fn spec_code(self) -> CloseCode {
        match self {
            CloseReason::ExpectedBinary => CloseCode::Invalid,
            _ => CloseCode::Error,
        }
    }

    /// The code that goes with this reason.
    pub fn code(&self) -> (code: CloseCode)
        ensures
            code == self.spec_code(),
    {
        match self {
            CloseReason::ExpectedBinary => CloseCode::Invalid,
            _ => CloseCode::Error,
        }
    }

    /// The words that the peer is told.
    pub open spec fn spec_text(self) -> Seq<char> {
        match self {
            CloseReason::ExpectedBinary => "expected binary"@,
            CloseReason::InvalidMessage => "invalid message"@,
            CloseReason::InvalidAuth => "invalid auth"@,
            CloseReason::AuthExpected => "auth expected"@,
            CloseReason::BoardAlreadyExists => "board already exists"@,
            CloseReason::BoardNotFound => "board not found"@,
            CloseReason::AlreadyAuthenticated => "already authenticated"@,
            CloseReason::AlreadyJoined => "already joined a board"@,
            CloseReason::BoardConfigurationInvalid => "board configuration invalid atm"@,
            CloseReason::HistoryInvalid => "history invalid atm"@,
            CloseReason::ServerMessageInvalid => "server message invalid atm"@,
            CloseReason::UserJoinInvalid => "user join invalid atm"@,
            CloseReason::UserLeaveInvalid => "user leave invalid atm"@,
            CloseReason::Internal => "internal"@,
        }
    }

    /// The words that the peer is told.
    pub fn text(&self) -> (text: &'static str)
        ensures
            text@ == self.spec_text(),
    {
        match self {
            CloseReason::ExpectedBinary => "expected binary",
            CloseReason::InvalidMessage => "invalid message",
            CloseReason::InvalidAuth => "invalid auth",
            CloseReason::AuthExpected => "auth expected",
            CloseReason::BoardAlreadyExists => "board already exists",
            CloseReason::BoardNotFound => "board not found",
            CloseReason::AlreadyAuthenticated => "already authenticated",
            CloseReason::AlreadyJoined => "already joined a board",
            CloseReason::BoardConfigurationInvalid => "board configuration invalid atm",
            CloseReason::HistoryInvalid => "history invalid atm",
            CloseReason::ServerMessageInvalid => "server message invalid atm",
            CloseReason::UserJoinInvalid => "user join invalid atm",
            CloseReason::UserLeaveInvalid => "user leave invalid atm",
            CloseReason::Internal => "internal",
        }
    }
}

/// What is handed to an outbound channel: a frame, or the order to close.
#[derive(Debug, PartialEq, Eq)]
pub enum Signal {
    Frame(Vec<u8>),
    Close(CloseReason),
}

/// One call on an outbound channel: whose channel, what was handed to it, and whether the
/// channel took it.
#[derive(Debug, PartialEq, Eq)]
pub struct Dispatch {
    /// The channel.
    pub out: ws::Sender,
    /// The board id of the connection that owns the channel, if it has one.
    pub to: Option<UserId>,
    pub signal: Signal,
    pub accepted: bool,
}

/// A signal as a mathematical value.
pub enum SignalView {
    Frame(Seq<u8>),
    Close(CloseReason),
}

/// A call as a mathematical value.
pub struct DispatchView {
    pub out: ws::Sender,
    pub to: Option<UserId>,
    pub signal: SignalView,
    pub accepted: bool,
}

impl View for Signal {
    type V = SignalView;

    open spec fn view(&self) -> SignalView {
        match *self {
            Signal::Frame(bytes) => SignalView::Frame(bytes@),
            Signal::Close(reason) => SignalView::Close(reason),
        }
    }
}

impl View for Dispatch {
    type V = DispatchView;

    open spec fn view(&self) -> DispatchView {
        DispatchView {
            out: self.out,
            to: self.to,
            signal: self.signal@,
            accepted: self.accepted,
        }
    }
}

impl Clone for Signal {
    fn clone(&self) -> (res: Signal)
        ensures
            res@ == self@,
    {
        match self {
            Signal::Frame(bytes) => Signal::Frame(slice_to_vec(bytes.as_slice())),
            Signal::Close(reason) => Signal::Close(*reason),
        }
    }
}

impl Clone for Dispatch {
    fn clone(&self) -> (res: Dispatch)
        ensures
            res@ == self@,
    {
        Dispatch {
            out: clone_sender(&self.out),
            to: self.to,
            signal: self.signal.clone(),
            accepted: self.accepted,
        }
    }
}

/// A record of calls as mathematical values.
pub open spec fn trace(record: Seq<Dispatch>) -> Seq<DispatchView> {
    Seq::new(record.len(), |i: int| record[i]@)
}

/// Whether each call of a trace was taken, in order.
pub open spec fn outcomes(t: Seq<DispatchView>) -> Seq<bool> {
    Seq::new(t.len(), |i: int| t[i].accepted)
}

/// The calls that `after` holds beyond the first `before` ones.
pub open spec fn added(before: Seq<Dispatch>, after: Seq<Dispatch>) -> Seq<DispatchView> {
    trace(after).skip(before.len() as int)
}

/// Whether `after` is `before` with more calls behind it.
pub open spec fn extends(before: Seq<Dispatch>, after: Seq<Dispatch>) -> bool {
    before.len() <= after.len() && trace(after).take(before.len() as int) == trace(before)
}

/// A record that grew twice grew once by both additions.
pub proof fn added_twice(a: Seq<Dispatch>, b: Seq<Dispatch>, c: Seq<Dispatch>)
    requires
        extends(a, b),
        extends(b, c),
    ensures
        extends(a, c),
        added(a, c) == added(a, b) + added(b, c),
{
    assert(trace(c).take(a.len() as int) =~= trace(c).take(b.len() as int).take(a.len() as int));
    assert(trace(b) =~= trace(b).take(a.len() as int) + trace(b).skip(a.len() as int));
    assert(added(a, c) =~= added(a, b) + added(b, c)) by {
        assert forall|i: int| 0 <= i < added(a, b).len() implies added(a, c)[i] == added(
            a,
            b,
        )[i] by {
            assert(trace(c).take(b.len() as int)[a.len() + i] == trace(b)[a.len() + i]);
        }
    }
}

/// A record that did not grow.
pub proof fn added_nothing(a: Seq<Dispatch>)
    ensures
        extends(a, a),
        added(a, a) == Seq::<DispatchView>::empty(),
{
    assert(trace(a).take(a.len() as int) =~= trace(a));
    assert(added(a, a) =~= Seq::<DispatchView>::empty());
}

/// `ws::Sender::send` with a binary message made of a copy of `frame`. Whether the channel
/// takes the message is decided outside: nothing is promised of the result.
#[verifier::external_body]
fn sender_send(out: &ws::Sender, frame: &Vec<u8>) -> (res: Result<(), ws::Error>) {
    out.send(frame.clone())
}

/// `ws::Sender::close_with_reason`, with the close code that stands for `code`. Whether the
/// channel takes the order is decided outside: nothing is promised of the result.
#[verifier::external_body]
fn sender_close(out: &ws::Sender, code: CloseCode, reason: &'static str) -> (res: Result<
    (),
    ws::Error,
>) {
    let code = match code {
        CloseCode::Invalid => ws::CloseCode::Invalid,
        CloseCode::Error => ws::CloseCode::Error,
    };
    out.close_with_reason(code, reason)
}

/// `Clone::clone` of `ws::Sender`: a second handle on the same channel, with the token and the
/// connection id of the first, which is all that the crate's own equality of senders looks at.
#[verifier::external_body]
pub(crate) fn clone_sender(out: &ws::Sender) -> (res: ws::Sender)
    ensures
        res == *out,
{
    out.clone()
}

/// Why a turn of a connection failed.
#[derive(Debug)]
pub enum Failure {
    /// The channel did not take the order to close: what it answered.
    Channel(ws::Error),
    /// The connection could not be given its seat.
    Session(SessionError),
}

/// Hands `frame` to the channel `out` and records the call. Says whether the channel took it.
pub fn deliver(
    out: &ws::Sender,
    to: Option<UserId>,
    frame: &Vec<u8>,
    sent: &mut Vec<Dispatch>,
) -> (ok: bool)
    ensures
        final(sent)@.len() == old(sent)@.len() + 1,
        extends(old(sent)@, final(sent)@),
        added(old(sent)@, final(sent)@) == seq![
            DispatchView { out: *out, to, signal: SignalView::Frame(frame@), accepted: ok },
        ],
{
    let accepted = sender_send(out, frame).is_ok();
    sent.push(
        Dispatch {
            out: clone_sender(out),
            to,
            signal: Signal::Frame(slice_to_vec(frame.as_slice())),
            accepted,
        },
    );
    assert(trace(sent@).take(old(sent)@.len() as int) =~= trace(old(sent)@));
    assert(added(old(sent)@, sent@) =~= seq![
        DispatchView { out: *out, to, signal: SignalView::Frame(frame@), accepted },
    ]);
    accepted
}

/// Orders the channel `out` to close, telling the peer why, and records the call. Fails, with
/// what the channel answered, where the channel does not take the order.
pub fn close(
    out: &ws::Sender,
    to: Option<UserId>,
    reason: CloseReason,
    sent: &mut Vec<Dispatch>,
) -> (res: Result<(), ws::Error>)
    ensures
        final(sent)@.len() == old(sent)@.len() + 1,
        extends(old(sent)@, final(sent)@),
        added(old(sent)@, final(sent)@) == seq![
            DispatchView { out: *out, to, signal: SignalView::Close(reason), accepted: res is Ok },
        ],
{
    let res = sender_close(out, reason.code(), reason.text());
    let accepted = res.is_ok();
    sent.push(Dispatch { out: clone_sender(out), to, signal: Signal::Close(reason), accepted });
    assert(trace(sent@).take(old(sent)@.len() as int) =~= trace(old(sent)@));
    assert(added(old(sent)@, sent@) =~= seq![
        DispatchView { out: *out, to, signal: SignalView::Close(reason), accepted },
    ]);
    res
}

} // verus!
