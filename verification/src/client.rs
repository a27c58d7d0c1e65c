use crate::auth::{auth, spec_auth};
use crate::de::from_bytes;
use crate::error::SessionError;
use crate::fanout::drain;
use crate::format::{decode_message, encode_message, str_fits_prefix, MAX_FIELD_LEN};
use crate::messages::{Create, Join, Message, MessageView, UserId};
use crate::server::{join_message, seated, Board, BoardView, Server, User};
use crate::transport::{
    added, added_nothing, clone_sender, close, extends, outcomes, CloseReason, Dispatch,
    DispatchView, Failure, SignalView,
};
use vstd::prelude::*;
use vstd::string::*;

verus! {

/// Where a connection stands on a board.
pub struct BoardContext {
    pub board_name: String,
    pub board_client_id: UserId,
}

/// A place on a board as a mathematical value.
pub struct BoardContextView {
    pub board_name: Seq<char>,
    pub board_client_id: UserId,
}

impl View for BoardContext {
    type V = BoardContextView;

    open spec fn view(&self) -> BoardContextView {
        BoardContextView { board_name: self.board_name@, board_client_id: self.board_client_id }
    }
}

impl Clone for BoardContext {
    fn clone(&self) -> (res: BoardContext)
        ensures
            res@ == self@,
    {
        BoardContext {
            board_name: self.board_name.clone(),
            board_client_id: self.board_client_id,
        }
    }
}

/// One connection as the server sees it.
pub struct Client {
    /// The way out to the peer.
    pub out: ws::Sender,
    /// Who the peer is, once it has authenticated.
    pub authenticated_user: Option<User>,
    /// Which board the peer is on, once it has created or joined one.
    pub board_context: Option<BoardContext>,
}

/// A connection as a mathematical value: the channel as it is, the user by name.
pub struct ClientView {
    pub out: ws::Sender,
    pub authenticated_user: Option<Seq<char>>,
    pub board_context: Option<BoardContextView>,
}

impl View for Client {
    type V = ClientView;

    open spec fn view(&self) -> ClientView {
        ClientView {
            out: self.out,
            authenticated_user: match self.authenticated_user {
                Some(user) => Some(user@),
                None => None,
            },
            board_context: match self.board_context {
                Some(context) => Some(context@),
                None => None,
            },
        }
    }
}

impl Clone for Client {
    /// A second handle on the same connection.
    fn clone(&self) -> (res: Client)
        ensures
            res@ == self@,
    {
        Client {
            out: clone_sender(&self.out),
            authenticated_user: match &self.authenticated_user {
                Some(user) => Some(user.clone()),
                None => None,
            },
            board_context: match &self.board_context {
                Some(context) => Some(context.clone()),
                None => None,
            },
        }
    }
}

impl ClientView {
    /// The board id of the connection, if it is on a board.
    pub open spec fn id(self) -> Option<UserId> {
        match self.board_context {
            Some(context) => Some(context.board_client_id),
            None => None,
        }
    }

    /// Whether a board can seat the connection: it has a user, and the name of the user is
    /// short enough for the frame that announces it.
    pub open spec fn can_be_seated(self) -> bool {
        self.authenticated_user is Some && str_fits_prefix(self.authenticated_user->0)
    }
}

/// How far a connection has come.
#[derive(Debug, Clone, Copy, PartialEq, Eq, Structural)]
pub enum Phase {
    /// Nobody yet: only a token is taken.
    Unauthenticated,
    /// Somebody, on no board: only creating or joining a board is taken.
    Authenticated,
    /// Somebody on a board.
    InBoard,
}

/// What the server does with a message.
#[derive(Debug, Clone, Copy, PartialEq, Eq, Structural)]
pub enum Action {
    /// Ask the auth oracle.
    Authenticate,
    /// Make the board and seat the connection on it.
    Create,
    /// Seat the connection on the board.
    Join,
    /// Pass the frame on to the board, and keep it in the history.
    Relay,
    /// Nothing.
    Ignore,
    /// Close the connection.
    Close(CloseReason),
}

/// What the server does with the message `m` from a connection in phase `phase`.
pub open spec fn action(phase: Phase, m: MessageView) -> Action {
    match phase {
        Phase::Unauthenticated => match m {
            MessageView::Auth { .. } => Action::Authenticate,
            _ => Action::Close(CloseReason::AuthExpected),
        },
        Phase::Authenticated => match m {
            MessageView::Join { .. } => Action::Join,
            MessageView::Create { .. } => Action::Create,
            _ => Action::Close(CloseReason::AuthExpected),
        },
        Phase::InBoard => match m {
            MessageView::Auth { .. } => Action::Close(CloseReason::AlreadyAuthenticated),
            MessageView::Join { .. } => Action::Close(CloseReason::AlreadyJoined),
            MessageView::Create { .. } => Action::Close(CloseReason::AlreadyJoined),
            MessageView::BoardConfiguration { .. } => Action::Close(
                CloseReason::BoardConfigurationInvalid,
            ),
            MessageView::History { .. } => Action::Close(CloseReason::HistoryInvalid),
            MessageView::ServerMessage { .. } => Action::Close(CloseReason::ServerMessageInvalid),
            MessageView::UserJoin { .. } => Action::Close(CloseReason::UserJoinInvalid),
            MessageView::UserLeave { .. } => Action::Close(CloseReason::UserLeaveInvalid),
            MessageView::Ping { .. } => Action::Ignore,
            MessageView::Step { .. } => Action::Ignore,
            MessageView::Undo { .. } => Action::Ignore,
            MessageView::Draw { .. } => Action::Relay,
            MessageView::CursorMove { .. } => Action::Relay,
            MessageView::Fill { .. } => Action::Relay,
            MessageView::Image { .. } => Action::Relay,
            MessageView::Text { .. } => Action::Relay,
        },
    }
}

impl ClientView {
    /// How far the connection has come. A connection without a user counts as unauthenticated
    /// whatever else it holds.
    pub open spec fn phase(self) -> Phase {
        if self.authenticated_user is None {
            Phase::Unauthenticated
        } else if self.board_context is None {
            Phase::Authenticated
        } else {
            Phase::InBoard
        }
    }

    /// Why the connection cannot be seated on a board, if it cannot: it has no user, or a user
    /// whose name is too long for the frame that announces it.
    pub open spec fn refusal(self) -> Option<CloseReason> {
        if self.authenticated_user is None {
            Some(CloseReason::AuthExpected)
        } else if !str_fits_prefix(self.authenticated_user->0) {
            Some(CloseReason::Internal)
        } else {
            None
        }
    }

    /// This connection as it enters the board called `name`, before it has its id.
    pub open spec fn entering(self, name: Seq<char>) -> ClientView {
        ClientView {
            board_context: Some(BoardContextView { board_name: name, board_client_id: 0 }),
            ..self
        }
    }
}

/// What one call of a handler did: the connection and the registry before and after, the
/// calls that were made on channels, and what the handler returned.
pub struct Turn {
    pub client: ClientView,
    pub server: Map<Seq<char>, BoardView>,
    pub client_after: ClientView,
    pub server_after: Map<Seq<char>, BoardView>,
    pub calls: Seq<DispatchView>,
    pub result: Result<(), Failure>,
}

/// The connection was ordered to close for `reason`, on its own channel, and nothing else
/// happened to it. The call fails, with what the channel answered, where the channel did not
/// take the order.
pub open spec fn closed(
    client: ClientView,
    client_after: ClientView,
    calls: Seq<DispatchView>,
    result: Result<(), Failure>,
    reason: CloseReason,
) -> bool {
    &&& client_after == client
    &&& calls == seq![
        DispatchView {
            out: client.out,
            to: client.id(),
            signal: SignalView::Close(reason),
            accepted: result is Ok,
        },
    ]
    &&& result is Err ==> result->Err_0 is Channel
}

/// The connection became the user that `token` stands for, or was closed where the token
/// stands for nobody.
pub open spec fn authenticated(
    client: ClientView,
    client_after: ClientView,
    calls: Seq<DispatchView>,
    result: Result<(), Failure>,
    token: Seq<char>,
) -> bool {
    match spec_auth(token) {
        Some(name) => {
            &&& client_after == ClientView { authenticated_user: Some(name), ..client }
            &&& calls == Seq::<DispatchView>::empty()
            &&& result is Ok
        },
        None => closed(client, client_after, calls, result, CloseReason::InvalidAuth),
    }
}

/// The connection `client`, about to enter the board called `name`, was seated on `board`: it
/// got the next id of the board, the members were told, and it was sent the configuration and
/// the history. The call fails where its channel refused a frame of that burst.
pub open spec fn seated_on(
    board: BoardView,
    board_after: BoardView,
    client: ClientView,
    client_after: ClientView,
    calls: Seq<DispatchView>,
    result: Result<(), Failure>,
    name: Seq<char>,
) -> bool {
    let entering = client.entering(name);
    let id = board.next_client_id;
    let fan = drain(
        board.roster,
        seq![encode_message(join_message(entering, id))],
        outcomes(calls),
    );
    &&& client_after == seated(entering, id)
    &&& board_after == board.with_member(entering, outcomes(calls))
    &&& fan.trace.len() < calls.len()
    &&& calls.take(fan.trace.len() as int) == fan.trace
    &&& board.is_burst(client.out, id, calls.skip(fan.trace.len() as int))
    &&& result == if calls.last().accepted {
        Ok::<(), Failure>(())
    } else {
        Err::<(), Failure>(Failure::Session(SessionError::SendFailed))
    }
}

impl Turn {
    /// Nothing happened.
    pub open spec fn rests(self) -> bool {
        &&& self.client_after == self.client
        &&& self.server_after == self.server
        &&& self.calls == Seq::<DispatchView>::empty()
        &&& self.result is Ok
    }

    /// The connection was ordered to close for `reason`, and nothing else happened.
    pub open spec fn closes(self, reason: CloseReason) -> bool {
        &&& self.server_after == self.server
        &&& closed(self.client, self.client_after, self.calls, self.result, reason)
    }

    /// The connection was authenticated by `token`, and nothing else happened.
    pub open spec fn authenticates(self, token: Seq<char>) -> bool {
        &&& self.server_after == self.server
        &&& authenticated(self.client, self.client_after, self.calls, self.result, token)
    }

    /// The connection was seated on the board called `name`: on the board of that name, or on a
    /// new one where there was none.
    pub open spec fn seats(self, name: Seq<char>) -> bool {
        let board = if self.server.contains_key(name) {
            self.server[name]
        } else {
            Board::new_view()
        };
        &&& self.server_after == self.server.insert(name, self.server_after[name])
        &&& seated_on(
            board,
            self.server_after[name],
            self.client,
            self.client_after,
            self.calls,
            self.result,
            name,
        )
    }

    /// The connection asked to enter the board called `name`, which `must_exist` or must not.
    /// It is closed where the registry says otherwise, and where the connection cannot be
    /// seated; else it is seated.
    pub open spec fn enters(self, name: Seq<char>, must_exist: bool) -> bool {
        if self.server.contains_key(name) != must_exist {
            self.closes(
                if must_exist {
                    CloseReason::BoardNotFound
                } else {
                    CloseReason::BoardAlreadyExists
                },
            )
        } else {
            match self.client.refusal() {
                Some(reason) => self.closes(reason),
                None => self.seats(name),
            }
        }
    }

    /// The frame `bytes` went to the board of the connection: into its history, unless the
    /// board keeps none, and to everybody on its roster, the sender too. Nothing happened
    /// where the connection has no board, or one that the registry does not know.
    pub open spec fn relays(self, bytes: Seq<u8>) -> bool {
        if self.client.board_context is Some && self.server.contains_key(
            self.client.board_context->0.board_name,
        ) {
            let name = self.client.board_context->0.board_name;
            let board = self.server[name];
            let logged = if board.history_size != 0 {
                board.with_history_of(bytes)
            } else {
                board
            };
            let fan = drain(board.roster, seq![bytes], outcomes(self.calls));
            &&& self.client_after == self.client
            &&& self.calls == fan.trace
            &&& self.server_after == self.server.insert(name, logged.with_roster(fan.roster))
            &&& self.result is Ok
        } else {
            self.rests()
        }
    }

    /// The server did with the message `m`, which came as the frame `bytes`, what is done with
    /// it in phase `phase`.
    pub open spec fn follows(self, phase: Phase, m: MessageView, bytes: Seq<u8>) -> bool {
        match action(phase, m) {
            Action::Authenticate => self.authenticates(m->jwt_token),
            Action::Create => self.enters(m->Create_name, false),
            Action::Join => self.enters(m->Join_name, true),
            Action::Relay => self.relays(bytes),
            Action::Ignore => self.rests(),
            Action::Close(reason) => self.closes(reason),
        }
    }

    /// The server did with the frame `bytes` what is done with it: closed the connection where
    /// the frame holds no message, and else followed the message in the phase of the
    /// connection.
    pub open spec fn serves(self, bytes: Seq<u8>) -> bool {
        match decode_message(bytes) {
            Some(m) => self.follows(self.client.phase(), m, bytes),
            None => self.closes(CloseReason::InvalidMessage),
        }
    }
}

/// What the transport hands over: text, which the server does not take, or bytes.
pub enum Incoming {
    Text(String),
    Binary(Vec<u8>),
}

impl Client {
    /// A connection that has done nothing yet.
    pub fn new(out: ws::Sender) -> (client: Client)
        ensures
            client@ == (ClientView { out, authenticated_user: None, board_context: None }),
    {
        Client { out, authenticated_user: None, board_context: None }
    }

    /// The board id of the connection, if it is on a board.
    pub fn id(&self) -> (id: Option<UserId>)
        ensures
            id == self@.id(),
    {
        match &self.board_context {
            Some(context) => Some(context.board_client_id),
            None => None,
        }
    }

    /// How far the connection has come.
    pub fn phase(&self) -> (phase: Phase)
        ensures
            phase == self@.phase(),
    {
        if self.authenticated_user.is_none() {
            Phase::Unauthenticated
        } else if self.board_context.is_none() {
            Phase::Authenticated
        } else {
            Phase::InBoard
        }
    }

    /// Orders the connection to close, telling the peer why.
    fn close_with_reason(
        &self,
        reason: CloseReason,
        sent: &mut Vec<Dispatch>,
    ) -> (res: Result<(), Failure>)
        ensures
            extends(old(sent)@, final(sent)@),
            closed(self@, self@, added(old(sent)@, final(sent)@), res, reason),
    {
        match close(&self.out, self.id(), reason, sent) {
            Ok(()) => Ok(()),
            Err(e) => Err(Failure::Channel(e)),
        }
    }

    /// Takes one frame from the transport. Text is refused: the connection is closed with
    /// "expected binary". Bytes are served as `handle_binary_msg` does.
    pub fn on_message(
        &mut self,
        server: &mut Server,
        msg: Incoming,
        sent: &mut Vec<Dispatch>,
    ) -> (res: Result<(), Failure>)
        requires
            old(server).wf(),
        ensures
            final(server).wf(),
            extends(old(sent)@, final(sent)@),
            ({
                let turn = Turn {
                    client: old(self)@,
                    server: old(server)@,
                    client_after: final(self)@,
                    server_after: final(server)@,
                    calls: added(old(sent)@, final(sent)@),
                    result: res,
                };
                match msg {
                    Incoming::Text(_) => turn.closes(CloseReason::ExpectedBinary),
                    Incoming::Binary(t) => turn.serves(t@),
                }
            }),
    {
        match msg {
            Incoming::Text(_) => self.close_with_reason(CloseReason::ExpectedBinary, sent),
            Incoming::Binary(t) => self.handle_binary_msg(server, t, sent),
        }
    }

    /// Serves one binary frame: decodes it, and does with the message what the phase of the
    /// connection asks for. A frame that holds no message closes the connection with "invalid
    /// message".
    pub fn handle_binary_msg(
        &mut self,
        server: &mut Server,
        t: Vec<u8>,
        sent: &mut Vec<Dispatch>,
    ) -> (res: Result<(), Failure>)
        requires
            old(server).wf(),
        ensures
            final(server).wf(),
            extends(old(sent)@, final(sent)@),
            (Turn {
                client: old(self)@,
                server: old(server)@,
                client_after: final(self)@,
                server_after: final(server)@,
                calls: added(old(sent)@, final(sent)@),
                result: res,
            }).serves(t@),
    {
        let msg = match from_bytes(t.as_slice()) {
            Ok(m) => m,
            Err(_) => {
                return self.close_with_reason(CloseReason::InvalidMessage, sent);
            },
        };
        if self.authenticated_user.is_none() {
            return self.ensure_auth(msg, sent);
        }
        if self.board_context.is_none() {
            return self.ensure_in_board(server, msg, sent);
        }
        self.handle_in_board_msg(server, msg, &t, sent)
    }

    /// Serves a message as in the unauthenticated phase: a token goes to the auth oracle, and
    /// anything else closes the connection with "auth expected".
    pub fn ensure_auth(
        &mut self,
        msg: Message,
        sent: &mut Vec<Dispatch>,
    ) -> (res: Result<(), Failure>)
        ensures
            extends(old(sent)@, final(sent)@),
            match msg@ {
                MessageView::Auth { jwt_token } => authenticated(
                    old(self)@,
                    final(self)@,
                    added(old(sent)@, final(sent)@),
                    res,
                    jwt_token,
                ),
                _ => closed(
                    old(self)@,
                    final(self)@,
                    added(old(sent)@, final(sent)@),
                    res,
                    CloseReason::AuthExpected,
                ),
            },
    {
        match msg {
            Message::Auth(t) => match auth(t) {
                None => self.close_with_reason(CloseReason::InvalidAuth, sent),
                Some(user) => {
                    self.authenticated_user = Some(user);
                    proof {
                        added_nothing(sent@);
                    }
                    Ok(())
                },
            },
            _ => self.close_with_reason(CloseReason::AuthExpected, sent),
        }
    }

    /// Serves a message as in the authenticated phase: the connection creates a board or joins
    /// one, and anything else closes it with "auth expected".
    pub fn ensure_in_board(
        &mut self,
        server: &mut Server,
        msg: Message,
        sent: &mut Vec<Dispatch>,
    ) -> (res: Result<(), Failure>)
        requires
            old(server).wf(),
        ensures
            final(server).wf(),
            extends(old(sent)@, final(sent)@),
            ({
                let turn = Turn {
                    client: old(self)@,
                    server: old(server)@,
                    client_after: final(self)@,
                    server_after: final(server)@,
                    calls: added(old(sent)@, final(sent)@),
                    result: res,
                };
                match msg@ {
                    MessageView::Join { name } => turn.enters(name, true),
                    MessageView::Create { name, .. } => turn.enters(name, false),
                    _ => turn.closes(CloseReason::AuthExpected),
                }
            }),
    {
        match msg {
            Message::Join(t) => self.handle_board_join(server, t, sent),
            Message::Create(t) => self.handle_board_create(server, t, sent),
            _ => self.close_with_reason(CloseReason::AuthExpected, sent),
        }
    }

    /// Why the connection cannot be seated on a board, if it cannot.
    fn refusal(&self) -> (reason: Option<CloseReason>)
        ensures
            reason == self@.refusal(),
    {
        match &self.authenticated_user {
            None => Some(CloseReason::AuthExpected),
            Some(user) => {
                if user.username.as_str().as_bytes().len() > MAX_FIELD_LEN {
                    Some(CloseReason::Internal)
                } else {
                    None
                }
            },
        }
    }

    /// Takes a seat on `board`, which the registry holds under `name`.
    fn take_seat(
        &mut self,
        board: &mut Board,
        name: &str,
        sent: &mut Vec<Dispatch>,
    ) -> (res: Result<(), Failure>)
        requires
            old(self)@.refusal() is None,
        ensures
            extends(old(sent)@, final(sent)@),
            seated_on(
                old(board)@,
                final(board)@,
                old(self)@,
                final(self)@,
                added(old(sent)@, final(sent)@),
                res,
                name@,
            ),
    {
        self.board_context = Some(
            BoardContext { board_client_id: 0, board_name: name.to_owned() },
        );
        assert(self@ == old(self)@.entering(name@));
        match board.add_client(self, sent) {
            Ok(()) => Ok(()),
            Err(e) => Err(Failure::Session(e)),
        }
    }

    /// Serves the wish for a new board called as `t` says. A name that is taken closes the
    /// connection with "board already exists".
    pub fn handle_board_create(
        &mut self,
        server: &mut Server,
        t: Create,
        sent: &mut Vec<Dispatch>,
    ) -> (res: Result<(), Failure>)
        requires
            old(server).wf(),
        ensures
            final(server).wf(),
            extends(old(sent)@, final(sent)@),
            (Turn {
                client: old(self)@,
                server: old(server)@,
                client_after: final(self)@,
                server_after: final(server)@,
                calls: added(old(sent)@, final(sent)@),
                result: res,
            }).enters(t.name@, false),
    {
        if server.has_board(t.name) {
            return self.close_with_reason(CloseReason::BoardAlreadyExists, sent);
        }
        match self.refusal() {
            Some(reason) => {
                return self.close_with_reason(reason, sent);
            },
            None => {},
        }
        let board = server.create(t.name.to_owned());
        self.take_seat(board, t.name, sent)
    }

    /// Serves the wish to enter the board called as `t` says. A name that no board has closes
    /// the connection with "board not found".
    pub fn handle_board_join(
        &mut self,
        server: &mut Server,
        t: Join,
        sent: &mut Vec<Dispatch>,
    ) -> (res: Result<(), Failure>)
        requires
            old(server).wf(),
        ensures
            final(server).wf(),
            extends(old(sent)@, final(sent)@),
            (Turn {
                client: old(self)@,
                server: old(server)@,
                client_after: final(self)@,
                server_after: final(server)@,
                calls: added(old(sent)@, final(sent)@),
                result: res,
            }).enters(t.name@, true),
    {
        match server.find(t.name) {
            Some(board) => {
                match self.refusal() {
                    Some(reason) => {
                        assert(old(server)@.insert(t.name@, board@) =~= old(server)@);
                        self.close_with_reason(reason, sent)
                    },
                    None => self.take_seat(board, t.name, sent),
                }
            },
            None => self.close_with_reason(CloseReason::BoardNotFound, sent),
        }
    }

    /// Serves a message as on a board: drawing frames are passed on, housekeeping frames are
    /// taken in silence, and everything else closes the connection.
    pub fn handle_in_board_msg(
        &mut self,
        server: &mut Server,
        msg: Message,
        t: &Vec<u8>,
        sent: &mut Vec<Dispatch>,
    ) -> (res: Result<(), Failure>)
        requires
            old(server).wf(),
        ensures
            final(server).wf(),
            extends(old(sent)@, final(sent)@),
            (Turn {
                client: old(self)@,
                server: old(server)@,
                client_after: final(self)@,
                server_after: final(server)@,
                calls: added(old(sent)@, final(sent)@),
                result: res,
            }).follows(Phase::InBoard, msg@, t@),
    {
        proof {
            added_nothing(sent@);
        }
        match msg {
            Message::Auth(_) => self.close_with_reason(CloseReason::AlreadyAuthenticated, sent),
            Message::Join(_) => self.close_with_reason(CloseReason::AlreadyJoined, sent),
            Message::BoardConfiguration(_) => self.close_with_reason(
                CloseReason::BoardConfigurationInvalid,
                sent,
            ),
            Message::History(_) => self.close_with_reason(CloseReason::HistoryInvalid, sent),
            Message::ServerMessage(_) => self.close_with_reason(
                CloseReason::ServerMessageInvalid,
                sent,
            ),
            Message::UserJoin(_) => self.close_with_reason(CloseReason::UserJoinInvalid, sent),
            Message::UserLeave(_) => self.close_with_reason(CloseReason::UserLeaveInvalid, sent),
            Message::Create(_) => self.close_with_reason(CloseReason::AlreadyJoined, sent),
            Message::Ping(_) => Ok(()),
            Message::Step(_) => Ok(()),
            Message::Undo(_) => Ok(()),
            Message::Draw(_)
            | Message::CursorMove(_)
            | Message::Fill(_)
            | Message::Image(_)
            | Message::Text(_) => self.broadcast_to_board(server, t, sent),
        }
    }

    /// Passes the frame `t` on to the board of the connection, as it came.
    pub fn broadcast_to_board(
        &mut self,
        server: &mut Server,
        t: &Vec<u8>,
        sent: &mut Vec<Dispatch>,
    ) -> (res: Result<(), Failure>)
        requires
            old(server).wf(),
        ensures
            final(server).wf(),
            extends(old(sent)@, final(sent)@),
            (Turn {
                client: old(self)@,
                server: old(server)@,
                client_after: final(self)@,
                server_after: final(server)@,
                calls: added(old(sent)@, final(sent)@),
                result: res,
            }).relays(t@),
    {
        proof {
            added_nothing(sent@);
        }
        match &self.board_context {
            Some(context) => {
                match server.find(context.board_name.as_str()) {
                    Some(board) => {
                        if board.history_limit() != 0 {
                            board.add_to_history(t);
                        }
                        board.broadcast(t, sent);
                    },
                    None => {},
                }
            },
            None => {},
        }
        Ok(())
    }
}

} // verus!
