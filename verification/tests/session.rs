use openboard::client::{BoardContext, Client, Incoming, Phase};
use openboard::de::from_bytes;
use openboard::error::SessionError;
use openboard::messages::{
    Auth, BoardConfiguration, BoardFlags, Create, CursorMove, Draw, DrawFlags, Fill, History,
    Image, Join, Message, Ping, ServerMessage, Step, Text, Undo, UserJoin, UserLeave,
    HISTORY_ENABLED, HISTORY_TRIMMED, PALETTE_DEFAULT,
};
use openboard::ser::to_bytes;
use openboard::server::{same_text, Board, Server, User};
use openboard::transport::{
    close, deliver, CloseCode, CloseReason, Dispatch, Failure, Signal,
};

/// The far end of a channel: the queue that an event loop would read. While it is there, the
/// channel takes what fits in it; once it is gone, the channel takes nothing.
struct Peer {
    out: ws::Sender,
    queue: Option<Box<dyn Fn() -> Vec<String>>>,
}

impl Peer {
    /// A peer whose channel has the token and the connection id `n`.
    fn live(n: usize) -> Peer {
        let (tx, rx) = mio::channel::sync_channel(1000);
        let out = ws::Sender::new(ws::util::Token(n), tx, n as u32);
        let queue = move || {
            let mut seen = Vec::new();
            while let Ok(command) = rx.try_recv() {
                seen.push(format!("{:?}", command));
            }
            seen
        };
        Peer { out, queue: Some(Box::new(queue)) }
    }

    fn dead(n: usize) -> Peer {
        let mut peer = Peer::live(n);
        peer.kill();
        peer
    }

    fn kill(&mut self) {
        self.queue = None;
    }

    fn out(&self) -> ws::Sender {
        self.out.clone()
    }

    /// What has arrived in the queue since it was last read, as the transport prints it.
    fn arrived(&self) -> Vec<String> {
        match &self.queue {
            Some(read) => read(),
            None => Vec::new(),
        }
    }

    /// The binary frames that have arrived since the queue was last read.
    fn inbox(&self) -> Vec<Vec<u8>> {
        let mut frames = Vec::new();
        for line in self.arrived() {
            if let Some(at) = line.find("Message(Binary([") {
                let rest = &line[at + "Message(Binary([".len()..];
                let end = rest.find("]))").unwrap();
                frames.push(
                    rest[..end]
                        .split(", ")
                        .filter(|byte| !byte.is_empty())
                        .map(|byte| byte.parse::<u8>().unwrap())
                        .collect(),
                );
            }
        }
        frames
    }

    /// The orders to close that have arrived since the queue was last read.
    fn closes(&self) -> Vec<(CloseCode, String)> {
        let mut orders = Vec::new();
        for line in self.arrived() {
            if let Some(at) = line.find("Close(") {
                let rest = &line[at + "Close(".len()..];
                let comma = rest.find(", \"").unwrap();
                let code = match &rest[..comma] {
                    "Invalid" => CloseCode::Invalid,
                    "Error" => CloseCode::Error,
                    other => panic!("unexpected close code {}", other),
                };
                let words = &rest[comma + 3..];
                orders.push((code, words[..words.find('"').unwrap()].to_string()));
            }
        }
        orders
    }

    /// The record of a frame handed to this peer's channel.
    fn frame(&self, to: Option<u8>, bytes: Vec<u8>, accepted: bool) -> Dispatch {
        Dispatch { out: self.out(), to, signal: Signal::Frame(bytes), accepted }
    }

    /// The record of an order to close handed to this peer's channel.
    fn closing(&self, to: Option<u8>, reason: CloseReason, accepted: bool) -> Dispatch {
        Dispatch { out: self.out(), to, signal: Signal::Close(reason), accepted }
    }
}

fn frame(message: Message) -> Vec<u8> {
    to_bytes(&message).unwrap()
}

fn default_configuration() -> Vec<u8> {
    frame(Message::BoardConfiguration(BoardConfiguration {
        palette: PALETTE_DEFAULT,
        background: 0,
        board_flags: BoardFlags::from_bits_truncate(HISTORY_ENABLED),
        history_size: 65535,
    }))
}

fn member(peer: &Peer, name: &str, board: &str) -> Client {
    Client {
        out: peer.out(),
        authenticated_user: Some(User { username: name.to_string() }),
        board_context: Some(BoardContext { board_name: board.to_string(), board_client_id: 0 }),
    }
}

fn serve(
    client: &mut Client,
    server: &mut Server,
    message: Message,
) -> (Result<(), Failure>, Vec<Dispatch>) {
    let mut sent = Vec::new();
    let result = client.handle_binary_msg(server, frame(message), &mut sent);
    (result, sent)
}

/// A connection that has authenticated as `name`.
fn authenticated(peer: &Peer, server: &mut Server, name: &str) -> Client {
    let mut client = Client::new(peer.out());
    let (result, sent) = serve(&mut client, server, Message::Auth(Auth { jwt_token: name }));
    assert!(result.is_ok());
    assert!(sent.is_empty());
    client
}

fn id_of(client: &Client) -> u8 {
    client.board_context.as_ref().unwrap().board_client_id
}

fn channel_failed(result: &Result<(), Failure>) -> bool {
    matches!(result, Err(Failure::Channel(_)))
}

fn seat_failed(result: &Result<(), Failure>) -> bool {
    matches!(result, Err(Failure::Session(SessionError::SendFailed)))
}

#[test]
fn auth_then_create() {
    let a = Peer::live(1);
    let mut server = Server::new();
    let mut client = Client::new(a.out());
    assert_eq!(client.phase(), Phase::Unauthenticated);
    let (result, sent) = serve(&mut client, &mut server, Message::Auth(Auth { jwt_token: "t" }));
    assert!(result.is_ok());
    assert!(sent.is_empty());
    assert_eq!(client.phase(), Phase::Authenticated);
    assert_eq!(client.authenticated_user.as_ref().unwrap().username, "t");
    let (result, sent) = serve(
        &mut client,
        &mut server,
        Message::Create(Create { template_id: 7, name: "alpha" }),
    );
    assert!(result.is_ok());
    assert!(server.has_board("alpha"));
    assert_eq!(client.phase(), Phase::InBoard);
    assert_eq!(id_of(&client), 0);
    assert_eq!(client.board_context.as_ref().unwrap().board_name, "alpha");
    let board = server.find("alpha").unwrap();
    assert_eq!(board.member_ids(), vec![0]);
    assert_eq!(board.next_client_id(), 1);
    assert_eq!(sent, vec![a.frame(Some(0), default_configuration(), true)]);
    assert_eq!(a.inbox(), vec![default_configuration()]);
    assert_eq!(
        from_bytes(default_configuration().as_slice()),
        Ok(Message::BoardConfiguration(BoardConfiguration {
            palette: PALETTE_DEFAULT,
            background: 0,
            board_flags: BoardFlags::from_bits_truncate(HISTORY_ENABLED),
            history_size: 65535,
        }))
    );
}

#[test]
fn second_joiner_notified() {
    let a = Peer::live(1);
    let b = Peer::live(2);
    let mut server = Server::new();
    let mut client_a = authenticated(&a, &mut server, "A");
    serve(&mut client_a, &mut server, Message::Create(Create { template_id: 7, name: "alpha" }));
    a.inbox();
    let mut client_b = authenticated(&b, &mut server, "B");
    let (result, sent) = serve(&mut client_b, &mut server, Message::Join(Join { name: "alpha" }));
    assert!(result.is_ok());
    assert_eq!(client_b.phase(), Phase::InBoard);
    assert_eq!(id_of(&client_b), 1);
    let join = frame(Message::UserJoin(UserJoin { user_id: 1, username: "B" }));
    assert_eq!(
        sent,
        vec![a.frame(Some(0), join.clone(), true), b.frame(Some(1), default_configuration(), true)]
    );
    assert_eq!(a.inbox(), vec![join]);
    assert_eq!(b.inbox(), vec![default_configuration()]);
    assert_eq!(server.find("alpha").unwrap().member_ids(), vec![0, 1]);
}

#[test]
fn draw_broadcast() {
    let a = Peer::live(1);
    let b = Peer::live(2);
    let mut server = Server::new();
    let mut client_a = authenticated(&a, &mut server, "A");
    serve(&mut client_a, &mut server, Message::Create(Create { template_id: 7, name: "alpha" }));
    let mut client_b = authenticated(&b, &mut server, "B");
    serve(&mut client_b, &mut server, Message::Join(Join { name: "alpha" }));
    a.inbox();
    b.inbox();
    let draw = frame(Message::Draw(Draw { position: 100, color: 3, flags: DrawFlags(0) }));
    assert_eq!(draw, vec![5, 100, 0, 0, 0, 3, 0]);
    let mut sent = Vec::new();
    assert!(client_a.handle_binary_msg(&mut server, draw.clone(), &mut sent).is_ok());
    assert_eq!(
        sent,
        vec![a.frame(Some(0), draw.clone(), true), b.frame(Some(1), draw.clone(), true)]
    );
    assert_eq!(b.inbox(), vec![draw.clone()]);
    assert_eq!(a.inbox(), vec![draw.clone()]);
    let board = server.find("alpha").unwrap();
    assert_eq!(board.history(), &draw);
    let fill = frame(Message::Fill(Fill { start: 1, end: 2, color: 3 }));
    let mut sent = Vec::new();
    assert!(client_b.handle_binary_msg(&mut server, fill.clone(), &mut sent).is_ok());
    let board = server.find("alpha").unwrap();
    assert!(board.history().ends_with(&fill));
    assert_eq!(board.history().len(), draw.len() + fill.len());
    assert_eq!(&board.history()[..draw.len()], draw.as_slice());
}

#[test]
fn protocol_violation() {
    let a = Peer::live(1);
    let mut server = Server::new();
    let mut client = Client::new(a.out());
    let (result, sent) = serve(
        &mut client,
        &mut server,
        Message::Draw(Draw { position: 100, color: 3, flags: DrawFlags(0) }),
    );
    assert!(result.is_ok());
    assert_eq!(sent, vec![a.closing(None, CloseReason::AuthExpected, true)]);
    assert_eq!(a.closes(), vec![(CloseCode::Error, "auth expected".to_string())]);
    assert_eq!(CloseReason::AuthExpected.text(), "auth expected");
    assert_eq!(CloseReason::AuthExpected.code(), CloseCode::Error);
    assert_eq!(client.phase(), Phase::Unauthenticated);
}

#[test]
fn duplicate_create() {
    let a = Peer::live(1);
    let c = Peer::live(2);
    let mut server = Server::new();
    let mut client_a = authenticated(&a, &mut server, "A");
    serve(&mut client_a, &mut server, Message::Create(Create { template_id: 7, name: "alpha" }));
    let mut client_c = authenticated(&c, &mut server, "C");
    let (result, sent) = serve(
        &mut client_c,
        &mut server,
        Message::Create(Create { template_id: 9, name: "alpha" }),
    );
    assert!(result.is_ok());
    assert_eq!(sent, vec![c.closing(None, CloseReason::BoardAlreadyExists, true)]);
    assert_eq!(c.closes(), vec![(CloseCode::Error, "board already exists".to_string())]);
    assert_eq!(CloseReason::BoardAlreadyExists.text(), "board already exists");
    assert_eq!(client_c.phase(), Phase::Authenticated);
    assert_eq!(server.find("alpha").unwrap().member_ids(), vec![0]);
}

#[test]
fn peer_death() {
    let a = Peer::live(1);
    let mut b = Peer::live(2);
    let c = Peer::live(3);
    let mut server = Server::new();
    let mut client_a = authenticated(&a, &mut server, "A");
    serve(&mut client_a, &mut server, Message::Create(Create { template_id: 7, name: "alpha" }));
    let mut client_b = authenticated(&b, &mut server, "B");
    serve(&mut client_b, &mut server, Message::Join(Join { name: "alpha" }));
    let mut client_c = authenticated(&c, &mut server, "C");
    serve(&mut client_c, &mut server, Message::Join(Join { name: "alpha" }));
    assert_eq!(server.find("alpha").unwrap().member_ids(), vec![0, 1, 2]);
    a.inbox();
    c.inbox();
    b.kill();
    let fill = frame(Message::Fill(Fill { start: 1, end: 9, color: 2 }));
    let leave = frame(Message::UserLeave(UserLeave { user_id: 1 }));
    let mut sent = Vec::new();
    assert!(client_a.handle_binary_msg(&mut server, fill.clone(), &mut sent).is_ok());
    assert_eq!(
        sent,
        vec![
            a.frame(Some(0), fill.clone(), true),
            b.frame(Some(1), fill.clone(), false),
            c.frame(Some(2), fill.clone(), true),
            a.frame(Some(0), leave.clone(), true),
            c.frame(Some(2), leave.clone(), true),
        ]
    );
    assert_eq!(a.inbox(), vec![fill.clone(), leave.clone()]);
    assert_eq!(c.inbox(), vec![fill.clone(), leave.clone()]);
    assert_eq!(server.find("alpha").unwrap().member_ids(), vec![0, 2]);
    let mut sent = Vec::new();
    assert!(client_c.handle_binary_msg(&mut server, fill.clone(), &mut sent).is_ok());
    assert_eq!(
        sent,
        vec![a.frame(Some(0), fill.clone(), true), c.frame(Some(2), fill.clone(), true)]
    );
}

#[test]
fn a_joiner_uncovers_a_dead_member() {
    let a = Peer::live(1);
    let b = Peer::dead(2);
    let c = Peer::live(3);
    let mut board = Board::new();
    let mut sent = Vec::new();
    let mut client_a = member(&a, "A", "beta");
    let mut client_b = member(&b, "B", "beta");
    let mut client_c = member(&c, "C", "beta");
    assert_eq!(board.add_client(&mut client_a, &mut sent), Ok(()));
    assert_eq!(board.add_client(&mut client_b, &mut sent), Err(SessionError::SendFailed));
    assert_eq!(board.member_ids(), vec![0, 1]);
    sent.clear();
    a.inbox();
    assert_eq!(board.add_client(&mut client_c, &mut sent), Ok(()));
    let join = frame(Message::UserJoin(UserJoin { user_id: 2, username: "C" }));
    let leave = frame(Message::UserLeave(UserLeave { user_id: 1 }));
    assert_eq!(
        sent,
        vec![
            a.frame(Some(0), join.clone(), true),
            b.frame(Some(1), join.clone(), false),
            a.frame(Some(0), leave.clone(), true),
            c.frame(Some(2), default_configuration(), true),
        ]
    );
    assert_eq!(a.inbox(), vec![join, leave]);
    assert_eq!(c.inbox(), vec![default_configuration()]);
    assert_eq!(board.member_ids(), vec![0, 2]);
}

#[test]
fn several_dead_peers_are_announced_in_roster_order() {
    let mut peers = vec![Peer::live(1), Peer::live(2), Peer::live(3), Peer::live(4), Peer::live(5)];
    let mut board = Board::new();
    let mut sent = Vec::new();
    for (peer, name) in peers.iter().zip(["A", "B", "C", "D", "E"]) {
        assert_eq!(board.add_client(&mut member(peer, name, "b"), &mut sent), Ok(()));
    }
    assert_eq!(board.member_ids(), vec![0, 1, 2, 3, 4]);
    peers[0].kill();
    peers[2].kill();
    peers[4].kill();
    peers[1].inbox();
    peers[3].inbox();
    sent.clear();
    let text = frame(Message::Text(Text { center: 1, text: "hi", text_color: 2 }));
    board.broadcast(&text, &mut sent);
    let leave = |id: u8| frame(Message::UserLeave(UserLeave { user_id: id }));
    assert_eq!(
        sent,
        vec![
            peers[0].frame(Some(0), text.clone(), false),
            peers[1].frame(Some(1), text.clone(), true),
            peers[2].frame(Some(2), text.clone(), false),
            peers[3].frame(Some(3), text.clone(), true),
            peers[4].frame(Some(4), text.clone(), false),
            peers[1].frame(Some(1), leave(0), true),
            peers[3].frame(Some(3), leave(0), true),
            peers[1].frame(Some(1), leave(2), true),
            peers[3].frame(Some(3), leave(2), true),
            peers[1].frame(Some(1), leave(4), true),
            peers[3].frame(Some(3), leave(4), true),
        ]
    );
    assert_eq!(peers[1].inbox(), vec![text.clone(), leave(0), leave(2), leave(4)]);
    assert_eq!(peers[3].inbox(), vec![text.clone(), leave(0), leave(2), leave(4)]);
    assert_eq!(board.member_ids(), vec![1, 3]);
}

#[test]
fn a_board_that_loses_everybody_is_empty() {
    let mut a = Peer::live(1);
    let mut b = Peer::live(2);
    let mut board = Board::new();
    let mut sent = Vec::new();
    assert_eq!(board.add_client(&mut member(&a, "A", "b"), &mut sent), Ok(()));
    assert_eq!(board.add_client(&mut member(&b, "B", "b"), &mut sent), Ok(()));
    a.kill();
    b.kill();
    sent.clear();
    let moved = frame(Message::CursorMove(CursorMove { position: 1, user_id: 1 }));
    board.broadcast(&moved, &mut sent);
    assert_eq!(
        sent,
        vec![a.frame(Some(0), moved.clone(), false), b.frame(Some(1), moved.clone(), false)]
    );
    assert_eq!(board.member_ids(), Vec::<u8>::new());
    sent.clear();
    board.broadcast(&moved, &mut sent);
    assert!(sent.is_empty());
}

fn every_message_but(skip: &[u8]) -> Vec<Message<'static>> {
    let all = vec![
        Message::Auth(Auth { jwt_token: "again" }),
        Message::Join(Join { name: "a" }),
        Message::Create(Create { template_id: 1, name: "a" }),
        Message::BoardConfiguration(BoardConfiguration {
            palette: PALETTE_DEFAULT,
            background: 0,
            board_flags: BoardFlags::empty(),
            history_size: 1,
        }),
        Message::Step(Step { step_id: 1 }),
        Message::Draw(Draw { position: 1, color: 1, flags: DrawFlags(1) }),
        Message::CursorMove(CursorMove { position: 1, user_id: 1 }),
        Message::Fill(Fill { start: 1, end: 2, color: 1 }),
        Message::Image(Image { start: 1, end: 2, url: "u" }),
        Message::Text(Text { center: 1, text: "t", text_color: 1 }),
        Message::Undo(Undo { last_actual_step_id: 1 }),
        Message::Ping(Ping { timestamp: 1 }),
        Message::UserJoin(UserJoin { user_id: 1, username: "u" }),
        Message::UserLeave(UserLeave { user_id: 1 }),
        Message::ServerMessage(ServerMessage { message: "m" }),
        Message::History(History { data: &[1] }),
    ];
    all.into_iter().filter(|m| !skip.contains(&frame(*m)[0])).collect()
}

#[test]
fn unauthenticated_phase_takes_only_a_token() {
    let a = Peer::live(1);
    for message in every_message_but(&[0]) {
        let mut server = Server::new();
        let mut client = Client::new(a.out());
        let (result, sent) = serve(&mut client, &mut server, message);
        assert!(result.is_ok());
        assert_eq!(sent, vec![a.closing(None, CloseReason::AuthExpected, true)]);
        assert_eq!(a.closes(), vec![(CloseCode::Error, "auth expected".to_string())]);
        assert_eq!(client.phase(), Phase::Unauthenticated);
        assert!(!server.has_board("a"));
    }
    let mut client = Client::new(a.out());
    let mut sent = Vec::new();
    assert!(client.ensure_auth(Message::Auth(Auth { jwt_token: "someone" }), &mut sent).is_ok());
    assert!(sent.is_empty());
    assert_eq!(client.authenticated_user.unwrap().username, "someone");
}

#[test]
fn authenticated_phase_takes_only_create_and_join() {
    let a = Peer::live(1);
    for message in every_message_but(&[1, 2]) {
        let mut server = Server::new();
        let mut client = authenticated(&a, &mut server, "A");
        let (result, sent) = serve(&mut client, &mut server, message);
        assert!(result.is_ok());
        assert_eq!(sent, vec![a.closing(None, CloseReason::AuthExpected, true)]);
        assert_eq!(client.phase(), Phase::Authenticated);
        assert_eq!(client.authenticated_user.as_ref().unwrap().username, "A");
    }
    let mut server = Server::new();
    let mut client = authenticated(&a, &mut server, "A");
    a.closes();
    let (result, sent) = serve(&mut client, &mut server, Message::Join(Join { name: "nowhere" }));
    assert!(result.is_ok());
    assert_eq!(sent, vec![a.closing(None, CloseReason::BoardNotFound, true)]);
    assert_eq!(a.closes(), vec![(CloseCode::Error, "board not found".to_string())]);
    assert_eq!(CloseReason::BoardNotFound.text(), "board not found");
    assert_eq!(client.phase(), Phase::Authenticated);
    assert!(!server.has_board("nowhere"));
}

#[test]
fn in_board_phase_dispatches_by_variant() {
    let a = Peer::live(1);
    let mut server = Server::new();
    let mut client = authenticated(&a, &mut server, "A");
    serve(&mut client, &mut server, Message::Create(Create { template_id: 1, name: "a" }));
    a.inbox();
    let closed = vec![
        (Message::Auth(Auth { jwt_token: "t" }), CloseReason::AlreadyAuthenticated, "already authenticated"),
        (Message::Join(Join { name: "a" }), CloseReason::AlreadyJoined, "already joined a board"),
        (Message::Join(Join { name: "other" }), CloseReason::AlreadyJoined, "already joined a board"),
        (
            Message::Create(Create { template_id: 1, name: "other" }),
            CloseReason::AlreadyJoined,
            "already joined a board",
        ),
        (
            Message::BoardConfiguration(BoardConfiguration {
                palette: PALETTE_DEFAULT,
                background: 0,
                board_flags: BoardFlags::empty(),
                history_size: 1,
            }),
            CloseReason::BoardConfigurationInvalid,
            "board configuration invalid atm",
        ),
        (Message::History(History { data: &[1] }), CloseReason::HistoryInvalid, "history invalid atm"),
        (
            Message::ServerMessage(ServerMessage { message: "m" }),
            CloseReason::ServerMessageInvalid,
            "server message invalid atm",
        ),
        (
            Message::UserJoin(UserJoin { user_id: 1, username: "u" }),
            CloseReason::UserJoinInvalid,
            "user join invalid atm",
        ),
        (Message::UserLeave(UserLeave { user_id: 1 }), CloseReason::UserLeaveInvalid, "user leave invalid atm"),
    ];
    for (message, reason, text) in closed {
        let (result, sent) = serve(&mut client, &mut server, message);
        assert!(result.is_ok());
        assert_eq!(sent, vec![a.closing(Some(0), reason, true)]);
        assert_eq!(a.closes(), vec![(CloseCode::Error, text.to_string())]);
        assert_eq!(reason.text(), text);
        assert_eq!(reason.code(), CloseCode::Error);
        assert_eq!(client.phase(), Phase::InBoard);
    }
    assert!(!server.has_board("other"));
    let silent = vec![
        Message::Ping(Ping { timestamp: 1 }),
        Message::Step(Step { step_id: 1 }),
        Message::Undo(Undo { last_actual_step_id: 1 }),
    ];
    for message in silent {
        let (result, sent) = serve(&mut client, &mut server, message);
        assert!(result.is_ok());
        assert!(sent.is_empty());
    }
    assert!(server.find("a").unwrap().history().is_empty());
    let relayed = vec![
        Message::Draw(Draw { position: 1, color: 1, flags: DrawFlags(1) }),
        Message::CursorMove(CursorMove { position: 1, user_id: 1 }),
        Message::Fill(Fill { start: 1, end: 2, color: 1 }),
        Message::Image(Image { start: 1, end: 2, url: "u" }),
        Message::Text(Text { center: 1, text: "t", text_color: 1 }),
    ];
    let mut history = Vec::new();
    for message in relayed {
        let bytes = frame(message);
        history.extend_from_slice(&bytes);
        let (result, sent) = serve(&mut client, &mut server, message);
        assert!(result.is_ok());
        assert_eq!(sent, vec![a.frame(Some(0), bytes.clone(), true)]);
        assert_eq!(a.inbox(), vec![bytes]);
        assert_eq!(server.find("a").unwrap().history(), &history);
    }
}

#[test]
fn frames_are_relayed_as_they_came() {
    let a = Peer::live(1);
    let mut server = Server::new();
    let mut client = authenticated(&a, &mut server, "A");
    serve(&mut client, &mut server, Message::Create(Create { template_id: 1, name: "a" }));
    a.inbox();
    let mut bytes = frame(Message::Draw(Draw { position: 1, color: 1, flags: DrawFlags(1) }));
    bytes.extend_from_slice(&[0xaa, 0xbb]);
    let mut sent = Vec::new();
    assert!(client.on_message(&mut server, Incoming::Binary(bytes.clone()), &mut sent).is_ok());
    assert_eq!(sent, vec![a.frame(Some(0), bytes.clone(), true)]);
    assert_eq!(a.inbox(), vec![bytes.clone()]);
    assert_eq!(server.find("a").unwrap().history(), &bytes);
}

#[test]
fn frames_that_are_no_message_close_the_connection() {
    let a = Peer::live(1);
    let mut server = Server::new();
    let mut client = Client::new(a.out());
    for bytes in [vec![], vec![16u8], vec![0, 5, 0, b'a'], vec![0, 1, 0, 0xff]] {
        let mut sent = Vec::new();
        assert!(client.handle_binary_msg(&mut server, bytes, &mut sent).is_ok());
        assert_eq!(sent, vec![a.closing(None, CloseReason::InvalidMessage, true)]);
        assert_eq!(a.closes(), vec![(CloseCode::Error, "invalid message".to_string())]);
    }
    assert_eq!(CloseReason::InvalidMessage.text(), "invalid message");
    let mut sent = Vec::new();
    assert!(client
        .on_message(&mut server, Incoming::Text("hello".to_string()), &mut sent)
        .is_ok());
    assert_eq!(sent, vec![a.closing(None, CloseReason::ExpectedBinary, true)]);
    assert_eq!(a.closes(), vec![(CloseCode::Invalid, "expected binary".to_string())]);
    assert_eq!(CloseReason::ExpectedBinary.text(), "expected binary");
    assert_eq!(CloseReason::ExpectedBinary.code(), CloseCode::Invalid);
    assert_eq!(client.phase(), Phase::Unauthenticated);
}

#[test]
fn closing_fails_where_the_channel_is_gone() {
    let gone = Peer::dead(1);
    let mut server = Server::new();
    let mut client = Client::new(gone.out());
    let mut sent = Vec::new();
    let result = client.handle_binary_msg(&mut server, vec![16], &mut sent);
    assert!(channel_failed(&result));
    assert_eq!(sent, vec![gone.closing(None, CloseReason::InvalidMessage, false)]);
    let mut sent = Vec::new();
    assert!(close(&gone.out(), Some(3), CloseReason::Internal, &mut sent).is_err());
    assert_eq!(sent, vec![gone.closing(Some(3), CloseReason::Internal, false)]);
    assert_eq!(CloseReason::Internal.text(), "internal");
    assert_eq!(CloseReason::InvalidAuth.text(), "invalid auth");
    let a = Peer::live(2);
    assert!(close(&a.out(), None, CloseReason::Internal, &mut sent).is_ok());
    assert_eq!(a.closes(), vec![(CloseCode::Error, "internal".to_string())]);
    assert!(deliver(&a.out(), None, &vec![1, 2], &mut sent));
    assert!(!deliver(&gone.out(), Some(1), &vec![3], &mut sent));
    assert_eq!(
        sent[2..],
        vec![a.frame(None, vec![1, 2], true), gone.frame(Some(1), vec![3], false)]
    );
    assert_eq!(a.inbox(), vec![vec![1, 2]]);
}

#[test]
fn joining_fails_where_the_joiner_is_gone() {
    let a = Peer::live(1);
    let b = Peer::dead(2);
    let mut server = Server::new();
    let mut client_a = authenticated(&a, &mut server, "A");
    serve(&mut client_a, &mut server, Message::Create(Create { template_id: 1, name: "a" }));
    let mut client_b = authenticated(&b, &mut server, "B");
    let (result, sent) = serve(&mut client_b, &mut server, Message::Join(Join { name: "a" }));
    assert!(seat_failed(&result));
    assert_eq!(
        sent,
        vec![
            a.frame(Some(0), frame(Message::UserJoin(UserJoin { user_id: 1, username: "B" })), true),
            b.frame(Some(1), default_configuration(), false),
        ]
    );
    assert_eq!(client_b.phase(), Phase::InBoard);
    assert_eq!(server.find("a").unwrap().member_ids(), vec![0, 1]);
    assert_eq!(server.find("a").unwrap().next_client_id(), 2);
    // The next broadcast finds B gone.
    let (_, sent) =
        serve(&mut client_a, &mut server, Message::Fill(Fill { start: 1, end: 2, color: 3 }));
    assert_eq!(sent.len(), 3);
    assert_eq!(
        sent[2],
        a.frame(Some(0), frame(Message::UserLeave(UserLeave { user_id: 1 })), true)
    );
    assert_eq!(server.find("a").unwrap().member_ids(), vec![0]);
}

#[test]
fn a_name_too_long_for_a_frame_is_an_internal_error() {
    let a = Peer::live(1);
    let mut server = Server::new();
    let mut client = Client::new(a.out());
    client.authenticated_user = Some(User { username: "n".repeat(65536) });
    let (result, sent) =
        serve(&mut client, &mut server, Message::Create(Create { template_id: 1, name: "a" }));
    assert!(result.is_ok());
    assert_eq!(sent, vec![a.closing(None, CloseReason::Internal, true)]);
    assert!(!server.has_board("a"));
    assert_eq!(client.phase(), Phase::Authenticated);
    let mut board = Board::new();
    let mut sent = Vec::new();
    client.board_context = Some(BoardContext { board_name: "a".to_string(), board_client_id: 9 });
    assert_eq!(board.add_client(&mut client, &mut sent), Err(SessionError::Internal));
    assert!(sent.is_empty());
    assert_eq!(board.member_ids(), Vec::<u8>::new());
    assert_eq!(board.next_client_id(), 0);
    assert_eq!(id_of(&client), 9);
    client.authenticated_user = Some(User { username: "n".repeat(65535) });
    assert_eq!(board.add_client(&mut client, &mut sent), Ok(()));
    assert_eq!(id_of(&client), 0);
}

#[test]
fn add_client_wants_a_user() {
    let a = Peer::live(1);
    let mut board = Board::new();
    let mut sent = Vec::new();
    let mut nobody = Client::new(a.out());
    assert_eq!(board.add_client(&mut nobody, &mut sent), Err(SessionError::Unauthenticated));
    nobody.board_context = Some(BoardContext { board_name: "a".to_string(), board_client_id: 0 });
    assert_eq!(board.add_client(&mut nobody, &mut sent), Err(SessionError::Unauthenticated));
    assert!(sent.is_empty());
    assert!(a.inbox().is_empty());
    assert_eq!(board.member_ids(), Vec::<u8>::new());
    assert_eq!(board.next_client_id(), 0);
}

#[test]
fn add_client_seats_a_user_without_a_board_context() {
    let a = Peer::live(1);
    let b = Peer::live(2);
    let mut board = Board::new();
    let draw = frame(Message::Draw(Draw { position: 5, color: 1, flags: DrawFlags(0) }));
    board.add_to_history(&draw);
    let mut sent = Vec::new();
    assert_eq!(board.add_client(&mut member(&a, "A", "h"), &mut sent), Ok(()));
    a.inbox();
    sent.clear();
    let mut homeless = Client::new(b.out());
    homeless.authenticated_user = Some(User { username: "h".to_string() });
    assert_eq!(board.add_client(&mut homeless, &mut sent), Ok(()));
    assert!(homeless.board_context.is_none());
    let join = frame(Message::UserJoin(UserJoin { user_id: 1, username: "h" }));
    let history = frame(Message::History(History { data: draw.as_slice() }));
    assert_eq!(
        sent,
        vec![
            a.frame(Some(0), join.clone(), true),
            b.frame(Some(1), default_configuration(), true),
            b.frame(Some(1), history.clone(), true),
        ]
    );
    assert_eq!(a.inbox(), vec![join]);
    assert_eq!(b.inbox(), vec![default_configuration(), history]);
    assert_eq!(board.member_ids(), vec![0, 1]);
    assert_eq!(board.next_client_id(), 2);
    // Its seat keeps the id: when its channel goes, the others are told who left.
    let mut gone = Peer::live(3);
    let mut third = Client::new(gone.out());
    third.authenticated_user = Some(User { username: "g".to_string() });
    assert_eq!(board.add_client(&mut third, &mut sent), Ok(()));
    gone.kill();
    a.inbox();
    b.inbox();
    sent.clear();
    board.broadcast(&draw, &mut sent);
    let leave = frame(Message::UserLeave(UserLeave { user_id: 2 }));
    assert_eq!(
        sent,
        vec![
            a.frame(Some(0), draw.clone(), true),
            b.frame(Some(1), draw.clone(), true),
            gone.frame(Some(2), draw.clone(), false),
            a.frame(Some(0), leave.clone(), true),
            b.frame(Some(1), leave.clone(), true),
        ]
    );
    assert_eq!(b.inbox(), vec![draw.clone(), leave]);
    assert_eq!(board.member_ids(), vec![0, 1]);
    // A joiner without a context whose channel is gone is seated all the same.
    sent.clear();
    let lost = Peer::dead(4);
    let mut fourth = Client::new(lost.out());
    fourth.authenticated_user = Some(User { username: "l".to_string() });
    assert_eq!(board.add_client(&mut fourth, &mut sent), Err(SessionError::SendFailed));
    let join = frame(Message::UserJoin(UserJoin { user_id: 3, username: "l" }));
    assert_eq!(
        sent,
        vec![
            a.frame(Some(0), join.clone(), true),
            b.frame(Some(1), join.clone(), true),
            lost.frame(Some(3), default_configuration(), false),
        ]
    );
    assert_eq!(board.member_ids(), vec![0, 1, 3]);
    assert_eq!(board.next_client_id(), 4);
}

#[test]
fn ids_count_up_and_wrap() {
    let mut peers: Vec<Peer> = Vec::new();
    let mut board = Board::new();
    for n in 0..300u32 {
        let peer = Peer::live(n as usize + 1);
        let mut sent = Vec::new();
        let name = format!("user{}", n);
        let mut client = member(&peer, name.as_str(), "big");
        assert_eq!(board.add_client(&mut client, &mut sent), Ok(()));
        let id = (n % 256) as u8;
        assert_eq!(id_of(&client), id);
        assert_eq!(board.next_client_id(), ((n + 1) % 256) as u8);
        let join = frame(Message::UserJoin(UserJoin { user_id: id, username: name.as_str() }));
        let mut expected: Vec<Dispatch> = peers
            .iter()
            .enumerate()
            .map(|(k, p)| p.frame(Some((k % 256) as u8), join.clone(), true))
            .collect();
        expected.push(peer.frame(Some(id), default_configuration(), true));
        assert_eq!(sent, expected);
        peers.push(peer);
    }
    assert_eq!(board.member_ids().len(), 300);
    assert_eq!(board.member_ids()[256], 0);
    assert_eq!(board.member_ids()[299], 43);
    assert_eq!(peers[0].inbox().len(), 300);
    assert_eq!(peers[299].inbox(), vec![default_configuration()]);
}

#[test]
fn frames_stay_on_their_board() {
    let a = Peer::live(1);
    let b = Peer::live(2);
    let c = Peer::live(3);
    let mut server = Server::new();
    let mut client_a = authenticated(&a, &mut server, "A");
    serve(&mut client_a, &mut server, Message::Create(Create { template_id: 1, name: "one" }));
    let mut client_b = authenticated(&b, &mut server, "B");
    serve(&mut client_b, &mut server, Message::Create(Create { template_id: 1, name: "two" }));
    let mut client_c = authenticated(&c, &mut server, "C");
    serve(&mut client_c, &mut server, Message::Join(Join { name: "two" }));
    assert_eq!(id_of(&client_a), 0);
    assert_eq!(id_of(&client_b), 0);
    assert_eq!(id_of(&client_c), 1);
    a.inbox();
    b.inbox();
    c.inbox();
    let draw = Message::Draw(Draw { position: 5, color: 1, flags: DrawFlags(0) });
    let (_, sent) = serve(&mut client_a, &mut server, draw);
    assert_eq!(sent, vec![a.frame(Some(0), frame(draw), true)]);
    assert_eq!(a.inbox(), vec![frame(draw)]);
    assert!(b.inbox().is_empty());
    assert!(c.inbox().is_empty());
    assert_eq!(server.find("one").unwrap().history(), &frame(draw));
    assert!(server.find("two").unwrap().history().is_empty());
    let (_, sent) = serve(&mut client_c, &mut server, draw);
    assert_eq!(
        sent,
        vec![b.frame(Some(0), frame(draw), true), c.frame(Some(1), frame(draw), true)]
    );
    assert!(a.inbox().is_empty());
    assert_eq!(b.inbox(), vec![frame(draw)]);
    assert_eq!(c.inbox(), vec![frame(draw)]);
    assert_eq!(server.find("one").unwrap().member_ids(), vec![0]);
    assert_eq!(server.find("two").unwrap().member_ids(), vec![0, 1]);
    assert_eq!(server.find("two").unwrap().history(), &frame(draw));
}

#[test]
fn a_joiner_gets_the_configuration_and_then_the_history() {
    let a = Peer::live(1);
    let b = Peer::live(2);
    let mut board = Board::new();
    let mut sent = Vec::new();
    assert_eq!(board.add_client(&mut member(&a, "A", "h"), &mut sent), Ok(()));
    let draw = frame(Message::Draw(Draw { position: 5, color: 1, flags: DrawFlags(0) }));
    let fill = frame(Message::Fill(Fill { start: 1, end: 2, color: 3 }));
    board.add_to_history(&draw);
    board.add_to_history(&fill);
    let mut all = draw.clone();
    all.extend_from_slice(&fill);
    assert_eq!(board.history(), &all);
    sent.clear();
    a.inbox();
    assert_eq!(board.add_client(&mut member(&b, "B", "h"), &mut sent), Ok(()));
    let join = frame(Message::UserJoin(UserJoin { user_id: 1, username: "B" }));
    let history = frame(Message::History(History { data: all.as_slice() }));
    assert_eq!(
        sent,
        vec![
            a.frame(Some(0), join.clone(), true),
            b.frame(Some(1), default_configuration(), true),
            b.frame(Some(1), history.clone(), true),
        ]
    );
    assert_eq!(a.inbox(), vec![join]);
    assert_eq!(b.inbox(), vec![default_configuration(), history]);
    // A joiner whose channel is gone gets the configuration offered, and nothing after it.
    sent.clear();
    let c = Peer::dead(3);
    assert_eq!(
        board.add_client(&mut member(&c, "C", "h"), &mut sent),
        Err(SessionError::SendFailed)
    );
    assert_eq!(sent.len(), 3);
    assert_eq!(sent[2], c.frame(Some(2), default_configuration(), false));
}

#[test]
fn a_full_history_is_replayed_in_one_piece() {
    let a = Peer::live(1);
    let mut board = Board::new();
    let filler = vec![7u8; 65535];
    board.add_to_history(&filler);
    assert_eq!(board.history().len(), 65535);
    assert_eq!(board.board_flags().bits(), HISTORY_ENABLED);
    let mut sent = Vec::new();
    assert_eq!(board.add_client(&mut member(&a, "A", "h"), &mut sent), Ok(()));
    let history = frame(Message::History(History { data: filler.as_slice() }));
    assert_eq!(
        sent,
        vec![
            a.frame(Some(0), default_configuration(), true),
            a.frame(Some(0), history.clone(), true),
        ]
    );
    assert_eq!(a.inbox(), vec![default_configuration(), history]);
}

#[test]
fn history_keeps_the_newest_bytes_and_flags_the_loss() {
    let mut board = Board::new();
    assert_eq!(board.history_limit(), 65535);
    assert_eq!(board.board_flags().bits(), HISTORY_ENABLED);
    board.history_size = 5;
    assert_eq!(board.history_limit(), 5);
    board.add_to_history(&vec![1, 2, 3]);
    assert_eq!(board.history(), &vec![1, 2, 3]);
    assert_eq!(board.board_flags().bits(), HISTORY_ENABLED);
    board.add_to_history(&vec![4, 5]);
    assert_eq!(board.history(), &vec![1, 2, 3, 4, 5]);
    assert!(!board.board_flags().contains(HISTORY_TRIMMED));
    board.add_to_history(&vec![6]);
    assert_eq!(board.history(), &vec![2, 3, 4, 5, 6]);
    assert_eq!(board.board_flags().bits(), HISTORY_ENABLED | HISTORY_TRIMMED);
    board.add_to_history(&vec![10, 11, 12, 13, 14, 15, 16]);
    assert_eq!(board.history(), &vec![12, 13, 14, 15, 16]);
    board.add_to_history(&vec![]);
    assert_eq!(board.history(), &vec![12, 13, 14, 15, 16]);
    board.history_size = 0;
    board.add_to_history(&vec![1]);
    assert!(board.history().is_empty());
    let a = Peer::live(1);
    let mut sent = Vec::new();
    assert_eq!(board.add_client(&mut member(&a, "A", "h"), &mut sent), Ok(()));
    assert_eq!(
        sent,
        vec![a.frame(
            Some(0),
            frame(Message::BoardConfiguration(BoardConfiguration {
                palette: PALETTE_DEFAULT,
                background: 0,
                board_flags: BoardFlags::from_bits_truncate(HISTORY_ENABLED | HISTORY_TRIMMED),
                history_size: 0,
            })),
            true
        )]
    );
}

#[test]
fn a_board_without_history_relays_and_keeps_nothing() {
    let a = Peer::live(1);
    let mut server = Server::new();
    let mut client = authenticated(&a, &mut server, "A");
    serve(&mut client, &mut server, Message::Create(Create { template_id: 1, name: "a" }));
    server.find("a").unwrap().history_size = 0;
    let draw = Message::Draw(Draw { position: 5, color: 1, flags: DrawFlags(0) });
    let (result, sent) = serve(&mut client, &mut server, draw);
    assert!(result.is_ok());
    assert_eq!(sent, vec![a.frame(Some(0), frame(draw), true)]);
    assert!(server.find("a").unwrap().history().is_empty());
    assert_eq!(server.find("a").unwrap().board_flags().bits(), HISTORY_ENABLED);
}

#[test]
fn a_connection_without_its_board_relays_nothing() {
    let a = Peer::live(1);
    let mut server = Server::new();
    let mut stray = member(&a, "S", "missing");
    let draw = Message::Draw(Draw { position: 5, color: 1, flags: DrawFlags(0) });
    let (result, sent) = serve(&mut stray, &mut server, draw);
    assert!(result.is_ok());
    assert!(sent.is_empty());
    assert!(!server.has_board("missing"));
    let mut loose = Client::new(a.out());
    let mut sent = Vec::new();
    assert!(loose.broadcast_to_board(&mut server, &frame(draw), &mut sent).is_ok());
    assert!(sent.is_empty());
    assert!(a.inbox().is_empty());
}

#[test]
fn registry_creates_once_and_finds_by_name() {
    let mut server = Server::new();
    assert!(!server.has_board("alpha"));
    assert!(server.find("alpha").is_none());
    server.create("alpha".to_string()).add_to_history(&vec![1, 2]);
    assert!(server.has_board("alpha"));
    assert!(!server.has_board("alph"));
    assert!(!server.has_board("alphaa"));
    assert!(!server.has_board(""));
    assert_eq!(server.create("alpha".to_string()).history(), &vec![1, 2]);
    assert!(server.create("beta".to_string()).history().is_empty());
    assert!(server.create("".to_string()).history().is_empty());
    assert!(server.has_board(""));
    server.find("beta").unwrap().add_to_history(&vec![3]);
    assert_eq!(server.find("alpha").unwrap().history(), &vec![1, 2]);
    assert_eq!(server.find("beta").unwrap().history(), &vec![3]);
    assert!(server.find("gamma").is_none());
}

#[test]
fn a_new_board_is_empty_with_the_default_look() {
    let board = Board::new();
    assert!(board.history().is_empty());
    assert_eq!(board.history_size, u16::MAX);
    assert_eq!(board.palette(), PALETTE_DEFAULT);
    assert_eq!(board.background_color(), 0);
    assert_eq!(board.next_client_id(), 0);
    assert_eq!(board.board_flags().bits(), HISTORY_ENABLED);
    assert_eq!(board.member_ids(), Vec::<u8>::new());
}

#[test]
fn same_text_compares_character_for_character() {
    assert!(same_text("", ""));
    assert!(same_text("alpha", "alpha"));
    assert!(same_text("\u{e9}\u{1f58c}", "\u{e9}\u{1f58c}"));
    assert!(!same_text("alpha", "alphb"));
    assert!(!same_text("alpha", "alph"));
    assert!(!same_text("", "a"));
    assert!(!same_text("e\u{301}", "\u{e9}"));
}

#[test]
fn the_auth_oracle_takes_every_token_as_a_name() {
    let user = openboard::auth::auth(Auth { jwt_token: "t" }).unwrap();
    assert_eq!(user.username, "t");
    let user = openboard::auth::auth(Auth { jwt_token: "" }).unwrap();
    assert_eq!(user.username, "");
}

#[test]
fn the_roster_holds_its_own_handle_on_the_channel() {
    let a = Peer::live(1);
    let mut board = Board::new();
    let mut sent = Vec::new();
    {
        let mut client = member(&a, "A", "h");
        assert_eq!(board.add_client(&mut client, &mut sent), Ok(()));
        let copy = client.clone();
        assert_eq!(id_of(&copy), 0);
        assert_eq!(copy.authenticated_user.as_ref().unwrap().username, "A");
        assert_eq!(copy.board_context.as_ref().unwrap().board_name, "h");
        assert!(copy.out == client.out);
    }
    a.inbox();
    sent.clear();
    board.broadcast(&vec![1, 2, 3], &mut sent);
    assert_eq!(sent, vec![a.frame(Some(0), vec![1, 2, 3], true)]);
    assert_eq!(sent[0].clone(), a.frame(Some(0), vec![1, 2, 3], true));
    assert_eq!(a.inbox(), vec![vec![1, 2, 3]]);
    assert_eq!(board.member_ids(), vec![0]);
}

#[test]
fn records_tell_channels_apart() {
    let a = Peer::live(1);
    let b = Peer::live(2);
    assert!(a.out() != b.out());
    assert_ne!(a.frame(Some(0), vec![1], true), b.frame(Some(0), vec![1], true));
    assert_ne!(
        a.closing(None, CloseReason::Internal, true),
        b.closing(None, CloseReason::Internal, true)
    );
    let mut sent = Vec::new();
    assert!(deliver(&b.out(), Some(0), &vec![1], &mut sent));
    assert_eq!(sent, vec![b.frame(Some(0), vec![1], true)]);
    assert!(a.inbox().is_empty());
    assert_eq!(b.inbox(), vec![vec![1]]);
}
