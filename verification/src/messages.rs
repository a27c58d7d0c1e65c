use vstd::prelude::*;

verus! {

/// How many colours a board has.
pub const PALETTE_SIZE: usize = 8;

/// The colours of a board, each as packed by `color`.
pub type Palette = [u32; PALETTE_SIZE];

/// A colour by its place in the palette.
pub type Color = u8;

/// A place on the canvas.
pub type Position = u32;

/// The id of a connection on its board.
pub type UserId = u8;

/// The number of a step of the drawing.
pub type StepId = u32;

/// The number that stands for a colour: red in the low byte, then green, then blue.
pub open spec fn spec_color(r: u8, g: u8, b: u8) -> u32 {
    (r as int + 256 * (g as int) + 65536 * (b as int)) as u32
}

/// Packs three colour channels into one palette entry.
pub fn color(r: u8, g: u8, b: u8) -> (c: u32)
    ensures
        c == spec_color(r, g, b),
{
    let c: u32 = (b as u32) << 16 | (g as u32) << 8 | r as u32;
    assert(c == r as u32 + 256 * (g as u32) + 65536 * (b as u32)) by (bit_vector)
        requires
            c == (b as u32) << 16 | (g as u32) << 8 | r as u32,
    ;
    c
}

/// Black, red, green, blue, yellow, cyan, magenta, white.
pub const PALETTE_DEFAULT: Palette = [
    0x000000,
    0x0000ff,
    0x00ff00,
    0xff0000,
    0x00ffff,
    0xffff00,
    0xff00ff,
    0xffffff,
];

/// The default palette holds the eight colours whose channels are each fully on or fully off.
pub proof fn palette_default_is_primary()
    ensures
        PALETTE_DEFAULT@ =~= seq![
            spec_color(0, 0, 0),
            spec_color(255, 0, 0),
            spec_color(0, 255, 0),
            spec_color(0, 0, 255),
            spec_color(255, 255, 0),
            spec_color(0, 255, 255),
            spec_color(255, 0, 255),
            spec_color(255, 255, 255),
        ],
{
}

/// Set while a board keeps a history.
pub const HISTORY_ENABLED: u8 = 0b0000_0001;

/// Set once a board has discarded bytes of its history.
pub const HISTORY_TRIMMED: u8 = 0b0000_0010;

/// Board-wide switches, one bit each.
#[derive(Debug, Clone, Copy, PartialEq, Eq, Structural)]
pub struct BoardFlags {
    bits: u8,
}

impl BoardFlags {
    /// The flags as one byte.
    pub closed spec fn spec_bits(&self) -> u8 {
        self.bits
    }

    /// The flags as one byte.
    #[verifier::when_used_as_spec(spec_bits)]
    pub fn bits(&self) -> (b: u8)
        ensures
            b == self.spec_bits(),
    {
        self.bits
    }

    /// No flag set.
    pub fn empty() -> (flags: BoardFlags)
        ensures
            flags.bits() == 0,
    {
        BoardFlags { bits: 0 }
    }

    /// The flags with exactly the bits of `bits`, known or not.
    pub fn from_bits_retain(bits: u8) -> (flags: BoardFlags)
        ensures
            flags.bits() == bits,
    {
        BoardFlags { bits }
    }

    /// The flags of `bits`, without the bits that name no flag.
    pub fn from_bits_truncate(bits: u8) -> (flags: BoardFlags)
        ensures
            flags.bits() == bits & (HISTORY_ENABLED | HISTORY_TRIMMED),
    {
        BoardFlags { bits: bits & (HISTORY_ENABLED | HISTORY_TRIMMED) }
    }

    /// Whether every bit of `flag` is set.
    pub fn contains(&self, flag: u8) -> (yes: bool)
        ensures
            yes == (self.bits() & flag == flag),
    {
        self.bits & flag == flag
    }

    /// Sets every bit of `flag`.
    pub fn insert(&mut self, flag: u8)
        ensures
            final(self).bits() == old(self).bits() | flag,
    {
        self.bits = self.bits | flag;
    }
}

/// Per-stroke switches; the server passes them through unread.
#[derive(Debug, Clone, Copy, PartialEq, Eq)]
pub struct DrawFlags(pub u8);

/// Presents a token; the first message of every connection.
#[derive(Debug, Clone, Copy, PartialEq, Eq)]
pub struct Auth<'a> {
    pub jwt_token: &'a str,
}

/// Asks to enter the board called `name`.
#[derive(Debug, Clone, Copy, PartialEq, Eq)]
pub struct Join<'a> {
    pub name: &'a str,
}

/// Asks for a new board under `name`.
#[derive(Debug, Clone, Copy, PartialEq, Eq)]
pub struct Create<'a> {
    pub template_id: u64,
    pub name: &'a str,
}

/// What a client needs to draw a board: sent to every joiner.
#[derive(Debug, Clone, Copy, PartialEq, Eq)]
pub struct BoardConfiguration {
    pub palette: Palette,
    pub background: Color,
    pub board_flags: BoardFlags,
    pub history_size: u16,
}

/// Marks a step of the drawing.
#[derive(Debug, Clone, Copy, PartialEq, Eq)]
pub struct Step {
    pub step_id: StepId,
}

/// One stroke point.
#[derive(Debug, Clone, Copy, PartialEq, Eq)]
pub struct Draw {
    pub position: Position,
    pub color: Color,
    pub flags: DrawFlags,
}

/// A participant's cursor moved.
#[derive(Debug, Clone, Copy, PartialEq, Eq)]
pub struct CursorMove {
    pub position: Position,
    pub user_id: UserId,
}

/// Fills the span between two positions.
#[derive(Debug, Clone, Copy, PartialEq, Eq)]
pub struct Fill {
    pub start: Position,
    pub end: Position,
    pub color: Color,
}

/// Places the image found at `url`.
#[derive(Debug, Clone, Copy, PartialEq, Eq)]
pub struct Image<'a> {
    pub start: Position,
    pub end: Position,
    pub url: &'a str,
}

/// Places a line of text.
#[derive(Debug, Clone, Copy, PartialEq, Eq)]
pub struct Text<'a> {
    pub center: Position,
    pub text: &'a str,
    pub text_color: Color,
}

/// Takes back everything after the named step.
#[derive(Debug, Clone, Copy, PartialEq, Eq)]
pub struct Undo {
    pub last_actual_step_id: StepId,
}

/// Liveness probe.
#[derive(Debug, Clone, Copy, PartialEq, Eq)]
pub struct Ping {
    pub timestamp: u64,
}

/// Tells the members of a board that someone entered.
#[derive(Debug, Clone, Copy, PartialEq, Eq)]
pub struct UserJoin<'a> {
    pub user_id: UserId,
    pub username: &'a str,
}

/// Tells the members of a board that someone is gone.
#[derive(Debug, Clone, Copy, PartialEq, Eq)]
pub struct UserLeave {
    pub user_id: UserId,
}

/// Free text from the server.
#[derive(Debug, Clone, Copy, PartialEq, Eq)]
pub struct ServerMessage<'a> {
    pub message: &'a str,
}

/// A piece of the frames drawn before the receiver entered.
#[derive(Debug, Clone, Copy, PartialEq, Eq)]
pub struct History<'a> {
    pub data: &'a [u8],
}

/// Everything that travels between a client and the server. The order of the variants is the
/// order of their tags on the wire, starting at zero.
#[derive(Debug, Clone, Copy, PartialEq, Eq)]
pub enum Message<'a> {
    Auth(Auth<'a>),
    Join(Join<'a>),
    Create(Create<'a>),
    BoardConfiguration(BoardConfiguration),
    Step(Step),
    Draw(Draw),
    CursorMove(CursorMove),
    Fill(Fill),
    Image(Image<'a>),
    Text(Text<'a>),
    Undo(Undo),
    Ping(Ping),
    UserJoin(UserJoin<'a>),
    UserLeave(UserLeave),
    ServerMessage(ServerMessage<'a>),
    History(History<'a>),
}

/// A message as a mathematical value: text as characters, byte fields and the palette as
/// sequences, flags as their byte.
pub enum MessageView {
    Auth { jwt_token: Seq<char> },
    Join { name: Seq<char> },
    Create { template_id: u64, name: Seq<char> },
    BoardConfiguration { palette: Seq<u32>, background: u8, board_flags: u8, history_size: u16 },
    Step { step_id: u32 },
    Draw { position: u32, color: u8, flags: u8 },
    CursorMove { position: u32, user_id: u8 },
    Fill { start: u32, end: u32, color: u8 },
    Image { start: u32, end: u32, url: Seq<char> },
    Text { center: u32, text: Seq<char>, text_color: u8 },
    Undo { last_actual_step_id: u32 },
    Ping { timestamp: u64 },
    UserJoin { user_id: u8, username: Seq<char> },
    UserLeave { user_id: u8 },
    ServerMessage { message: Seq<char> },
    History { data: Seq<u8> },
}

impl<'a> View for Auth<'a> {
    type V = MessageView;

    /// The message that this payload makes.
    open spec fn view(&self) -> MessageView {
        MessageView::Auth {
            jwt_token: self.jwt_token@,
        }
    }
}

impl<'a> View for Join<'a> {
    type V = MessageView;

    /// The message that this payload makes.
    open spec fn view(&self) -> MessageView {
        MessageView::Join {
            name: self.name@,
        }
    }
}

impl<'a> View for Create<'a> {
    type V = MessageView;

    /// The message that this payload makes.
    open spec fn view(&self) -> MessageView {
        MessageView::Create {
            template_id: self.template_id,
            name: self.name@,
        }
    }
}

impl View for BoardConfiguration {
    type V = MessageView;

    /// The message that this payload makes.
    open spec fn view(&self) -> MessageView {
        MessageView::BoardConfiguration {
            palette: self.palette@,
            background: self.background,
            board_flags: self.board_flags.bits(),
            history_size: self.history_size,
        }
    }
}

impl View for Step {
    type V = MessageView;

    /// The message that this payload makes.
    open spec fn view(&self) -> MessageView {
        MessageView::Step {
            step_id: self.step_id,
        }
    }
}

impl View for Draw {
    type V = MessageView;

    /// The message that this payload makes.
    open spec fn view(&self) -> MessageView {
        MessageView::Draw {
            position: self.position,
            color: self.color,
            flags: self.flags.0,
        }
    }
}

impl View for CursorMove {
    type V = MessageView;

    /// The message that this payload makes.
    open spec fn view(&self) -> MessageView {
        MessageView::CursorMove {
            position: self.position,
            user_id: self.user_id,
        }
    }
}

impl View for Fill {
    type V = MessageView;

    /// The message that this payload makes.
    open spec fn view(&self) -> MessageView {
        MessageView::Fill {
            start: self.start,
            end: self.end,
            color: self.color,
        }
    }
}

impl<'a> View for Image<'a> {
    type V = MessageView;

    /// The message that this payload makes.
    open spec fn view(&self) -> MessageView {
        MessageView::Image {
            start: self.start,
            end: self.end,
            url: self.url@,
        }
    }
}

impl<'a> View for Text<'a> {
    type V = MessageView;

    /// The message that this payload makes.
    open spec fn view(&self) -> MessageView {
        MessageView::Text {
            center: self.center,
            text: self.text@,
            text_color: self.text_color,
        }
    }
}

impl View for Undo {
    type V = MessageView;

    /// The message that this payload makes.
    open spec fn view(&self) -> MessageView {
        MessageView::Undo {
            last_actual_step_id: self.last_actual_step_id,
        }
    }
}

impl View for Ping {
    type V = MessageView;

    /// The message that this payload makes.
    open spec fn view(&self) -> MessageView {
        MessageView::Ping {
            timestamp: self.timestamp,
        }
    }
}

impl<'a> View for UserJoin<'a> {
    type V = MessageView;

    /// The message that this payload makes.
    open spec fn view(&self) -> MessageView {
        MessageView::UserJoin {
            user_id: self.user_id,
            username: self.username@,
        }
    }
}

impl View for UserLeave {
    type V = MessageView;

    /// The message that this payload makes.
    open spec fn view(&self) -> MessageView {
        MessageView::UserLeave {
            user_id: self.user_id,
        }
    }
}

impl<'a> View for ServerMessage<'a> {
    type V = MessageView;

    /// The message that this payload makes.
    open spec fn view(&self) -> MessageView {
        MessageView::ServerMessage {
            message: self.message@,
        }
    }
}

impl<'a> View for History<'a> {
    type V = MessageView;

    /// The message that this payload makes.
    open spec fn view(&self) -> MessageView {
        MessageView::History {
            data: self.data@,
        }
    }
}

impl<'a> View for Message<'a> {
    type V = MessageView;

    open spec fn view(&self) -> MessageView {
        match *self {
            Message::Auth(m) => m@,
            Message::Join(m) => m@,
            Message::Create(m) => m@,
            Message::BoardConfiguration(m) => m@,
            Message::Step(m) => m@,
            Message::Draw(m) => m@,
            Message::CursorMove(m) => m@,
            Message::Fill(m) => m@,
            Message::Image(m) => m@,
            Message::Text(m) => m@,
            Message::Undo(m) => m@,
            Message::Ping(m) => m@,
            Message::UserJoin(m) => m@,
            Message::UserLeave(m) => m@,
            Message::ServerMessage(m) => m@,
            Message::History(m) => m@,
        }
    }
}

} // verus!
