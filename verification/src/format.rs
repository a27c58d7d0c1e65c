use crate::messages::MessageView;
use vstd::prelude::*;
use vstd::utf8::*;

verus! {

/// The longest string or byte field, and the most elements of a sequence, that a length prefix
/// can announce.
pub const MAX_FIELD_LEN: usize = 65535;

/// A 16-bit number on the wire: low byte first.
pub open spec fn le16(v: u16) -> Seq<u8> {
    seq![(v % 256) as u8, (v / 256) as u8]
}

/// A 32-bit number on the wire: low byte first.
pub open spec fn le32(v: u32) -> Seq<u8> {
    seq![
        (v % 256) as u8,
        (v / 0x100 % 256) as u8,
        (v / 0x1_0000 % 256) as u8,
        (v / 0x100_0000) as u8,
    ]
}

/// A 64-bit number on the wire: its low half, then its high half, each low byte first.
pub open spec fn le64(v: u64) -> Seq<u8> {
    le32((v % 0x1_0000_0000) as u32) + le32((v / 0x1_0000_0000) as u32)
}

/// The byte that carries a signed 8-bit number: its two's complement.
pub open spec fn twos8(v: i8) -> u8 {
    (if v >= 0 { v as int } else { v + 0x100 }) as u8
}

/// The unsigned number with the bit pattern of a signed 16-bit number.
pub open spec fn twos16(v: i16) -> u16 {
    (if v >= 0 { v as int } else { v + 0x1_0000 }) as u16
}

/// The unsigned number with the bit pattern of a signed 32-bit number.
pub open spec fn twos32(v: i32) -> u32 {
    (if v >= 0 { v as int } else { v + 0x1_0000_0000 }) as u32
}

/// The unsigned number with the bit pattern of a signed 64-bit number.
pub open spec fn twos64(v: i64) -> u64 {
    (if v >= 0 { v as int } else { v + 0x1_0000_0000_0000_0000 }) as u64
}

/// The signed number with the bit pattern of `v`.
pub open spec fn signed8(v: u8) -> i8 {
    (if v < 0x80 { v as int } else { v - 0x100 }) as i8
}

/// The signed number with the bit pattern of `v`.
pub open spec fn signed16(v: u16) -> i16 {
    (if v < 0x8000 { v as int } else { v - 0x1_0000 }) as i16
}

/// The signed number with the bit pattern of `v`.
pub open spec fn signed32(v: u32) -> i32 {
    (if v < 0x8000_0000 { v as int } else { v - 0x1_0000_0000 }) as i32
}

/// The signed number with the bit pattern of `v`.
pub open spec fn signed64(v: u64) -> i64 {
    (if v < 0x8000_0000_0000_0000 { v as int } else { v - 0x1_0000_0000_0000_0000 }) as i64
}

/// A truth value on the wire.
pub open spec fn bool_byte(v: bool) -> u8 {
    if v {
        1
    } else {
        0
    }
}

/// A byte field on the wire: its length in 16 bits, then the bytes.
pub open spec fn encode_blob(x: Seq<u8>) -> Seq<u8> {
    le16(x.len() as u16) + x
}

/// A string on the wire: the length of its UTF-8 form in 16 bits, then that form.
pub open spec fn encode_str(s: Seq<char>) -> Seq<u8> {
    encode_blob(encode_utf8(s))
}

/// A palette on the wire: its eight entries one after the other, no length.
pub open spec fn encode_palette(p: Seq<u32>) -> Seq<u8> {
    le32(p[0]) + le32(p[1]) + le32(p[2]) + le32(p[3]) + le32(p[4]) + le32(p[5]) + le32(p[6]) + le32(
        p[7],
    )
}

/// The first byte of a message on the wire: the position of its variant.
pub open spec fn tag(m: MessageView) -> u8 {
    match m {
        MessageView::Auth { .. } => 0,
        MessageView::Join { .. } => 1,
        MessageView::Create { .. } => 2,
        MessageView::BoardConfiguration { .. } => 3,
        MessageView::Step { .. } => 4,
        MessageView::Draw { .. } => 5,
        MessageView::CursorMove { .. } => 6,
        MessageView::Fill { .. } => 7,
        MessageView::Image { .. } => 8,
        MessageView::Text { .. } => 9,
        MessageView::Undo { .. } => 10,
        MessageView::Ping { .. } => 11,
        MessageView::UserJoin { .. } => 12,
        MessageView::UserLeave { .. } => 13,
        MessageView::ServerMessage { .. } => 14,
        MessageView::History { .. } => 15,
    }
}

/// What follows the tag: the fields in the order of their declaration.
pub open spec fn payload(m: MessageView) -> Seq<u8> {
    match m {
        MessageView::Auth { jwt_token } => encode_str(jwt_token),
        MessageView::Join { name } => encode_str(name),
        MessageView::Create { template_id, name } => le64(template_id) + encode_str(name),
        MessageView::BoardConfiguration { palette, background, board_flags, history_size } => {
            encode_palette(palette) + seq![background, board_flags] + le16(history_size)
        },
        MessageView::Step { step_id } => le32(step_id),
        MessageView::Draw { position, color, flags } => le32(position) + seq![color, flags],
        MessageView::CursorMove { position, user_id } => le32(position) + seq![user_id],
        MessageView::Fill { start, end, color } => le32(start) + le32(end) + seq![color],
        MessageView::Image { start, end, url } => le32(start) + le32(end) + encode_str(url),
        MessageView::Text { center, text, text_color } => le32(center) + encode_str(text) + seq![
            text_color,
        ],
        MessageView::Undo { last_actual_step_id } => le32(last_actual_step_id),
        MessageView::Ping { timestamp } => le64(timestamp),
        MessageView::UserJoin { user_id, username } => seq![user_id] + encode_str(username),
        MessageView::UserLeave { user_id } => seq![user_id],
        MessageView::ServerMessage { message } => encode_str(message),
        MessageView::History { data } => encode_blob(data),
    }
}

/// How many bytes of a payload stand before its text or byte field: the fields of fixed size
/// that are declared before it. For a variant without such a field, the whole payload.
pub open spec fn sized_head(m: MessageView) -> nat {
    match m {
        MessageView::Auth { .. } => 0,
        MessageView::Join { .. } => 0,
        MessageView::Create { .. } => 8,
        MessageView::Image { .. } => 8,
        MessageView::Text { .. } => 4,
        MessageView::UserJoin { .. } => 1,
        MessageView::ServerMessage { .. } => 0,
        MessageView::History { .. } => 0,
        _ => payload(m).len(),
    }
}

/// A whole frame: the tag, then the payload.
pub open spec fn encode_message(m: MessageView) -> Seq<u8> {
    seq![tag(m)] + payload(m)
}

/// Whether a string is short enough for its length prefix.
pub open spec fn str_fits_prefix(s: Seq<char>) -> bool {
    encode_utf8(s).len() <= MAX_FIELD_LEN
}

/// The string field of a message, if it has one.
pub open spec fn text_of(m: MessageView) -> Option<Seq<char>> {
    match m {
        MessageView::Auth { jwt_token } => Some(jwt_token),
        MessageView::Join { name } => Some(name),
        MessageView::Create { name, .. } => Some(name),
        MessageView::Image { url, .. } => Some(url),
        MessageView::Text { text, .. } => Some(text),
        MessageView::UserJoin { username, .. } => Some(username),
        MessageView::ServerMessage { message } => Some(message),
        _ => None,
    }
}

/// Whether a message has a frame: its string, if any, and its byte field, if any, are short
/// enough for their length prefix, and its palette, if any, has eight entries.
pub open spec fn encodable(m: MessageView) -> bool {
    &&& text_of(m) matches Some(s) ==> str_fits_prefix(s)
    &&& m matches MessageView::History { data } ==> data.len() <= MAX_FIELD_LEN
    &&& m matches MessageView::BoardConfiguration { palette, .. } ==> palette.len() == 8
}

/// Whether `n` bytes lie at position `at` of `b`.
pub open spec fn fits(b: Seq<u8>, at: int, n: int) -> bool {
    0 <= at && 0 <= n && at + n <= b.len()
}

/// The 16-bit number whose bytes start at `at`.
pub open spec fn value16(b: Seq<u8>, at: int) -> u16 {
    (b[at] as int + 0x100 * (b[at + 1] as int)) as u16
}

/// The 32-bit number whose bytes start at `at`.
pub open spec fn value32(b: Seq<u8>, at: int) -> u32 {
    (b[at] as int + 0x100 * (b[at + 1] as int) + 0x1_0000 * (b[at + 2] as int) + 0x100_0000 * (b[at
        + 3] as int)) as u32
}

/// The 64-bit number whose bytes start at `at`.
pub open spec fn value64(b: Seq<u8>, at: int) -> u64 {
    (value32(b, at) as int + 0x1_0000_0000 * (value32(b, at + 4) as int)) as u64
}

/// Whether a whole byte field, prefix and content, starts at `at`.
pub open spec fn blob_fits(b: Seq<u8>, at: int) -> bool {
    fits(b, at, 2) && fits(b, at + 2, value16(b, at) as int)
}

/// The content of the byte field that starts at `at`.
pub open spec fn blob_at(b: Seq<u8>, at: int) -> Seq<u8> {
    b.subrange(at + 2, at + 2 + value16(b, at))
}

/// Whether a whole string starts at `at`: a byte field whose content is UTF-8.
pub open spec fn str_fits(b: Seq<u8>, at: int) -> bool {
    blob_fits(b, at) && valid_utf8(blob_at(b, at))
}

/// The string that starts at `at`.
pub open spec fn str_at(b: Seq<u8>, at: int) -> Seq<char> {
    decode_utf8(blob_at(b, at))
}

/// The palette whose eight entries start at `at`.
pub open spec fn palette_at(b: Seq<u8>, at: int) -> Seq<u32> {
    Seq::new(8, |i: int| value32(b, at + 4 * i))
}

/// The message with tag `t` whose payload starts at position `at` of `b`, if a whole payload
/// of that variant lies there.
pub open spec fn payload_at(t: u8, b: Seq<u8>, at: int) -> Option<MessageView> {
    if t == 0 {
        if str_fits(b, at) {
            Some(MessageView::Auth { jwt_token: str_at(b, at) })
        } else {
            None
        }
    } else if t == 1 {
        if str_fits(b, at) {
            Some(MessageView::Join { name: str_at(b, at) })
        } else {
            None
        }
    } else if t == 2 {
        if fits(b, at, 8) && str_fits(b, at + 8) {
            Some(MessageView::Create { template_id: value64(b, at), name: str_at(b, at + 8) })
        } else {
            None
        }
    } else if t == 3 {
        if fits(b, at, 36) {
            Some(
                MessageView::BoardConfiguration {
                    palette: palette_at(b, at),
                    background: b[at + 32],
                    board_flags: b[at + 33],
                    history_size: value16(b, at + 34),
                },
            )
        } else {
            None
        }
    } else if t == 4 {
        if fits(b, at, 4) {
            Some(MessageView::Step { step_id: value32(b, at) })
        } else {
            None
        }
    } else if t == 5 {
        if fits(b, at, 6) {
            Some(MessageView::Draw { position: value32(b, at), color: b[at + 4], flags: b[at + 5] })
        } else {
            None
        }
    } else if t == 6 {
        if fits(b, at, 5) {
            Some(MessageView::CursorMove { position: value32(b, at), user_id: b[at + 4] })
        } else {
            None
        }
    } else if t == 7 {
        if fits(b, at, 9) {
            Some(
                MessageView::Fill {
                    start: value32(b, at),
                    end: value32(b, at + 4),
                    color: b[at + 8],
                },
            )
        } else {
            None
        }
    } else if t == 8 {
        if fits(b, at, 8) && str_fits(b, at + 8) {
            Some(
                MessageView::Image {
                    start: value32(b, at),
                    end: value32(b, at + 4),
                    url: str_at(b, at + 8),
                },
            )
        } else {
            None
        }
    } else if t == 9 {
        if fits(b, at, 4) && str_fits(b, at + 4) && fits(b, at + 6 + value16(b, at + 4), 1) {
            Some(
                MessageView::Text {
                    center: value32(b, at),
                    text: str_at(b, at + 4),
                    text_color: b[at + 6 + value16(b, at + 4)],
                },
            )
        } else {
            None
        }
    } else if t == 10 {
        if fits(b, at, 4) {
            Some(MessageView::Undo { last_actual_step_id: value32(b, at) })
        } else {
            None
        }
    } else if t == 11 {
        if fits(b, at, 8) {
            Some(MessageView::Ping { timestamp: value64(b, at) })
        } else {
            None
        }
    } else if t == 12 {
        if fits(b, at, 1) && str_fits(b, at + 1) {
            Some(MessageView::UserJoin { user_id: b[at], username: str_at(b, at + 1) })
        } else {
            None
        }
    } else if t == 13 {
        if fits(b, at, 1) {
            Some(MessageView::UserLeave { user_id: b[at] })
        } else {
            None
        }
    } else if t == 14 {
        if str_fits(b, at) {
            Some(MessageView::ServerMessage { message: str_at(b, at) })
        } else {
            None
        }
    } else if t == 15 {
        if blob_fits(b, at) {
            Some(MessageView::History { data: blob_at(b, at) })
        } else {
            None
        }
    } else {
        None
    }
}

/// The message whose frame starts at position `at` of `b`, if a whole frame lies there: one
/// byte of tag, then the payload of that variant.
pub open spec fn message_at(b: Seq<u8>, at: int) -> Option<MessageView> {
    if fits(b, at, 1) {
        payload_at(b[at], b, at + 1)
    } else {
        None
    }
}

/// The message that `b` starts with, if it starts with one. Bytes after the message are not
/// looked at.
pub open spec fn decode_message(b: Seq<u8>) -> Option<MessageView> {
    message_at(b, 0)
}

proof fn digits16(a: u8, b: u8)
    by (bit_vector)
    ensures
        (a as u16 + 0x100 * (b as u16)) % 256 == a,
        (a as u16 + 0x100 * (b as u16)) / 256 == b,
        a as u16 + 0x100 * (b as u16) <= 0xffff,
{
}

proof fn digits32(a: u8, b: u8, c: u8, d: u8)
    by (bit_vector)
    ensures
        (a as u32 + 0x100 * (b as u32) + 0x1_0000 * (c as u32) + 0x100_0000 * (d as u32)) % 256
            == a,
        (a as u32 + 0x100 * (b as u32) + 0x1_0000 * (c as u32) + 0x100_0000 * (d as u32)) / 0x100
            % 256 == b,
        (a as u32 + 0x100 * (b as u32) + 0x1_0000 * (c as u32) + 0x100_0000 * (d as u32))
            / 0x1_0000 % 256 == c,
        (a as u32 + 0x100 * (b as u32) + 0x1_0000 * (c as u32) + 0x100_0000 * (d as u32))
            / 0x100_0000 == d,
        a as u32 + 0x100 * (b as u32) + 0x1_0000 * (c as u32) + 0x100_0000 * (d as u32)
            <= 0xffff_ffff,
{
}

proof fn halves64(lo: u32, hi: u32)
    by (bit_vector)
    ensures
        (lo as u64 + 0x1_0000_0000 * (hi as u64)) % 0x1_0000_0000 == lo,
        (lo as u64 + 0x1_0000_0000 * (hi as u64)) / 0x1_0000_0000 == hi,
        lo as u64 + 0x1_0000_0000 * (hi as u64) <= 0xffff_ffff_ffff_ffff,
{
}

proof fn sum64(v: u64)
    by (bit_vector)
    ensures
        v % 0x1_0000_0000 + 0x1_0000_0000 * (v / 0x1_0000_0000) == v,
        v % 0x1_0000_0000 <= 0xffff_ffff,
        v / 0x1_0000_0000 <= 0xffff_ffff,
{
}

proof fn sum16(v: u16)
    by (bit_vector)
    ensures
        v % 256 + 0x100 * (v / 256) == v,
        v / 256 < 256,
{
}

proof fn sum32(v: u32)
    by (bit_vector)
    ensures
        v % 256 + 0x100 * (v / 0x100 % 256) + 0x1_0000 * (v / 0x1_0000 % 256) + 0x100_0000 * (v
            / 0x100_0000) == v,
        v / 0x100_0000 < 256,
{
}

/// Reading back the two bytes of a number gives the number.
pub proof fn value16_of_le16(v: u16, b: Seq<u8>, at: int)
    requires
        fits(b, at, 2),
        b.subrange(at, at + 2) == le16(v),
    ensures
        value16(b, at) == v,
{
    let s = b.subrange(at, at + 2);
    assert(s[0] == b[at] && s[1] == b[at + 1]);
    sum16(v);
}

/// Reading back the four bytes of a number gives the number.
pub proof fn value32_of_le32(v: u32, b: Seq<u8>, at: int)
    requires
        fits(b, at, 4),
        b.subrange(at, at + 4) == le32(v),
    ensures
        value32(b, at) == v,
{
    let s = b.subrange(at, at + 4);
    assert(s[0] == b[at] && s[1] == b[at + 1] && s[2] == b[at + 2] && s[3] == b[at + 3]);
    sum32(v);
}

/// Reading back the eight bytes of a number gives the number.
pub proof fn value64_of_le64(v: u64, b: Seq<u8>, at: int)
    requires
        fits(b, at, 8),
        b.subrange(at, at + 8) == le64(v),
    ensures
        value64(b, at) == v,
{
    let s = b.subrange(at, at + 8);
    let lo = (v % 0x1_0000_0000) as u32;
    let hi = (v / 0x1_0000_0000) as u32;
    assert(b.subrange(at, at + 4) =~= s.subrange(0, 4));
    assert(b.subrange(at + 4, at + 8) =~= s.subrange(4, 8));
    assert(s.subrange(0, 4) =~= le32(lo));
    assert(s.subrange(4, 8) =~= le32(hi));
    value32_of_le32(lo, b, at);
    value32_of_le32(hi, b, at + 4);
    sum64(v);
}

/// Writing the number that two bytes spell gives the two bytes.
pub proof fn le16_of_value16(b: Seq<u8>, at: int)
    requires
        fits(b, at, 2),
    ensures
        le16(value16(b, at)) == b.subrange(at, at + 2),
{
    digits16(b[at], b[at + 1]);
    assert(le16(value16(b, at)) =~= b.subrange(at, at + 2));
}

/// Writing the number that four bytes spell gives the four bytes.
pub proof fn le32_of_value32(b: Seq<u8>, at: int)
    requires
        fits(b, at, 4),
    ensures
        le32(value32(b, at)) == b.subrange(at, at + 4),
{
    digits32(b[at], b[at + 1], b[at + 2], b[at + 3]);
    assert(le32(value32(b, at)) =~= b.subrange(at, at + 4));
}

/// Writing the number that eight bytes spell gives the eight bytes.
pub proof fn le64_of_value64(b: Seq<u8>, at: int)
    requires
        fits(b, at, 8),
    ensures
        le64(value64(b, at)) == b.subrange(at, at + 8),
{
    let v = value64(b, at);
    let lo = value32(b, at);
    let hi = value32(b, at + 4);
    halves64(lo, hi);
    assert((v % 0x1_0000_0000) as u32 == lo);
    assert((v / 0x1_0000_0000) as u32 == hi);
    le32_of_value32(b, at);
    le32_of_value32(b, at + 4);
    assert(b.subrange(at, at + 4) + b.subrange(at + 4, at + 8) =~= b.subrange(at, at + 8));
}

} // verus!
