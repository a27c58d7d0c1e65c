use crate::format::{
    blob_at, blob_fits, decode_message, encodable, encode_blob, encode_message, encode_palette,
    encode_str, fits, le16, le16_of_value16, le32, le32_of_value32, le64, le64_of_value64,
    palette_at, payload, payload_at, str_at, str_fits, str_fits_prefix, tag, value16,
    value16_of_le16, value32, value32_of_le32, value64_of_le64, MAX_FIELD_LEN,
};
use crate::messages::MessageView;
use vstd::prelude::*;
use vstd::utf8::*;

verus! {

/// A byte field that was written at `at` is read back from there.
pub proof fn blob_read_back(x: Seq<u8>, b: Seq<u8>, at: int)
    requires
        x.len() <= MAX_FIELD_LEN,
        fits(b, at, 2 + x.len() as int),
        b.subrange(at, at + 2 + x.len()) == encode_blob(x),
    ensures
        blob_fits(b, at),
        blob_at(b, at) == x,
        value16(b, at) == x.len(),
{
    let e = encode_blob(x);
    assert(b.subrange(at, at + 2) =~= e.subrange(0, 2));
    assert(e.subrange(0, 2) =~= le16(x.len() as u16));
    value16_of_le16(x.len() as u16, b, at);
    assert(b.subrange(at + 2, at + 2 + x.len()) =~= e.subrange(2, 2 + x.len() as int));
    assert(e.subrange(2, 2 + x.len() as int) =~= x);
}

/// A string that was written at `at` is read back from there.
pub proof fn str_read_back(s: Seq<char>, b: Seq<u8>, at: int)
    requires
        str_fits_prefix(s),
        fits(b, at, 2 + encode_utf8(s).len() as int),
        b.subrange(at, at + 2 + encode_utf8(s).len()) == encode_str(s),
    ensures
        str_fits(b, at),
        str_at(b, at) == s,
        value16(b, at) == encode_utf8(s).len(),
{
    blob_read_back(encode_utf8(s), b, at);
    encode_utf8_valid_utf8(s);
    encode_utf8_decode_utf8(s);
}

/// The byte field read at `at` is written as the very bytes that lie there.
pub proof fn blob_written_back(b: Seq<u8>, at: int)
    requires
        blob_fits(b, at),
    ensures
        blob_at(b, at).len() == value16(b, at),
        encode_blob(blob_at(b, at)) == b.subrange(at, at + 2 + value16(b, at)),
{
    le16_of_value16(b, at);
    assert(b.subrange(at, at + 2) + b.subrange(at + 2, at + 2 + value16(b, at)) =~= b.subrange(
        at,
        at + 2 + value16(b, at),
    ));
}

/// The string read at `at` is written as the very bytes that lie there.
pub proof fn str_written_back(b: Seq<u8>, at: int)
    requires
        str_fits(b, at),
    ensures
        encode_utf8(str_at(b, at)).len() == value16(b, at),
        str_fits_prefix(str_at(b, at)),
        encode_str(str_at(b, at)) == b.subrange(at, at + 2 + value16(b, at)),
{
    blob_written_back(b, at);
    decode_utf8_encode_utf8(blob_at(b, at));
}

/// A palette that was written at `at` is read back from there.
pub proof fn palette_read_back(p: Seq<u32>, b: Seq<u8>, at: int)
    requires
        p.len() == 8,
        fits(b, at, 32),
        b.subrange(at, at + 32) == encode_palette(p),
    ensures
        palette_at(b, at) == p,
{
    let e = encode_palette(p);
    assert forall|i: int| 0 <= i < 8 implies value32(b, at + 4 * i) == p[i] by {
        assert(b.subrange(at + 4 * i, at + 4 * i + 4) =~= e.subrange(4 * i, 4 * i + 4));
        assert(e.subrange(4 * i, 4 * i + 4) =~= le32(p[i]));
        value32_of_le32(p[i], b, at + 4 * i);
    }
    assert(palette_at(b, at) =~= p);
}

/// The palette read at `at` is written as the very bytes that lie there.
pub proof fn palette_written_back(b: Seq<u8>, at: int)
    requires
        fits(b, at, 32),
    ensures
        encode_palette(palette_at(b, at)) == b.subrange(at, at + 32),
{
    let p = palette_at(b, at);
    assert forall|i: int| 0 <= i < 8 implies le32(p[i]) == b.subrange(
        at + 4 * i,
        at + 4 * i + 4,
    ) by {
        le32_of_value32(b, at + 4 * i);
    }
    assert(le32(p[0]) == b.subrange(at + 4 * 0, at + 4 * 0 + 4));
    assert(le32(p[1]) == b.subrange(at + 4 * 1, at + 4 * 1 + 4));
    assert(le32(p[2]) == b.subrange(at + 4 * 2, at + 4 * 2 + 4));
    assert(le32(p[3]) == b.subrange(at + 4 * 3, at + 4 * 3 + 4));
    assert(le32(p[4]) == b.subrange(at + 4 * 4, at + 4 * 4 + 4));
    assert(le32(p[5]) == b.subrange(at + 4 * 5, at + 4 * 5 + 4));
    assert(le32(p[6]) == b.subrange(at + 4 * 6, at + 4 * 6 + 4));
    assert(le32(p[7]) == b.subrange(at + 4 * 7, at + 4 * 7 + 4));
    assert(encode_palette(p) =~= b.subrange(at, at + 32));
}

/// The length of a payload, field by field.
pub open spec fn payload_len(m: MessageView) -> nat {
    match m {
        MessageView::Auth { jwt_token } => 2 + encode_utf8(jwt_token).len(),
        MessageView::Join { name } => 2 + encode_utf8(name).len(),
        MessageView::Create { name, .. } => 10 + encode_utf8(name).len(),
        MessageView::BoardConfiguration { .. } => 36,
        MessageView::Step { .. } => 4,
        MessageView::Draw { .. } => 6,
        MessageView::CursorMove { .. } => 5,
        MessageView::Fill { .. } => 9,
        MessageView::Image { url, .. } => 10 + encode_utf8(url).len(),
        MessageView::Text { text, .. } => 7 + encode_utf8(text).len(),
        MessageView::Undo { .. } => 4,
        MessageView::Ping { .. } => 8,
        MessageView::UserJoin { username, .. } => 3 + encode_utf8(username).len(),
        MessageView::UserLeave { .. } => 1,
        MessageView::ServerMessage { message } => 2 + encode_utf8(message).len(),
        MessageView::History { data } => 2 + data.len(),
    }
}

/// A payload is as long as its fields together.
pub proof fn payload_len_is_len(m: MessageView)
    ensures
        payload(m).len() == payload_len(m),
{
}

proof fn read_back_auth(m: MessageView, b: Seq<u8>, at: int)
    requires
        m is Auth,
        encodable(m),
        fits(b, at, payload(m).len() as int),
        b.subrange(at, at + payload(m).len()) == payload(m),
    ensures
        payload_at(tag(m), b, at) == Some(m),
{
    let p = payload(m);
    let n = p.len() as int;
    assert forall|i: int| 0 <= i < n implies b[at + i] == p[i] by {
        assert(b.subrange(at, at + n)[i] == b[at + i]);
    }
    match m {
        MessageView::Auth { jwt_token } => {
            str_read_back(jwt_token, b, at);
        },
        _ => {},
    }
}

proof fn read_back_join(m: MessageView, b: Seq<u8>, at: int)
    requires
        m is Join,
        encodable(m),
        fits(b, at, payload(m).len() as int),
        b.subrange(at, at + payload(m).len()) == payload(m),
    ensures
        payload_at(tag(m), b, at) == Some(m),
{
    let p = payload(m);
    let n = p.len() as int;
    assert forall|i: int| 0 <= i < n implies b[at + i] == p[i] by {
        assert(b.subrange(at, at + n)[i] == b[at + i]);
    }
    match m {
        MessageView::Join { name } => {
            str_read_back(name, b, at);
        },
        _ => {},
    }
}

proof fn read_back_create(m: MessageView, b: Seq<u8>, at: int)
    requires
        m is Create,
        encodable(m),
        fits(b, at, payload(m).len() as int),
        b.subrange(at, at + payload(m).len()) == payload(m),
    ensures
        payload_at(tag(m), b, at) == Some(m),
{
    let p = payload(m);
    let n = p.len() as int;
    assert forall|i: int| 0 <= i < n implies b[at + i] == p[i] by {
        assert(b.subrange(at, at + n)[i] == b[at + i]);
    }
    match m {
        MessageView::Create { template_id, name } => {
            assert(b.subrange(at, at + 8) =~= p.subrange(0, 8));
            assert(p.subrange(0, 8) =~= le64(template_id));
            value64_of_le64(template_id, b, at);
            assert(b.subrange(at + 8, at + n) =~= p.subrange(8, n));
            assert(p.subrange(8, n) =~= encode_str(name));
            str_read_back(name, b, at + 8);
        },
        _ => {},
    }
}

proof fn read_back_board_configuration(m: MessageView, b: Seq<u8>, at: int)
    requires
        m is BoardConfiguration,
        encodable(m),
        fits(b, at, payload(m).len() as int),
        b.subrange(at, at + payload(m).len()) == payload(m),
    ensures
        payload_at(tag(m), b, at) == Some(m),
{
    let p = payload(m);
    let n = p.len() as int;
    assert forall|i: int| 0 <= i < n implies b[at + i] == p[i] by {
        assert(b.subrange(at, at + n)[i] == b[at + i]);
    }
    match m {
        MessageView::BoardConfiguration { palette, background, board_flags, history_size } => {
            assert(b.subrange(at, at + 32) =~= p.subrange(0, 32));
            assert(p.subrange(0, 32) =~= encode_palette(palette));
            palette_read_back(palette, b, at);
            assert(b[at + 32] == p[32]);
            assert(b[at + 33] == p[33]);
            assert(b.subrange(at + 34, at + 36) =~= p.subrange(34, 36));
            assert(p.subrange(34, 36) =~= le16(history_size));
            value16_of_le16(history_size, b, at + 34);
        },
        _ => {},
    }
}

proof fn read_back_step(m: MessageView, b: Seq<u8>, at: int)
    requires
        m is Step,
        encodable(m),
        fits(b, at, payload(m).len() as int),
        b.subrange(at, at + payload(m).len()) == payload(m),
    ensures
        payload_at(tag(m), b, at) == Some(m),
{
    let p = payload(m);
    let n = p.len() as int;
    assert forall|i: int| 0 <= i < n implies b[at + i] == p[i] by {
        assert(b.subrange(at, at + n)[i] == b[at + i]);
    }
    match m {
        MessageView::Step { step_id } => {
            value32_of_le32(step_id, b, at);
        },
        _ => {},
    }
}

proof fn read_back_draw(m: MessageView, b: Seq<u8>, at: int)
    requires
        m is Draw,
        encodable(m),
        fits(b, at, payload(m).len() as int),
        b.subrange(at, at + payload(m).len()) == payload(m),
    ensures
        payload_at(tag(m), b, at) == Some(m),
{
    let p = payload(m);
    let n = p.len() as int;
    assert forall|i: int| 0 <= i < n implies b[at + i] == p[i] by {
        assert(b.subrange(at, at + n)[i] == b[at + i]);
    }
    match m {
        MessageView::Draw { position, color, flags } => {
            assert(b.subrange(at, at + 4) =~= p.subrange(0, 4));
            assert(p.subrange(0, 4) =~= le32(position));
            value32_of_le32(position, b, at);
            assert(b[at + 4] == p[4]);
            assert(b[at + 5] == p[5]);
        },
        _ => {},
    }
}

proof fn read_back_cursor_move(m: MessageView, b: Seq<u8>, at: int)
    requires
        m is CursorMove,
        encodable(m),
        fits(b, at, payload(m).len() as int),
        b.subrange(at, at + payload(m).len()) == payload(m),
    ensures
        payload_at(tag(m), b, at) == Some(m),
{
    let p = payload(m);
    let n = p.len() as int;
    assert forall|i: int| 0 <= i < n implies b[at + i] == p[i] by {
        assert(b.subrange(at, at + n)[i] == b[at + i]);
    }
    match m {
        MessageView::CursorMove { position, user_id } => {
            assert(b.subrange(at, at + 4) =~= p.subrange(0, 4));
            assert(p.subrange(0, 4) =~= le32(position));
            value32_of_le32(position, b, at);
            assert(b[at + 4] == p[4]);
        },
        _ => {},
    }
}

proof fn read_back_fill(m: MessageView, b: Seq<u8>, at: int)
    requires
        m is Fill,
        encodable(m),
        fits(b, at, payload(m).len() as int),
        b.subrange(at, at + payload(m).len()) == payload(m),
    ensures
        payload_at(tag(m), b, at) == Some(m),
{
    let p = payload(m);
    let n = p.len() as int;
    assert forall|i: int| 0 <= i < n implies b[at + i] == p[i] by {
        assert(b.subrange(at, at + n)[i] == b[at + i]);
    }
    match m {
        MessageView::Fill { start, end, color } => {
            assert(b.subrange(at, at + 4) =~= p.subrange(0, 4));
            assert(p.subrange(0, 4) =~= le32(start));
            value32_of_le32(start, b, at);
            assert(b.subrange(at + 4, at + 8) =~= p.subrange(4, 8));
            assert(p.subrange(4, 8) =~= le32(end));
            value32_of_le32(end, b, at + 4);
            assert(b[at + 8] == p[8]);
        },
        _ => {},
    }
}

proof fn read_back_image(m: MessageView, b: Seq<u8>, at: int)
    requires
        m is Image,
        encodable(m),
        fits(b, at, payload(m).len() as int),
        b.subrange(at, at + payload(m).len()) == payload(m),
    ensures
        payload_at(tag(m), b, at) == Some(m),
{
    let p = payload(m);
    let n = p.len() as int;
    assert forall|i: int| 0 <= i < n implies b[at + i] == p[i] by {
        assert(b.subrange(at, at + n)[i] == b[at + i]);
    }
    match m {
        MessageView::Image { start, end, url } => {
            assert(b.subrange(at, at + 4) =~= p.subrange(0, 4));
            assert(p.subrange(0, 4) =~= le32(start));
            value32_of_le32(start, b, at);
            assert(b.subrange(at + 4, at + 8) =~= p.subrange(4, 8));
            assert(p.subrange(4, 8) =~= le32(end));
            value32_of_le32(end, b, at + 4);
            assert(b.subrange(at + 8, at + n) =~= p.subrange(8, n));
            assert(p.subrange(8, n) =~= encode_str(url));
            str_read_back(url, b, at + 8);
        },
        _ => {},
    }
}

proof fn read_back_text(m: MessageView, b: Seq<u8>, at: int)
    requires
        m is Text,
        encodable(m),
        fits(b, at, payload(m).len() as int),
        b.subrange(at, at + payload(m).len()) == payload(m),
    ensures
        payload_at(tag(m), b, at) == Some(m),
{
    let p = payload(m);
    let n = p.len() as int;
    assert forall|i: int| 0 <= i < n implies b[at + i] == p[i] by {
        assert(b.subrange(at, at + n)[i] == b[at + i]);
    }
    match m {
        MessageView::Text { center, text, text_color } => {
            assert(b.subrange(at, at + 4) =~= p.subrange(0, 4));
            assert(p.subrange(0, 4) =~= le32(center));
            value32_of_le32(center, b, at);
            assert(b.subrange(at + 4, at + n - 1) =~= p.subrange(4, n - 1));
            assert(p.subrange(4, n - 1) =~= encode_str(text));
            str_read_back(text, b, at + 4);
            assert(b[at + n - 1] == p[n - 1]);
        },
        _ => {},
    }
}

proof fn read_back_undo(m: MessageView, b: Seq<u8>, at: int)
    requires
        m is Undo,
        encodable(m),
        fits(b, at, payload(m).len() as int),
        b.subrange(at, at + payload(m).len()) == payload(m),
    ensures
        payload_at(tag(m), b, at) == Some(m),
{
    let p = payload(m);
    let n = p.len() as int;
    assert forall|i: int| 0 <= i < n implies b[at + i] == p[i] by {
        assert(b.subrange(at, at + n)[i] == b[at + i]);
    }
    match m {
        MessageView::Undo { last_actual_step_id } => {
            value32_of_le32(last_actual_step_id, b, at);
        },
        _ => {},
    }
}

proof fn read_back_ping(m: MessageView, b: Seq<u8>, at: int)
    requires
        m is Ping,
        encodable(m),
        fits(b, at, payload(m).len() as int),
        b.subrange(at, at + payload(m).len()) == payload(m),
    ensures
        payload_at(tag(m), b, at) == Some(m),
{
    let p = payload(m);
    let n = p.len() as int;
    assert forall|i: int| 0 <= i < n implies b[at + i] == p[i] by {
        assert(b.subrange(at, at + n)[i] == b[at + i]);
    }
    match m {
        MessageView::Ping { timestamp } => {
            value64_of_le64(timestamp, b, at);
        },
        _ => {},
    }
}

proof fn read_back_user_join(m: MessageView, b: Seq<u8>, at: int)
    requires
        m is UserJoin,
        encodable(m),
        fits(b, at, payload(m).len() as int),
        b.subrange(at, at + payload(m).len()) == payload(m),
    ensures
        payload_at(tag(m), b, at) == Some(m),
{
    let p = payload(m);
    let n = p.len() as int;
    assert forall|i: int| 0 <= i < n implies b[at + i] == p[i] by {
        assert(b.subrange(at, at + n)[i] == b[at + i]);
    }
    match m {
        MessageView::UserJoin { user_id, username } => {
            assert(b[at] == p[0]);
            assert(b.subrange(at + 1, at + n) =~= p.subrange(1, n));
            assert(p.subrange(1, n) =~= encode_str(username));
            str_read_back(username, b, at + 1);
        },
        _ => {},
    }
}

proof fn read_back_user_leave(m: MessageView, b: Seq<u8>, at: int)
    requires
        m is UserLeave,
        encodable(m),
        fits(b, at, payload(m).len() as int),
        b.subrange(at, at + payload(m).len()) == payload(m),
    ensures
        payload_at(tag(m), b, at) == Some(m),
{
    let p = payload(m);
    let n = p.len() as int;
    assert forall|i: int| 0 <= i < n implies b[at + i] == p[i] by {
        assert(b.subrange(at, at + n)[i] == b[at + i]);
    }
    match m {
        MessageView::UserLeave { user_id } => {
            assert(b[at] == p[0]);
        },
        _ => {},
    }
}

proof fn read_back_server_message(m: MessageView, b: Seq<u8>, at: int)
    requires
        m is ServerMessage,
        encodable(m),
        fits(b, at, payload(m).len() as int),
        b.subrange(at, at + payload(m).len()) == payload(m),
    ensures
        payload_at(tag(m), b, at) == Some(m),
{
    let p = payload(m);
    let n = p.len() as int;
    assert forall|i: int| 0 <= i < n implies b[at + i] == p[i] by {
        assert(b.subrange(at, at + n)[i] == b[at + i]);
    }
    match m {
        MessageView::ServerMessage { message } => {
            str_read_back(message, b, at);
        },
        _ => {},
    }
}

proof fn read_back_history(m: MessageView, b: Seq<u8>, at: int)
    requires
        m is History,
        encodable(m),
        fits(b, at, payload(m).len() as int),
        b.subrange(at, at + payload(m).len()) == payload(m),
    ensures
        payload_at(tag(m), b, at) == Some(m),
{
    let p = payload(m);
    let n = p.len() as int;
    assert forall|i: int| 0 <= i < n implies b[at + i] == p[i] by {
        assert(b.subrange(at, at + n)[i] == b[at + i]);
    }
    match m {
        MessageView::History { data } => {
            blob_read_back(data, b, at);
        },
        _ => {},
    }
}

/// Whatever stands before and behind it, a payload is read back as the message it was
/// written for.
pub proof fn payload_read_back(m: MessageView, b: Seq<u8>, at: int)
    requires
        encodable(m),
        fits(b, at, payload(m).len() as int),
        b.subrange(at, at + payload(m).len()) == payload(m),
    ensures
        payload_at(tag(m), b, at) == Some(m),
{
    match m {
        MessageView::Auth { .. } => read_back_auth(m, b, at),
        MessageView::Join { .. } => read_back_join(m, b, at),
        MessageView::Create { .. } => read_back_create(m, b, at),
        MessageView::BoardConfiguration { .. } => read_back_board_configuration(m, b, at),
        MessageView::Step { .. } => read_back_step(m, b, at),
        MessageView::Draw { .. } => read_back_draw(m, b, at),
        MessageView::CursorMove { .. } => read_back_cursor_move(m, b, at),
        MessageView::Fill { .. } => read_back_fill(m, b, at),
        MessageView::Image { .. } => read_back_image(m, b, at),
        MessageView::Text { .. } => read_back_text(m, b, at),
        MessageView::Undo { .. } => read_back_undo(m, b, at),
        MessageView::Ping { .. } => read_back_ping(m, b, at),
        MessageView::UserJoin { .. } => read_back_user_join(m, b, at),
        MessageView::UserLeave { .. } => read_back_user_leave(m, b, at),
        MessageView::ServerMessage { .. } => read_back_server_message(m, b, at),
        MessageView::History { .. } => read_back_history(m, b, at),
    }
}

proof fn written_back_auth(t: u8, b: Seq<u8>, at: int)
    requires
        0 <= at,
        payload_at(t, b, at) is Some,
        payload_at(t, b, at)->0 is Auth,
    ensures
        tag(payload_at(t, b, at)->0) == t,
        encodable(payload_at(t, b, at)->0),
        fits(b, at, payload(payload_at(t, b, at)->0).len() as int),
        payload(payload_at(t, b, at)->0) == b.subrange(
            at,
            at + payload(payload_at(t, b, at)->0).len(),
        ),
{
    let m = payload_at(t, b, at)->0;
    match m {
        MessageView::Auth { jwt_token } => {
            str_written_back(b, at);
        },
        _ => {},
    }
}

proof fn written_back_join(t: u8, b: Seq<u8>, at: int)
    requires
        0 <= at,
        payload_at(t, b, at) is Some,
        payload_at(t, b, at)->0 is Join,
    ensures
        tag(payload_at(t, b, at)->0) == t,
        encodable(payload_at(t, b, at)->0),
        fits(b, at, payload(payload_at(t, b, at)->0).len() as int),
        payload(payload_at(t, b, at)->0) == b.subrange(
            at,
            at + payload(payload_at(t, b, at)->0).len(),
        ),
{
    let m = payload_at(t, b, at)->0;
    match m {
        MessageView::Join { name } => {
            str_written_back(b, at);
        },
        _ => {},
    }
}

proof fn written_back_create(t: u8, b: Seq<u8>, at: int)
    requires
        0 <= at,
        payload_at(t, b, at) is Some,
        payload_at(t, b, at)->0 is Create,
    ensures
        tag(payload_at(t, b, at)->0) == t,
        encodable(payload_at(t, b, at)->0),
        fits(b, at, payload(payload_at(t, b, at)->0).len() as int),
        payload(payload_at(t, b, at)->0) == b.subrange(
            at,
            at + payload(payload_at(t, b, at)->0).len(),
        ),
{
    let m = payload_at(t, b, at)->0;
    match m {
        MessageView::Create { template_id, name } => {
            le64_of_value64(b, at);
            str_written_back(b, at + 8);
            assert(payload(m) =~= b.subrange(at, at + 10 + value16(b, at + 8)));
        },
        _ => {},
    }
}

proof fn written_back_board_configuration(t: u8, b: Seq<u8>, at: int)
    requires
        0 <= at,
        payload_at(t, b, at) is Some,
        payload_at(t, b, at)->0 is BoardConfiguration,
    ensures
        tag(payload_at(t, b, at)->0) == t,
        encodable(payload_at(t, b, at)->0),
        fits(b, at, payload(payload_at(t, b, at)->0).len() as int),
        payload(payload_at(t, b, at)->0) == b.subrange(
            at,
            at + payload(payload_at(t, b, at)->0).len(),
        ),
{
    let m = payload_at(t, b, at)->0;
    match m {
        MessageView::BoardConfiguration { palette, background, board_flags, history_size } => {
            palette_written_back(b, at);
            le16_of_value16(b, at + 34);
            assert(palette.len() == 8);
            assert(payload(m) =~= b.subrange(at, at + 36));
        },
        _ => {},
    }
}

proof fn written_back_step(t: u8, b: Seq<u8>, at: int)
    requires
        0 <= at,
        payload_at(t, b, at) is Some,
        payload_at(t, b, at)->0 is Step,
    ensures
        tag(payload_at(t, b, at)->0) == t,
        encodable(payload_at(t, b, at)->0),
        fits(b, at, payload(payload_at(t, b, at)->0).len() as int),
        payload(payload_at(t, b, at)->0) == b.subrange(
            at,
            at + payload(payload_at(t, b, at)->0).len(),
        ),
{
    let m = payload_at(t, b, at)->0;
    match m {
        MessageView::Step { step_id } => {
            le32_of_value32(b, at);
        },
        _ => {},
    }
}

proof fn written_back_draw(t: u8, b: Seq<u8>, at: int)
    requires
        0 <= at,
        payload_at(t, b, at) is Some,
        payload_at(t, b, at)->0 is Draw,
    ensures
        tag(payload_at(t, b, at)->0) == t,
        encodable(payload_at(t, b, at)->0),
        fits(b, at, payload(payload_at(t, b, at)->0).len() as int),
        payload(payload_at(t, b, at)->0) == b.subrange(
            at,
            at + payload(payload_at(t, b, at)->0).len(),
        ),
{
    let m = payload_at(t, b, at)->0;
    match m {
        MessageView::Draw { position, color, flags } => {
            le32_of_value32(b, at);
            assert(payload(m) =~= b.subrange(at, at + 6));
        },
        _ => {},
    }
}

proof fn written_back_cursor_move(t: u8, b: Seq<u8>, at: int)
    requires
        0 <= at,
        payload_at(t, b, at) is Some,
        payload_at(t, b, at)->0 is CursorMove,
    ensures
        tag(payload_at(t, b, at)->0) == t,
        encodable(payload_at(t, b, at)->0),
        fits(b, at, payload(payload_at(t, b, at)->0).len() as int),
        payload(payload_at(t, b, at)->0) == b.subrange(
            at,
            at + payload(payload_at(t, b, at)->0).len(),
        ),
{
    let m = payload_at(t, b, at)->0;
    match m {
        MessageView::CursorMove { position, user_id } => {
            le32_of_value32(b, at);
            assert(payload(m) =~= b.subrange(at, at + 5));
        },
        _ => {},
    }
}

proof fn written_back_fill(t: u8, b: Seq<u8>, at: int)
    requires
        0 <= at,
        payload_at(t, b, at) is Some,
        payload_at(t, b, at)->0 is Fill,
    ensures
        tag(payload_at(t, b, at)->0) == t,
        encodable(payload_at(t, b, at)->0),
        fits(b, at, payload(payload_at(t, b, at)->0).len() as int),
        payload(payload_at(t, b, at)->0) == b.subrange(
            at,
            at + payload(payload_at(t, b, at)->0).len(),
        ),
{
    let m = payload_at(t, b, at)->0;
    match m {
        MessageView::Fill { start, end, color } => {
            le32_of_value32(b, at);
            le32_of_value32(b, at + 4);
            assert(payload(m) =~= b.subrange(at, at + 9));
        },
        _ => {},
    }
}

proof fn written_back_image(t: u8, b: Seq<u8>, at: int)
    requires
        0 <= at,
        payload_at(t, b, at) is Some,
        payload_at(t, b, at)->0 is Image,
    ensures
        tag(payload_at(t, b, at)->0) == t,
        encodable(payload_at(t, b, at)->0),
        fits(b, at, payload(payload_at(t, b, at)->0).len() as int),
        payload(payload_at(t, b, at)->0) == b.subrange(
            at,
            at + payload(payload_at(t, b, at)->0).len(),
        ),
{
    let m = payload_at(t, b, at)->0;
    match m {
        MessageView::Image { start, end, url } => {
            le32_of_value32(b, at);
            le32_of_value32(b, at + 4);
            str_written_back(b, at + 8);
            assert(payload(m) =~= b.subrange(at, at + 10 + value16(b, at + 8)));
        },
        _ => {},
    }
}

proof fn written_back_text(t: u8, b: Seq<u8>, at: int)
    requires
        0 <= at,
        payload_at(t, b, at) is Some,
        payload_at(t, b, at)->0 is Text,
    ensures
        tag(payload_at(t, b, at)->0) == t,
        encodable(payload_at(t, b, at)->0),
        fits(b, at, payload(payload_at(t, b, at)->0).len() as int),
        payload(payload_at(t, b, at)->0) == b.subrange(
            at,
            at + payload(payload_at(t, b, at)->0).len(),
        ),
{
    let m = payload_at(t, b, at)->0;
    match m {
        MessageView::Text { center, text, text_color } => {
            le32_of_value32(b, at);
            str_written_back(b, at + 4);
            assert(payload(m) =~= b.subrange(at, at + 7 + value16(b, at + 4)));
        },
        _ => {},
    }
}

proof fn written_back_undo(t: u8, b: Seq<u8>, at: int)
    requires
        0 <= at,
        payload_at(t, b, at) is Some,
        payload_at(t, b, at)->0 is Undo,
    ensures
        tag(payload_at(t, b, at)->0) == t,
        encodable(payload_at(t, b, at)->0),
        fits(b, at, payload(payload_at(t, b, at)->0).len() as int),
        payload(payload_at(t, b, at)->0) == b.subrange(
            at,
            at + payload(payload_at(t, b, at)->0).len(),
        ),
{
    let m = payload_at(t, b, at)->0;
    match m {
        MessageView::Undo { last_actual_step_id } => {
            le32_of_value32(b, at);
        },
        _ => {},
    }
}

proof fn written_back_ping(t: u8, b: Seq<u8>, at: int)
    requires
        0 <= at,
        payload_at(t, b, at) is Some,
        payload_at(t, b, at)->0 is Ping,
    ensures
        tag(payload_at(t, b, at)->0) == t,
        encodable(payload_at(t, b, at)->0),
        fits(b, at, payload(payload_at(t, b, at)->0).len() as int),
        payload(payload_at(t, b, at)->0) == b.subrange(
            at,
            at + payload(payload_at(t, b, at)->0).len(),
        ),
{
    let m = payload_at(t, b, at)->0;
    match m {
        MessageView::Ping { timestamp } => {
            le64_of_value64(b, at);
        },
        _ => {},
    }
}

proof fn written_back_user_join(t: u8, b: Seq<u8>, at: int)
    requires
        0 <= at,
        payload_at(t, b, at) is Some,
        payload_at(t, b, at)->0 is UserJoin,
    ensures
        tag(payload_at(t, b, at)->0) == t,
        encodable(payload_at(t, b, at)->0),
        fits(b, at, payload(payload_at(t, b, at)->0).len() as int),
        payload(payload_at(t, b, at)->0) == b.subrange(
            at,
            at + payload(payload_at(t, b, at)->0).len(),
        ),
{
    let m = payload_at(t, b, at)->0;
    match m {
        MessageView::UserJoin { user_id, username } => {
            str_written_back(b, at + 1);
            assert(payload(m) =~= b.subrange(at, at + 3 + value16(b, at + 1)));
        },
        _ => {},
    }
}

proof fn written_back_user_leave(t: u8, b: Seq<u8>, at: int)
    requires
        0 <= at,
        payload_at(t, b, at) is Some,
        payload_at(t, b, at)->0 is UserLeave,
    ensures
        tag(payload_at(t, b, at)->0) == t,
        encodable(payload_at(t, b, at)->0),
        fits(b, at, payload(payload_at(t, b, at)->0).len() as int),
        payload(payload_at(t, b, at)->0) == b.subrange(
            at,
            at + payload(payload_at(t, b, at)->0).len(),
        ),
{
    let m = payload_at(t, b, at)->0;
    match m {
        MessageView::UserLeave { user_id } => {
            assert(payload(m) =~= b.subrange(at, at + 1));
        },
        _ => {},
    }
}

proof fn written_back_server_message(t: u8, b: Seq<u8>, at: int)
    requires
        0 <= at,
        payload_at(t, b, at) is Some,
        payload_at(t, b, at)->0 is ServerMessage,
    ensures
        tag(payload_at(t, b, at)->0) == t,
        encodable(payload_at(t, b, at)->0),
        fits(b, at, payload(payload_at(t, b, at)->0).len() as int),
        payload(payload_at(t, b, at)->0) == b.subrange(
            at,
            at + payload(payload_at(t, b, at)->0).len(),
        ),
{
    let m = payload_at(t, b, at)->0;
    match m {
        MessageView::ServerMessage { message } => {
            str_written_back(b, at);
        },
        _ => {},
    }
}

proof fn written_back_history(t: u8, b: Seq<u8>, at: int)
    requires
        0 <= at,
        payload_at(t, b, at) is Some,
        payload_at(t, b, at)->0 is History,
    ensures
        tag(payload_at(t, b, at)->0) == t,
        encodable(payload_at(t, b, at)->0),
        fits(b, at, payload(payload_at(t, b, at)->0).len() as int),
        payload(payload_at(t, b, at)->0) == b.subrange(
            at,
            at + payload(payload_at(t, b, at)->0).len(),
        ),
{
    let m = payload_at(t, b, at)->0;
    match m {
        MessageView::History { data } => {
            blob_written_back(b, at);
        },
        _ => {},
    }
}

/// The message read from a payload is written as the very bytes that were read.
pub proof fn payload_written_back(t: u8, b: Seq<u8>, at: int)
    requires
        0 <= at,
        payload_at(t, b, at) is Some,
    ensures
        tag(payload_at(t, b, at)->0) == t,
        encodable(payload_at(t, b, at)->0),
        fits(b, at, payload(payload_at(t, b, at)->0).len() as int),
        payload(payload_at(t, b, at)->0) == b.subrange(
            at,
            at + payload(payload_at(t, b, at)->0).len(),
        ),
{
    match payload_at(t, b, at)->0 {
        MessageView::Auth { .. } => written_back_auth(t, b, at),
        MessageView::Join { .. } => written_back_join(t, b, at),
        MessageView::Create { .. } => written_back_create(t, b, at),
        MessageView::BoardConfiguration { .. } => written_back_board_configuration(t, b, at),
        MessageView::Step { .. } => written_back_step(t, b, at),
        MessageView::Draw { .. } => written_back_draw(t, b, at),
        MessageView::CursorMove { .. } => written_back_cursor_move(t, b, at),
        MessageView::Fill { .. } => written_back_fill(t, b, at),
        MessageView::Image { .. } => written_back_image(t, b, at),
        MessageView::Text { .. } => written_back_text(t, b, at),
        MessageView::Undo { .. } => written_back_undo(t, b, at),
        MessageView::Ping { .. } => written_back_ping(t, b, at),
        MessageView::UserJoin { .. } => written_back_user_join(t, b, at),
        MessageView::UserLeave { .. } => written_back_user_leave(t, b, at),
        MessageView::ServerMessage { .. } => written_back_server_message(t, b, at),
        MessageView::History { .. } => written_back_history(t, b, at),
    }
}

/// Every message that has a frame is decoded from that frame as itself, whatever follows the
/// frame.
pub proof fn decode_of_encode(m: MessageView, rest: Seq<u8>)
    requires
        encodable(m),
    ensures
        decode_message(encode_message(m) + rest) == Some(m),
{
    let b = encode_message(m) + rest;
    assert(b[0] == tag(m));
    assert(b.subrange(1, 1 + payload(m).len() as int) =~= payload(m));
    payload_read_back(m, b, 1);
}

/// Decoding accepts nothing but frames: where bytes decode to a message, the message has a
/// frame, and the bytes start with exactly that frame.
pub proof fn encode_of_decode(b: Seq<u8>)
    requires
        decode_message(b) is Some,
    ensures
        encodable(decode_message(b)->0),
        encode_message(decode_message(b)->0).len() <= b.len(),
        b.subrange(0, encode_message(decode_message(b)->0).len() as int) == encode_message(
            decode_message(b)->0,
        ),
{
    let m = decode_message(b)->0;
    payload_written_back(b[0], b, 1);
    assert(b.subrange(0, encode_message(m).len() as int) =~= encode_message(m));
}

/// Two messages with the same frame are the same message.
pub proof fn frames_tell_messages_apart(m1: MessageView, m2: MessageView)
    requires
        encodable(m1),
        encodable(m2),
        encode_message(m1) == encode_message(m2),
    ensures
        m1 == m2,
{
    decode_of_encode(m1, Seq::empty());
    decode_of_encode(m2, Seq::empty());
}

/// No frame that is cut short decodes to anything.
pub proof fn cut_frame_is_rejected(m: MessageView, n: int)
    requires
        encodable(m),
        0 <= n < encode_message(m).len(),
    ensures
        decode_message(encode_message(m).take(n)) is None,
{
    let whole = encode_message(m);
    let cut = whole.take(n);
    if decode_message(cut) is Some {
        let other = decode_message(cut)->0;
        encode_of_decode(cut);
        let len = encode_message(other).len() as int;
        let rest = whole.skip(len);
        assert(encode_message(other) + rest =~= whole) by {
            assert(cut.subrange(0, len) =~= whole.take(len));
        }
        decode_of_encode(other, rest);
        decode_of_encode(m, Seq::empty());
        assert(whole + Seq::<u8>::empty() =~= whole);
    }
}

/// Bytes that start with a number that is no tag decode to nothing.
pub proof fn unknown_tag_is_rejected(b: Seq<u8>)
    requires
        b.len() > 0,
        b[0] >= 16,
    ensures
        decode_message(b) is None,
{
}

/// A frame of a variant whose first field is text decodes to nothing where the bytes of the
/// text are not UTF-8, or are fewer than the length in front of them says.
pub proof fn bad_text_is_rejected(b: Seq<u8>)
    requires
        b.len() > 0,
        b[0] == 0 || b[0] == 1 || b[0] == 14,
        !blob_fits(b, 1) || !valid_utf8(blob_at(b, 1)),
    ensures
        decode_message(b) is None,
{
}

} // verus!
