use crate::error::SessionError;
use crate::format::{
    blob_at, blob_fits, decode_message, fits, message_at, palette_at, payload, payload_at, signed16,
    signed32, signed64, signed8, str_at, str_fits, value16, value32, value64,
};
use crate::messages::{
    Auth, BoardConfiguration, BoardFlags, Create, CursorMove, Draw, DrawFlags, Fill, History, Image,
    Join, Message, Palette, Ping, ServerMessage, Step, Text, Undo, UserJoin, UserLeave,
};
use crate::roundtrip::{blob_written_back, payload_len_is_len, str_written_back};
use vstd::prelude::*;
use vstd::slice::{slice_subrange, slice_to_vec};
use vstd::string::*;
use vstd::utf8::*;

verus! {

/// A cursor over the bytes of a frame.
pub struct Deserializer<'de> {
    input: &'de [u8],
    pos: usize,
}

/// `std::str::from_utf8`: the bytes as text where they are well-formed UTF-8, and nothing
/// where they are not. The text, encoded again, is the bytes.
#[verifier::external_body]
fn utf8_text<'a>(bytes: &'a [u8]) -> (res: Option<&'a str>)
    ensures
        res is Some <==> valid_utf8(bytes@),
        res matches Some(s) ==> encode_utf8(s@) == bytes@,
{
    std::str::from_utf8(bytes).ok()
}

/// `char::from_u32`: the character with scalar value `v`, and nothing where `v` is a
/// surrogate or lies beyond the last code point.
#[verifier::external_body]
fn scalar_char(v: u32) -> (res: Option<char>)
    ensures
        res is Some <==> is_scalar(v),
        res matches Some(c) ==> c as u32 == v,
{
    char::from_u32(v)
}

/// The message at the start of `s`, or `SessionError::Decode` where `s` starts with no message:
/// where it is cut short, names no variant, or holds text that is not UTF-8.
pub fn from_bytes<'a>(s: &'a [u8]) -> (res: Result<Message<'a>, SessionError>)
    ensures
        match decode_message(s@) {
            Some(m) => res is Ok && res->Ok_0@ == m,
            None => res == Err::<Message<'a>, SessionError>(SessionError::Decode),
        },
{
    let mut deserializer = Deserializer::from_bytes(s);
    Message::deserialize(&mut deserializer)
}

impl<'de> Deserializer<'de> {
    /// The bytes under the cursor, read and unread.
    pub closed spec fn input(&self) -> Seq<u8> {
        self.input@
    }

    /// How many bytes have been read.
    pub closed spec fn pos(&self) -> int {
        self.pos as int
    }

    #[verifier::type_invariant]
    spec fn in_bounds(&self) -> bool {
        self.pos <= self.input@.len()
    }

    /// Whether `n` more bytes can be read.
    pub open spec fn has(&self, n: int) -> bool {
        fits(self.input(), self.pos(), n)
    }

    /// Whether a read was refused: it failed as a decoding error and left the cursor where it
    /// was.
    pub open spec fn refuses<T>(&self, before: &Self, res: Result<T, SessionError>) -> bool {
        res == Err::<T, SessionError>(SessionError::Decode) && self.advanced(before, 0)
    }

    /// Whether `self` is `before` with `n` more bytes read.
    pub open spec fn advanced(&self, before: &Self, n: int) -> bool {
        self.input() == before.input() && self.pos() == before.pos() + n
    }

    /// How many bytes have been read; never more than there are.
    pub fn position(&self) -> (p: usize)
        ensures
            p == self.pos(),
            p <= self.input().len(),
    {
        proof {
            use_type_invariant(self);
        }
        self.pos
    }

    /// A cursor at the start of `input`.
    pub fn from_bytes(input: &'de [u8]) -> (d: Deserializer<'de>)
        ensures
            d.input() == input@,
            d.pos() == 0,
    {
        Deserializer { input, pos: 0 }
    }

    /// The next byte.
    pub fn read_u8(&mut self) -> (res: Result<u8, SessionError>)
        ensures
            old(self).has(1) ==> res == Ok::<u8, SessionError>(old(self).input()[old(self).pos()])
                && final(self).advanced(old(self), 1),
            !old(self).has(1) ==> final(self).refuses(old(self), res),
    {
        proof {
            use_type_invariant(&*self);
        }
        if self.pos >= self.input.len() {
            return Err(SessionError::Decode);
        }
        let val = self.input[self.pos];
        self.pos += 1;
        Ok(val)
    }

    /// The next two bytes as a number, low byte first.
    pub fn read_u16(&mut self) -> (res: Result<u16, SessionError>)
        ensures
            old(self).has(2) ==> res == Ok::<u16, SessionError>(
                value16(old(self).input(), old(self).pos()),
            ) && final(self).advanced(old(self), 2),
            !old(self).has(2) ==> final(self).refuses(old(self), res),
    {
        proof {
            use_type_invariant(&*self);
        }
        if self.input.len() - self.pos < 2 {
            return Err(SessionError::Decode);
        }
        let a = self.input[self.pos] as u16;
        let b = self.input[self.pos + 1] as u16;
        self.pos += 2;
        assert((b << 8) | a == a + 0x100 * b) by (bit_vector)
            requires
                a < 256,
                b < 256,
        ;
        Ok((b << 8) | a)
    }

    /// The next four bytes as a number, low byte first.
    pub fn read_u32(&mut self) -> (res: Result<u32, SessionError>)
        ensures
            old(self).has(4) ==> res == Ok::<u32, SessionError>(
                value32(old(self).input(), old(self).pos()),
            ) && final(self).advanced(old(self), 4),
            !old(self).has(4) ==> final(self).refuses(old(self), res),
    {
        proof {
            use_type_invariant(&*self);
        }
        if self.input.len() - self.pos < 4 {
            return Err(SessionError::Decode);
        }
        let a = self.input[self.pos] as u32;
        let b = self.input[self.pos + 1] as u32;
        let c = self.input[self.pos + 2] as u32;
        let d = self.input[self.pos + 3] as u32;
        self.pos += 4;
        assert(((d << 24) | (c << 16) | b << 8) | a == a + 0x100 * b + 0x1_0000 * c + 0x100_0000
            * d) by (bit_vector)
            requires
                a < 256,
                b < 256,
                c < 256,
                d < 256,
        ;
        Ok(((d << 24) | (c << 16) | b << 8) | a)
    }

    /// The next eight bytes as a number, low byte first.
    pub fn read_u64(&mut self) -> (res: Result<u64, SessionError>)
        ensures
            old(self).has(8) ==> res == Ok::<u64, SessionError>(
                value64(old(self).input(), old(self).pos()),
            ) && final(self).advanced(old(self), 8),
            !old(self).has(8) ==> final(self).refuses(old(self), res),
    {
        proof {
            use_type_invariant(&*self);
        }
        if self.input.len() - self.pos < 8 {
            return Err(SessionError::Decode);
        }
        let a = self.input[self.pos] as u64;
        let b = self.input[self.pos + 1] as u64;
        let c = self.input[self.pos + 2] as u64;
        let d = self.input[self.pos + 3] as u64;
        let e = self.input[self.pos + 4] as u64;
        let f = self.input[self.pos + 5] as u64;
        let g = self.input[self.pos + 6] as u64;
        let h = self.input[self.pos + 7] as u64;
        self.pos += 8;
        assert(((h << 56) | (g << 48) | (f << 40) | (e << 32) | (d << 24) | (c << 16) | b << 8) | a
            == (a + 0x100 * b + 0x1_0000 * c + 0x100_0000 * d) + 0x1_0000_0000 * (e + 0x100 * f
            + 0x1_0000 * g + 0x100_0000 * h)) by (bit_vector)
            requires
                a < 256,
                b < 256,
                c < 256,
                d < 256,
                e < 256,
                f < 256,
                g < 256,
                h < 256,
        ;
        Ok(((h << 56) | (g << 48) | (f << 40) | (e << 32) | (d << 24) | (c << 16) | b << 8) | a)
    }

    /// The next `length` bytes, borrowed from the input.
    pub fn read_bytes(&mut self, length: usize) -> (res: Result<&'de [u8], SessionError>)
        ensures
            old(self).has(length as int) ==> res is Ok && res->Ok_0@ == old(self).input().subrange(
                old(self).pos(),
                old(self).pos() + length,
            ) && final(self).advanced(old(self), length as int),
            !old(self).has(length as int) ==> final(self).refuses(old(self), res),
    {
        proof {
            use_type_invariant(&*self);
        }
        if self.input.len() - self.pos < length {
            return Err(SessionError::Decode);
        }
        let ptr = slice_subrange(self.input, self.pos, self.pos + length);
        self.pos += length;
        Ok(ptr)
    }

    /// The next byte as a truth value: 0 is false, 1 is true, anything else is refused.
    pub fn read_bool(&mut self) -> (res: Result<bool, SessionError>)
        ensures
            old(self).has(1) && old(self).input()[old(self).pos()] <= 1 ==> res == Ok::<
                bool,
                SessionError,
            >(old(self).input()[old(self).pos()] == 1) && final(self).advanced(old(self), 1),
            !(old(self).has(1) && old(self).input()[old(self).pos()] <= 1) ==> final(self).refuses(
                old(self),
                res,
            ),
    {
        proof {
            use_type_invariant(&*self);
        }
        if self.pos >= self.input.len() {
            return Err(SessionError::Decode);
        }
        let val = self.input[self.pos];
        if val == 0 {
            self.pos += 1;
            Ok(false)
        } else if val == 1 {
            self.pos += 1;
            Ok(true)
        } else {
            Err(SessionError::Decode)
        }
    }
    fn peek_u32(&self, at: usize) -> (v: u32)
        requires
            fits(self.input(), at as int, 4),
        ensures
            v == value32(self.input(), at as int),
    {
        let a = self.input[at] as u32;
        let b = self.input[at + 1] as u32;
        let c = self.input[at + 2] as u32;
        let d = self.input[at + 3] as u32;
        assert(((d << 24) | (c << 16) | b << 8) | a == a + 0x100 * b + 0x1_0000 * c + 0x100_0000
            * d) by (bit_vector)
            requires
                a < 256,
                b < 256,
                c < 256,
                d < 256,
        ;
        ((d << 24) | (c << 16) | b << 8) | a
    }

    /// Values that describe themselves have no layout on the wire.
    pub fn deserialize_any(&mut self) -> (res: Result<(), SessionError>)
        ensures
            res == Err::<(), SessionError>(SessionError::Unsupported),
            final(self).advanced(old(self), 0),
    {
        Err(SessionError::Unsupported)
    }

    /// One byte as a truth value, as `read_bool` reads it.
    pub fn deserialize_bool(&mut self) -> (res: Result<bool, SessionError>)
        ensures
            old(self).has(1) && old(self).input()[old(self).pos()] <= 1 ==> res == Ok::<
                bool,
                SessionError,
            >(old(self).input()[old(self).pos()] == 1) && final(self).advanced(old(self), 1),
            !(old(self).has(1) && old(self).input()[old(self).pos()] <= 1) ==> final(self).refuses(
                old(self),
                res,
            ),
    {
        self.read_bool()
    }

    /// Signed numbers are read as the unsigned number with the same bits.
    pub fn deserialize_i8(&mut self) -> (res: Result<i8, SessionError>)
        ensures
            old(self).has(1) ==> res == Ok::<i8, SessionError>(
                signed8(old(self).input()[old(self).pos()]),
            ) && final(self).advanced(old(self), 1),
            !old(self).has(1) ==> final(self).refuses(old(self), res),
    {
        match self.read_u8() {
            Ok(u) => {
                let v: i8 = u as i8;
                assert(v == signed8(u)) by (bit_vector)
                    requires
                        v == u as i8,
                ;
                Ok(v)
            },
            Err(e) => Err(e),
        }
    }

    /// As `deserialize_i8`, from two bytes.
    pub fn deserialize_i16(&mut self) -> (res: Result<i16, SessionError>)
        ensures
            old(self).has(2) ==> res == Ok::<i16, SessionError>(
                signed16(value16(old(self).input(), old(self).pos())),
            ) && final(self).advanced(old(self), 2),
            !old(self).has(2) ==> final(self).refuses(old(self), res),
    {
        match self.read_u16() {
            Ok(u) => {
                let v: i16 = u as i16;
                assert(v == signed16(u)) by (bit_vector)
                    requires
                        v == u as i16,
                ;
                Ok(v)
            },
            Err(e) => Err(e),
        }
    }

    /// As `deserialize_i8`, from four bytes.
    pub fn deserialize_i32(&mut self) -> (res: Result<i32, SessionError>)
        ensures
            old(self).has(4) ==> res == Ok::<i32, SessionError>(
                signed32(value32(old(self).input(), old(self).pos())),
            ) && final(self).advanced(old(self), 4),
            !old(self).has(4) ==> final(self).refuses(old(self), res),
    {
        match self.read_u32() {
            Ok(u) => {
                let v: i32 = u as i32;
                assert(v == signed32(u)) by (bit_vector)
                    requires
                        v == u as i32,
                ;
                Ok(v)
            },
            Err(e) => Err(e),
        }
    }

    /// As `deserialize_i8`, from eight bytes.
    pub fn deserialize_i64(&mut self) -> (res: Result<i64, SessionError>)
        ensures
            old(self).has(8) ==> res == Ok::<i64, SessionError>(
                signed64(value64(old(self).input(), old(self).pos())),
            ) && final(self).advanced(old(self), 8),
            !old(self).has(8) ==> final(self).refuses(old(self), res),
    {
        match self.read_u64() {
            Ok(u) => {
                let v: i64 = u as i64;
                assert(v == signed64(u)) by (bit_vector)
                    requires
                        v == u as i64,
                ;
                Ok(v)
            },
            Err(e) => Err(e),
        }
    }

    /// Unsigned numbers are read low byte first.
    pub fn deserialize_u8(&mut self) -> (res: Result<u8, SessionError>)
        ensures
            old(self).has(1) ==> res == Ok::<u8, SessionError>(old(self).input()[old(self).pos()])
                && final(self).advanced(old(self), 1),
            !old(self).has(1) ==> final(self).refuses(old(self), res),
    {
        self.read_u8()
    }

    /// As `deserialize_u8`, from two bytes.
    pub fn deserialize_u16(&mut self) -> (res: Result<u16, SessionError>)
        ensures
            old(self).has(2) ==> res == Ok::<u16, SessionError>(
                value16(old(self).input(), old(self).pos()),
            ) && final(self).advanced(old(self), 2),
            !old(self).has(2) ==> final(self).refuses(old(self), res),
    {
        self.read_u16()
    }

    /// As `deserialize_u8`, from four bytes.
    pub fn deserialize_u32(&mut self) -> (res: Result<u32, SessionError>)
        ensures
            old(self).has(4) ==> res == Ok::<u32, SessionError>(
                value32(old(self).input(), old(self).pos()),
            ) && final(self).advanced(old(self), 4),
            !old(self).has(4) ==> final(self).refuses(old(self), res),
    {
        self.read_u32()
    }

    /// As `deserialize_u8`, from eight bytes.
    pub fn deserialize_u64(&mut self) -> (res: Result<u64, SessionError>)
        ensures
            old(self).has(8) ==> res == Ok::<u64, SessionError>(
                value64(old(self).input(), old(self).pos()),
            ) && final(self).advanced(old(self), 8),
            !old(self).has(8) ==> final(self).refuses(old(self), res),
    {
        self.read_u64()
    }

    /// Four bytes that spell a Unicode scalar value, as that character. Four bytes that spell
    /// anything else are refused.
    pub fn deserialize_char(&mut self) -> (res: Result<char, SessionError>)
        ensures
            old(self).has(4) && is_scalar(value32(old(self).input(), old(self).pos())) ==> res
                is Ok && res->Ok_0 as u32 == value32(old(self).input(), old(self).pos())
                && final(self).advanced(old(self), 4),
            !(old(self).has(4) && is_scalar(value32(old(self).input(), old(self).pos())))
                ==> final(self).refuses(old(self), res),
    {
        proof {
            use_type_invariant(&*self);
        }
        let start = self.pos;
        let v = match self.read_u32() {
            Ok(v) => v,
            Err(e) => {
                return Err(e);
            },
        };
        match scalar_char(v) {
            Some(t) => Ok(t),
            None => {
                self.pos = start;
                Err(SessionError::Decode)
            },
        }
    }

    /// A length in 16 bits, then that many bytes of UTF-8, as text borrowed from the input.
    pub fn deserialize_str(&mut self) -> (res: Result<&'de str, SessionError>)
        ensures
            str_fits(old(self).input(), old(self).pos()) ==> res is Ok && res->Ok_0@ == str_at(
                old(self).input(),
                old(self).pos(),
            ) && final(self).advanced(old(self), 2 + value16(old(self).input(), old(self).pos())),
            !str_fits(old(self).input(), old(self).pos()) ==> final(self).refuses(old(self), res),
    {
        proof {
            use_type_invariant(&*self);
        }
        let start = self.pos;
        let bytes = match self.deserialize_bytes() {
            Ok(b) => b,
            Err(e) => {
                return Err(e);
            },
        };
        match utf8_text(bytes) {
            Some(t) => {
                proof {
                    encode_utf8_decode_utf8(t@);
                }
                Ok(t)
            },
            None => {
                self.pos = start;
                Err(SessionError::Decode)
            },
        }
    }

    /// As `deserialize_str`, with the text copied out of the input.
    pub fn deserialize_string(&mut self) -> (res: Result<String, SessionError>)
        ensures
            str_fits(old(self).input(), old(self).pos()) ==> res is Ok && res->Ok_0@ == str_at(
                old(self).input(),
                old(self).pos(),
            ) && final(self).advanced(old(self), 2 + value16(old(self).input(), old(self).pos())),
            !str_fits(old(self).input(), old(self).pos()) ==> final(self).refuses(old(self), res),
    {
        match self.deserialize_str() {
            Ok(t) => Ok(t.to_owned()),
            Err(e) => Err(e),
        }
    }

    /// A length in 16 bits, then that many bytes, borrowed from the input.
    pub fn deserialize_bytes(&mut self) -> (res: Result<&'de [u8], SessionError>)
        ensures
            blob_fits(old(self).input(), old(self).pos()) ==> res is Ok && res->Ok_0@ == blob_at(
                old(self).input(),
                old(self).pos(),
            ) && final(self).advanced(old(self), 2 + value16(old(self).input(), old(self).pos())),
            !blob_fits(old(self).input(), old(self).pos()) ==> final(self).refuses(old(self), res),
    {
        proof {
            use_type_invariant(&*self);
        }
        let start = self.pos;
        let length = match self.read_u16() {
            Ok(n) => n,
            Err(e) => {
                return Err(e);
            },
        };
        match self.read_bytes(length as usize) {
            Ok(bytes) => Ok(bytes),
            Err(e) => {
                self.pos = start;
                Err(e)
            },
        }
    }

    /// As `deserialize_bytes`, with the bytes copied out of the input.
    pub fn deserialize_byte_buf(&mut self) -> (res: Result<Vec<u8>, SessionError>)
        ensures
            blob_fits(old(self).input(), old(self).pos()) ==> res is Ok && res->Ok_0@ == blob_at(
                old(self).input(),
                old(self).pos(),
            ) && final(self).advanced(old(self), 2 + value16(old(self).input(), old(self).pos())),
            !blob_fits(old(self).input(), old(self).pos()) ==> final(self).refuses(old(self), res),
    {
        match self.deserialize_bytes() {
            Ok(bytes) => Ok(slice_to_vec(bytes)),
            Err(e) => Err(e),
        }
    }

    /// The flag in front of an optional value: whether the value follows.
    pub fn deserialize_option(&mut self) -> (res: Result<bool, SessionError>)
        ensures
            old(self).has(1) && old(self).input()[old(self).pos()] <= 1 ==> res == Ok::<
                bool,
                SessionError,
            >(old(self).input()[old(self).pos()] == 1) && final(self).advanced(old(self), 1),
            !(old(self).has(1) && old(self).input()[old(self).pos()] <= 1) ==> final(self).refuses(
                old(self),
                res,
            ),
    {
        self.read_bool()
    }

    /// The unit value takes no bytes.
    pub fn deserialize_unit(&mut self) -> (res: Result<(), SessionError>)
        ensures
            res is Ok,
            final(self).advanced(old(self), 0),
    {
        Ok(())
    }

    /// The head of a sequence: the number of elements that follow.
    pub fn deserialize_seq(&mut self) -> (res: Result<usize, SessionError>)
        ensures
            old(self).has(2) ==> res == Ok::<usize, SessionError>(
                value16(old(self).input(), old(self).pos()) as usize,
            ) && final(self).advanced(old(self), 2),
            !old(self).has(2) ==> final(self).refuses(old(self), res),
    {
        match self.read_u16() {
            Ok(len) => Ok(len as usize),
            Err(e) => Err(e),
        }
    }

    /// Maps have no layout on the wire.
    pub fn deserialize_map(&mut self) -> (res: Result<(), SessionError>)
        ensures
            res == Err::<(), SessionError>(SessionError::Unsupported),
            final(self).advanced(old(self), 0),
    {
        Err(SessionError::Unsupported)
    }

    /// The tag of a variant.
    pub fn deserialize_identifier(&mut self) -> (res: Result<u8, SessionError>)
        ensures
            old(self).has(1) ==> res == Ok::<u8, SessionError>(old(self).input()[old(self).pos()])
                && final(self).advanced(old(self), 1),
            !old(self).has(1) ==> final(self).refuses(old(self), res),
    {
        self.read_u8()
    }

    /// Nothing can be skipped: the layout does not say how long a value is.
    pub fn deserialize_ignored_any(&mut self) -> (res: Result<(), SessionError>)
        ensures
            res == Err::<(), SessionError>(SessionError::Unsupported),
            final(self).advanced(old(self), 0),
    {
        Err(SessionError::Unsupported)
    }

    /// Eight palette entries, one after the other.
    pub fn deserialize_palette(&mut self) -> (res: Result<Palette, SessionError>)
        ensures
            old(self).has(32) ==> res is Ok && res->Ok_0@ == palette_at(
                old(self).input(),
                old(self).pos(),
            ) && final(self).advanced(old(self), 32),
            !old(self).has(32) ==> final(self).refuses(old(self), res),
    {
        proof {
            use_type_invariant(&*self);
        }
        if self.input.len() - self.pos < 32 {
            return Err(SessionError::Decode);
        }
        let at = self.pos;
        let palette: Palette = [
            self.peek_u32(at),
            self.peek_u32(at + 4),
            self.peek_u32(at + 8),
            self.peek_u32(at + 12),
            self.peek_u32(at + 16),
            self.peek_u32(at + 20),
            self.peek_u32(at + 24),
            self.peek_u32(at + 28),
        ];
        self.pos += 32;
        assert(palette@ =~= palette_at(old(self).input(), old(self).pos()));
        Ok(palette)
    }
}

impl<'a> Auth<'a> {
    /// Reads the fields in the order of their declaration. Where they are not all there, the
    /// cursor stays where it was.
    pub fn deserialize(de: &mut Deserializer<'a>) -> (res: Result<Auth<'a>, SessionError>)
        ensures
            match payload_at(0, old(de).input(), old(de).pos()) {
                Some(m) => res is Ok && res->Ok_0@ == m && final(de).advanced(
                    old(de),
                    payload(m).len() as int,
                ),
                None => final(de).refuses(old(de), res),
            },
    {
        proof {
            use_type_invariant(&*de);
        }
        let origin = de.pos;
        proof {
            if str_fits(de.input(), de.pos()) {
                str_written_back(de.input(), de.pos());
            }
        }
        let jwt_token = match de.deserialize_str() {
            Ok(v) => v,
            Err(e) => {
                de.pos = origin;
                return Err(e);
            },
        };
        let value = Auth { jwt_token };
        proof {
            payload_len_is_len(value@);
        }
        Ok(value)
    }
}

impl<'a> Join<'a> {
    /// Reads the fields in the order of their declaration. Where they are not all there, the
    /// cursor stays where it was.
    pub fn deserialize(de: &mut Deserializer<'a>) -> (res: Result<Join<'a>, SessionError>)
        ensures
            match payload_at(1, old(de).input(), old(de).pos()) {
                Some(m) => res is Ok && res->Ok_0@ == m && final(de).advanced(
                    old(de),
                    payload(m).len() as int,
                ),
                None => final(de).refuses(old(de), res),
            },
    {
        proof {
            use_type_invariant(&*de);
        }
        let origin = de.pos;
        proof {
            if str_fits(de.input(), de.pos()) {
                str_written_back(de.input(), de.pos());
            }
        }
        let name = match de.deserialize_str() {
            Ok(v) => v,
            Err(e) => {
                de.pos = origin;
                return Err(e);
            },
        };
        let value = Join { name };
        proof {
            payload_len_is_len(value@);
        }
        Ok(value)
    }
}

impl<'a> Create<'a> {
    /// Reads the fields in the order of their declaration. Where they are not all there, the
    /// cursor stays where it was.
    pub fn deserialize(de: &mut Deserializer<'a>) -> (res: Result<Create<'a>, SessionError>)
        ensures
            match payload_at(2, old(de).input(), old(de).pos()) {
                Some(m) => res is Ok && res->Ok_0@ == m && final(de).advanced(
                    old(de),
                    payload(m).len() as int,
                ),
                None => final(de).refuses(old(de), res),
            },
    {
        proof {
            use_type_invariant(&*de);
        }
        let origin = de.pos;
        let template_id = match de.deserialize_u64() {
            Ok(v) => v,
            Err(e) => {
                de.pos = origin;
                return Err(e);
            },
        };
        proof {
            if str_fits(de.input(), de.pos()) {
                str_written_back(de.input(), de.pos());
            }
        }
        let name = match de.deserialize_str() {
            Ok(v) => v,
            Err(e) => {
                de.pos = origin;
                return Err(e);
            },
        };
        let value = Create { template_id, name };
        proof {
            payload_len_is_len(value@);
        }
        Ok(value)
    }
}

impl BoardConfiguration {
    /// Reads the fields in the order of their declaration. Where they are not all there, the
    /// cursor stays where it was.
    pub fn deserialize<'a>(
        de: &mut Deserializer<'a>,
    ) -> (res: Result<BoardConfiguration, SessionError>)
        ensures
            match payload_at(3, old(de).input(), old(de).pos()) {
                Some(m) => res is Ok && res->Ok_0@ == m && final(de).advanced(
                    old(de),
                    payload(m).len() as int,
                ),
                None => final(de).refuses(old(de), res),
            },
    {
        proof {
            use_type_invariant(&*de);
        }
        let origin = de.pos;
        let palette = match de.deserialize_palette() {
            Ok(v) => v,
            Err(e) => {
                de.pos = origin;
                return Err(e);
            },
        };
        let background = match de.deserialize_u8() {
            Ok(v) => v,
            Err(e) => {
                de.pos = origin;
                return Err(e);
            },
        };
        let board_flags = match de.deserialize_u8() {
            Ok(v) => v,
            Err(e) => {
                de.pos = origin;
                return Err(e);
            },
        };
        let history_size = match de.deserialize_u16() {
            Ok(v) => v,
            Err(e) => {
                de.pos = origin;
                return Err(e);
            },
        };
        let value = BoardConfiguration {
            palette,
            background,
            board_flags: BoardFlags::from_bits_retain(board_flags),
            history_size,
        };
        proof {
            payload_len_is_len(value@);
        }
        Ok(value)
    }
}

impl Step {
    /// Reads the fields in the order of their declaration. Where they are not all there, the
    /// cursor stays where it was.
    pub fn deserialize<'a>(de: &mut Deserializer<'a>) -> (res: Result<Step, SessionError>)
        ensures
            match payload_at(4, old(de).input(), old(de).pos()) {
                Some(m) => res is Ok && res->Ok_0@ == m && final(de).advanced(
                    old(de),
                    payload(m).len() as int,
                ),
                None => final(de).refuses(old(de), res),
            },
    {
        proof {
            use_type_invariant(&*de);
        }
        let origin = de.pos;
        let step_id = match de.deserialize_u32() {
            Ok(v) => v,
            Err(e) => {
                de.pos = origin;
                return Err(e);
            },
        };
        let value = Step { step_id };
        proof {
            payload_len_is_len(value@);
        }
        Ok(value)
    }
}

impl Draw {
    /// Reads the fields in the order of their declaration. Where they are not all there, the
    /// cursor stays where it was.
    pub fn deserialize<'a>(de: &mut Deserializer<'a>) -> (res: Result<Draw, SessionError>)
        ensures
            match payload_at(5, old(de).input(), old(de).pos()) {
                Some(m) => res is Ok && res->Ok_0@ == m && final(de).advanced(
                    old(de),
                    payload(m).len() as int,
                ),
                None => final(de).refuses(old(de), res),
            },
    {
        proof {
            use_type_invariant(&*de);
        }
        let origin = de.pos;
        let position = match de.deserialize_u32() {
            Ok(v) => v,
            Err(e) => {
                de.pos = origin;
                return Err(e);
            },
        };
        let color = match de.deserialize_u8() {
            Ok(v) => v,
            Err(e) => {
                de.pos = origin;
                return Err(e);
            },
        };
        let flags = match de.deserialize_u8() {
            Ok(v) => v,
            Err(e) => {
                de.pos = origin;
                return Err(e);
            },
        };
        let value = Draw { position, color, flags: DrawFlags(flags) };
        proof {
            payload_len_is_len(value@);
        }
        Ok(value)
    }
}

impl CursorMove {
    /// Reads the fields in the order of their declaration. Where they are not all there, the
    /// cursor stays where it was.
    pub fn deserialize<'a>(de: &mut Deserializer<'a>) -> (res: Result<CursorMove, SessionError>)
        ensures
            match payload_at(6, old(de).input(), old(de).pos()) {
                Some(m) => res is Ok && res->Ok_0@ == m && final(de).advanced(
                    old(de),
                    payload(m).len() as int,
                ),
                None => final(de).refuses(old(de), res),
            },
    {
        proof {
            use_type_invariant(&*de);
        }
        let origin = de.pos;
        let position = match de.deserialize_u32() {
            Ok(v) => v,
            Err(e) => {
                de.pos = origin;
                return Err(e);
            },
        };
        let user_id = match de.deserialize_u8() {
            Ok(v) => v,
            Err(e) => {
                de.pos = origin;
                return Err(e);
            },
        };
        let value = CursorMove { position, user_id };
        proof {
            payload_len_is_len(value@);
        }
        Ok(value)
    }
}

impl Fill {
    /// Reads the fields in the order of their declaration. Where they are not all there, the
    /// cursor stays where it was.
    pub fn deserialize<'a>(de: &mut Deserializer<'a>) -> (res: Result<Fill, SessionError>)
        ensures
            match payload_at(7, old(de).input(), old(de).pos()) {
                Some(m) => res is Ok && res->Ok_0@ == m && final(de).advanced(
                    old(de),
                    payload(m).len() as int,
                ),
                None => final(de).refuses(old(de), res),
            },
    {
        proof {
            use_type_invariant(&*de);
        }
        let origin = de.pos;
        let start = match de.deserialize_u32() {
            Ok(v) => v,
            Err(e) => {
                de.pos = origin;
                return Err(e);
            },
        };
        let end = match de.deserialize_u32() {
            Ok(v) => v,
            Err(e) => {
                de.pos = origin;
                return Err(e);
            },
        };
        let color = match de.deserialize_u8() {
            Ok(v) => v,
            Err(e) => {
                de.pos = origin;
                return Err(e);
            },
        };
        let value = Fill { start, end, color };
        proof {
            payload_len_is_len(value@);
        }
        Ok(value)
    }
}

impl<'a> Image<'a> {
    /// Reads the fields in the order of their declaration. Where they are not all there, the
    /// cursor stays where it was.
    pub fn deserialize(de: &mut Deserializer<'a>) -> (res: Result<Image<'a>, SessionError>)
        ensures
            match payload_at(8, old(de).input(), old(de).pos()) {
                Some(m) => res is Ok && res->Ok_0@ == m && final(de).advanced(
                    old(de),
                    payload(m).len() as int,
                ),
                None => final(de).refuses(old(de), res),
            },
    {
        proof {
            use_type_invariant(&*de);
        }
        let origin = de.pos;
        let start = match de.deserialize_u32() {
            Ok(v) => v,
            Err(e) => {
                de.pos = origin;
                return Err(e);
            },
        };
        let end = match de.deserialize_u32() {
            Ok(v) => v,
            Err(e) => {
                de.pos = origin;
                return Err(e);
            },
        };
        proof {
            if str_fits(de.input(), de.pos()) {
                str_written_back(de.input(), de.pos());
            }
        }
        let url = match de.deserialize_str() {
            Ok(v) => v,
            Err(e) => {
                de.pos = origin;
                return Err(e);
            },
        };
        let value = Image { start, end, url };
        proof {
            payload_len_is_len(value@);
        }
        Ok(value)
    }
}

impl<'a> Text<'a> {
    /// Reads the fields in the order of their declaration. Where they are not all there, the
    /// cursor stays where it was.
    pub fn deserialize(de: &mut Deserializer<'a>) -> (res: Result<Text<'a>, SessionError>)
        ensures
            match payload_at(9, old(de).input(), old(de).pos()) {
                Some(m) => res is Ok && res->Ok_0@ == m && final(de).advanced(
                    old(de),
                    payload(m).len() as int,
                ),
                None => final(de).refuses(old(de), res),
            },
    {
        proof {
            use_type_invariant(&*de);
        }
        let origin = de.pos;
        let center = match de.deserialize_u32() {
            Ok(v) => v,
            Err(e) => {
                de.pos = origin;
                return Err(e);
            },
        };
        proof {
            if str_fits(de.input(), de.pos()) {
                str_written_back(de.input(), de.pos());
            }
        }
        let text = match de.deserialize_str() {
            Ok(v) => v,
            Err(e) => {
                de.pos = origin;
                return Err(e);
            },
        };
        let text_color = match de.deserialize_u8() {
            Ok(v) => v,
            Err(e) => {
                de.pos = origin;
                return Err(e);
            },
        };
        let value = Text { center, text, text_color };
        proof {
            payload_len_is_len(value@);
        }
        Ok(value)
    }
}

impl Undo {
    /// Reads the fields in the order of their declaration. Where they are not all there, the
    /// cursor stays where it was.
    pub fn deserialize<'a>(de: &mut Deserializer<'a>) -> (res: Result<Undo, SessionError>)
        ensures
            match payload_at(10, old(de).input(), old(de).pos()) {
                Some(m) => res is Ok && res->Ok_0@ == m && final(de).advanced(
                    old(de),
                    payload(m).len() as int,
                ),
                None => final(de).refuses(old(de), res),
            },
    {
        proof {
            use_type_invariant(&*de);
        }
        let origin = de.pos;
        let last_actual_step_id = match de.deserialize_u32() {
            Ok(v) => v,
            Err(e) => {
                de.pos = origin;
                return Err(e);
            },
        };
        let value = Undo { last_actual_step_id };
        proof {
            payload_len_is_len(value@);
        }
        Ok(value)
    }
}

impl Ping {
    /// Reads the fields in the order of their declaration. Where they are not all there, the
    /// cursor stays where it was.
    pub fn deserialize<'a>(de: &mut Deserializer<'a>) -> (res: Result<Ping, SessionError>)
        ensures
            match payload_at(11, old(de).input(), old(de).pos()) {
                Some(m) => res is Ok && res->Ok_0@ == m && final(de).advanced(
                    old(de),
                    payload(m).len() as int,
                ),
                None => final(de).refuses(old(de), res),
            },
    {
        proof {
            use_type_invariant(&*de);
        }
        let origin = de.pos;
        let timestamp = match de.deserialize_u64() {
            Ok(v) => v,
            Err(e) => {
                de.pos = origin;
                return Err(e);
            },
        };
        let value = Ping { timestamp };
        proof {
            payload_len_is_len(value@);
        }
        Ok(value)
    }
}

impl<'a> UserJoin<'a> {
    /// Reads the fields in the order of their declaration. Where they are not all there, the
    /// cursor stays where it was.
    pub fn deserialize(de: &mut Deserializer<'a>) -> (res: Result<UserJoin<'a>, SessionError>)
        ensures
            match payload_at(12, old(de).input(), old(de).pos()) {
                Some(m) => res is Ok && res->Ok_0@ == m && final(de).advanced(
                    old(de),
                    payload(m).len() as int,
                ),
                None => final(de).refuses(old(de), res),
            },
    {
        proof {
            use_type_invariant(&*de);
        }
        let origin = de.pos;
        let user_id = match de.deserialize_u8() {
            Ok(v) => v,
            Err(e) => {
                de.pos = origin;
                return Err(e);
            },
        };
        proof {
            if str_fits(de.input(), de.pos()) {
                str_written_back(de.input(), de.pos());
            }
        }
        let username = match de.deserialize_str() {
            Ok(v) => v,
            Err(e) => {
                de.pos = origin;
                return Err(e);
            },
        };
        let value = UserJoin { user_id, username };
        proof {
            payload_len_is_len(value@);
        }
        Ok(value)
    }
}

impl UserLeave {
    /// Reads the fields in the order of their declaration. Where they are not all there, the
    /// cursor stays where it was.
    pub fn deserialize<'a>(de: &mut Deserializer<'a>) -> (res: Result<UserLeave, SessionError>)
        ensures
            match payload_at(13, old(de).input(), old(de).pos()) {
                Some(m) => res is Ok && res->Ok_0@ == m && final(de).advanced(
                    old(de),
                    payload(m).len() as int,
                ),
                None => final(de).refuses(old(de), res),
            },
    {
        proof {
            use_type_invariant(&*de);
        }
        let origin = de.pos;
        let user_id = match de.deserialize_u8() {
            Ok(v) => v,
            Err(e) => {
                de.pos = origin;
                return Err(e);
            },
        };
        let value = UserLeave { user_id };
        proof {
            payload_len_is_len(value@);
        }
        Ok(value)
    }
}

impl<'a> ServerMessage<'a> {
    /// Reads the fields in the order of their declaration. Where they are not all there, the
    /// cursor stays where it was.
    pub fn deserialize(de: &mut Deserializer<'a>) -> (res: Result<ServerMessage<'a>, SessionError>)
        ensures
            match payload_at(14, old(de).input(), old(de).pos()) {
                Some(m) => res is Ok && res->Ok_0@ == m && final(de).advanced(
                    old(de),
                    payload(m).len() as int,
                ),
                None => final(de).refuses(old(de), res),
            },
    {
        proof {
            use_type_invariant(&*de);
        }
        let origin = de.pos;
        proof {
            if str_fits(de.input(), de.pos()) {
                str_written_back(de.input(), de.pos());
            }
        }
        let message = match de.deserialize_str() {
            Ok(v) => v,
            Err(e) => {
                de.pos = origin;
                return Err(e);
            },
        };
        let value = ServerMessage { message };
        proof {
            payload_len_is_len(value@);
        }
        Ok(value)
    }
}

impl<'a> History<'a> {
    /// Reads the fields in the order of their declaration. Where they are not all there, the
    /// cursor stays where it was.
    pub fn deserialize(de: &mut Deserializer<'a>) -> (res: Result<History<'a>, SessionError>)
        ensures
            match payload_at(15, old(de).input(), old(de).pos()) {
                Some(m) => res is Ok && res->Ok_0@ == m && final(de).advanced(
                    old(de),
                    payload(m).len() as int,
                ),
                None => final(de).refuses(old(de), res),
            },
    {
        proof {
            use_type_invariant(&*de);
        }
        let origin = de.pos;
        proof {
            if blob_fits(de.input(), de.pos()) {
                blob_written_back(de.input(), de.pos());
            }
        }
        let data = match de.deserialize_bytes() {
            Ok(v) => v,
            Err(e) => {
                de.pos = origin;
                return Err(e);
            },
        };
        let value = History { data };
        proof {
            payload_len_is_len(value@);
        }
        Ok(value)
    }
}

impl<'a> Message<'a> {
    /// Reads one frame: the tag, then the fields of the variant that the tag names. Where no
    /// whole frame lies under the cursor, the cursor stays where it was.
    pub fn deserialize(de: &mut Deserializer<'a>) -> (res: Result<Message<'a>, SessionError>)
        ensures
            match message_at(old(de).input(), old(de).pos()) {
                Some(m) => res is Ok && res->Ok_0@ == m && final(de).advanced(
                    old(de),
                    1 + payload(m).len() as int,
                ),
                None => final(de).refuses(old(de), res),
            },
    {
        proof {
            use_type_invariant(&*de);
        }
        let origin = de.pos;
        let tag = match de.deserialize_identifier() {
            Ok(t) => t,
            Err(e) => {
                return Err(e);
            },
        };
        let res = match tag {
            0 => match Auth::deserialize(de) {
                Ok(m) => Ok(Message::Auth(m)),
                Err(e) => Err(e),
            },
            1 => match Join::deserialize(de) {
                Ok(m) => Ok(Message::Join(m)),
                Err(e) => Err(e),
            },
            2 => match Create::deserialize(de) {
                Ok(m) => Ok(Message::Create(m)),
                Err(e) => Err(e),
            },
            3 => match BoardConfiguration::deserialize(de) {
                Ok(m) => Ok(Message::BoardConfiguration(m)),
                Err(e) => Err(e),
            },
            4 => match Step::deserialize(de) {
                Ok(m) => Ok(Message::Step(m)),
                Err(e) => Err(e),
            },
            5 => match Draw::deserialize(de) {
                Ok(m) => Ok(Message::Draw(m)),
                Err(e) => Err(e),
            },
            6 => match CursorMove::deserialize(de) {
                Ok(m) => Ok(Message::CursorMove(m)),
                Err(e) => Err(e),
            },
            7 => match Fill::deserialize(de) {
                Ok(m) => Ok(Message::Fill(m)),
                Err(e) => Err(e),
            },
            8 => match Image::deserialize(de) {
                Ok(m) => Ok(Message::Image(m)),
                Err(e) => Err(e),
            },
            9 => match Text::deserialize(de) {
                Ok(m) => Ok(Message::Text(m)),
                Err(e) => Err(e),
            },
            10 => match Undo::deserialize(de) {
                Ok(m) => Ok(Message::Undo(m)),
                Err(e) => Err(e),
            },
            11 => match Ping::deserialize(de) {
                Ok(m) => Ok(Message::Ping(m)),
                Err(e) => Err(e),
            },
            12 => match UserJoin::deserialize(de) {
                Ok(m) => Ok(Message::UserJoin(m)),
                Err(e) => Err(e),
            },
            13 => match UserLeave::deserialize(de) {
                Ok(m) => Ok(Message::UserLeave(m)),
                Err(e) => Err(e),
            },
            14 => match ServerMessage::deserialize(de) {
                Ok(m) => Ok(Message::ServerMessage(m)),
                Err(e) => Err(e),
            },
            15 => match History::deserialize(de) {
                Ok(m) => Ok(Message::History(m)),
                Err(e) => Err(e),
            },
            _ => Err(SessionError::Decode),
        };
        if res.is_err() {
            de.pos = origin;
        }
        res
    }
}

} // verus!
