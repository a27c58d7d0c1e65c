use crate::error::SessionError;
use crate::format::{
    bool_byte, encodable, encode_blob, encode_message, encode_palette, encode_str, le16, le32, le64,
    payload, sized_head, str_fits_prefix, tag, twos16, twos32, twos64, twos8, MAX_FIELD_LEN,
};
use crate::messages::{
    Auth, BoardConfiguration, Create, CursorMove, Draw, Fill, History, Image, Join, Message,
    MessageView, Palette, Ping, ServerMessage, Step, Text, Undo, UserJoin, UserLeave, PALETTE_SIZE,
};
use vstd::prelude::*;
use vstd::string::*;

verus! {

/// Writes values in the wire layout, one after the other, into a growing buffer.
pub struct Serializer {
    output: Vec<u8>,
}

impl View for Serializer {
    type V = Seq<u8>;

    /// The bytes written so far.
    closed spec fn view(&self) -> Seq<u8> {
        self.output@
    }
}

/// The frame of a message, or which of its fields is too long to have one.
pub fn to_bytes(value: &Message) -> (res: Result<Vec<u8>, SessionError>)
    ensures
        encodable(value@) ==> res is Ok && res->Ok_0@ == encode_message(value@),
        !encodable(value@) ==> res == Err::<Vec<u8>, SessionError>(
            if value@ is History {
                SessionError::BytesTooLong
            } else {
                SessionError::StringTooLong
            },
        ),
{
    let mut serializer = Serializer::new();
    match value.serialize(&mut serializer) {
        Ok(()) => Ok(serializer.into_bytes()),
        Err(e) => Err(e),
    }
}

impl Serializer {
    /// Whether a value was refused: the call failed with `error` and wrote nothing.
    pub open spec fn refuses(
        &self,
        before: &Self,
        res: Result<(), SessionError>,
        error: SessionError,
    ) -> bool {
        res == Err::<(), SessionError>(error) && self@ == before@
    }

    /// A serializer that has written nothing.
    pub fn new() -> (s: Serializer)
        ensures
            s@ == Seq::<u8>::empty(),
    {
        Serializer { output: Vec::new() }
    }

    /// Gives up the bytes written.
    pub fn into_bytes(self) -> (bytes: Vec<u8>)
        ensures
            bytes@ == self@,
    {
        self.output
    }

    fn append(&mut self, bytes: &[u8])
        ensures
            final(self)@ == old(self)@ + bytes@,
    {
        let mut i: usize = 0;
        while i < bytes.len()
            invariant
                i <= bytes.len(),
                self.output@ == old(self).output@ + bytes@.take(i as int),
            decreases bytes.len() - i,
        {
            self.output.push(bytes[i]);
            i += 1;
            assert(bytes@.take(i as int) =~= bytes@.take(i - 1).push(bytes@[i - 1]));
            assert(self.output@ =~= old(self).output@ + bytes@.take(i as int));
        }
        assert(bytes@.take(i as int) =~= bytes@);
    }

    /// One byte: 1 for true, 0 for false.
    pub fn serialize_bool(&mut self, v: bool) -> (res: Result<(), SessionError>)
        ensures
            res is Ok,
            final(self)@ == old(self)@.push(bool_byte(v)),
    {
        self.output.push(if v { 1 } else { 0 });
        Ok(())
    }

    /// Signed numbers travel as the unsigned number with the same bits.
    pub fn serialize_i8(&mut self, v: i8) -> (res: Result<(), SessionError>)
        ensures
            res is Ok,
            final(self)@ == old(self)@.push(twos8(v)),
    {
        let u: u8 = v as u8;
        assert(u == twos8(v)) by (bit_vector)
            requires
                u == v as u8,
        ;
        self.serialize_u8(u)
    }

    /// As `serialize_i8`, in two bytes.
    pub fn serialize_i16(&mut self, v: i16) -> (res: Result<(), SessionError>)
        ensures
            res is Ok,
            final(self)@ == old(self)@ + le16(twos16(v)),
    {
        let u: u16 = v as u16;
        assert(u == twos16(v)) by (bit_vector)
            requires
                u == v as u16,
        ;
        self.serialize_u16(u)
    }

    /// As `serialize_i8`, in four bytes.
    pub fn serialize_i32(&mut self, v: i32) -> (res: Result<(), SessionError>)
        ensures
            res is Ok,
            final(self)@ == old(self)@ + le32(twos32(v)),
    {
        let u: u32 = v as u32;
        assert(u == twos32(v)) by (bit_vector)
            requires
                u == v as u32,
        ;
        self.serialize_u32(u)
    }

    /// As `serialize_i8`, in eight bytes.
    pub fn serialize_i64(&mut self, v: i64) -> (res: Result<(), SessionError>)
        ensures
            res is Ok,
            final(self)@ == old(self)@ + le64(twos64(v)),
    {
        let u: u64 = v as u64;
        assert(u == twos64(v)) by (bit_vector)
            requires
                u == v as u64,
        ;
        self.serialize_u64(u)
    }

    /// Unsigned numbers travel low byte first.
    pub fn serialize_u8(&mut self, v: u8) -> (res: Result<(), SessionError>)
        ensures
            res is Ok,
            final(self)@ == old(self)@.push(v),
    {
        self.output.push(v);
        Ok(())
    }

    /// As `serialize_u8`, in two bytes.
    pub fn serialize_u16(&mut self, v: u16) -> (res: Result<(), SessionError>)
        ensures
            res is Ok,
            final(self)@ == old(self)@ + le16(v),
    {
        assert(v & 0xff == v % 256 && (v >> 8) & 0xff == v / 256) by (bit_vector);
        self.output.push((v & 0xff) as u8);
        self.output.push(((v >> 8) & 0xff) as u8);
        assert(self.output@ =~= old(self).output@ + le16(v));
        Ok(())
    }

    /// As `serialize_u8`, in four bytes.
    pub fn serialize_u32(&mut self, v: u32) -> (res: Result<(), SessionError>)
        ensures
            res is Ok,
            final(self)@ == old(self)@ + le32(v),
    {
        assert(v & 0xff == v % 256 && (v >> 8) & 0xff == v / 0x100 % 256 && (v >> 16) & 0xff == v
            / 0x1_0000 % 256 && (v >> 24) & 0xff == v / 0x100_0000) by (bit_vector);
        self.output.push((v & 0xff) as u8);
        self.output.push(((v >> 8) & 0xff) as u8);
        self.output.push(((v >> 16) & 0xff) as u8);
        self.output.push(((v >> 24) & 0xff) as u8);
        assert(self.output@ =~= old(self).output@ + le32(v));
        Ok(())
    }

    /// As `serialize_u8`, in eight bytes.
    pub fn serialize_u64(&mut self, v: u64) -> (res: Result<(), SessionError>)
        ensures
            res is Ok,
            final(self)@ == old(self)@ + le64(v),
    {
        let ghost lo = (v % 0x1_0000_0000) as u32;
        let ghost hi = (v / 0x1_0000_0000) as u32;
        assert(v & 0xff == (v % 0x1_0000_0000) % 256 && (v >> 8) & 0xff == (v % 0x1_0000_0000)
            / 0x100 % 256 && (v >> 16) & 0xff == (v % 0x1_0000_0000) / 0x1_0000 % 256 && (v >> 24)
            & 0xff == (v % 0x1_0000_0000) / 0x100_0000) by (bit_vector);
        assert((v >> 32) & 0xff == (v / 0x1_0000_0000) % 256 && (v >> 40) & 0xff == (v
            / 0x1_0000_0000) / 0x100 % 256 && (v >> 48) & 0xff == (v / 0x1_0000_0000) / 0x1_0000
            % 256 && (v >> 56) & 0xff == (v / 0x1_0000_0000) / 0x100_0000) by (bit_vector);
        self.output.push((v & 0xff) as u8);
        self.output.push(((v >> 8) & 0xff) as u8);
        self.output.push(((v >> 16) & 0xff) as u8);
        self.output.push(((v >> 24) & 0xff) as u8);
        self.output.push(((v >> 32) & 0xff) as u8);
        self.output.push(((v >> 40) & 0xff) as u8);
        self.output.push(((v >> 48) & 0xff) as u8);
        self.output.push(((v >> 56) & 0xff) as u8);
        assert(self.output@ =~= old(self).output@ + (le32(lo) + le32(hi)));
        Ok(())
    }

    /// A character travels as its scalar value in 32 bits.
    pub fn serialize_char(&mut self, v: char) -> (res: Result<(), SessionError>)
        ensures
            res is Ok,
            final(self)@ == old(self)@ + le32(v as u32),
    {
        self.serialize_u32(v as u32)
    }

    /// A string travels as the length of its UTF-8 form in 16 bits, then that form. One of more
    /// than 65535 bytes is refused and nothing is written.
    pub fn serialize_str(&mut self, v: &str) -> (res: Result<(), SessionError>)
        ensures
            str_fits_prefix(v@) ==> res is Ok && final(self)@ == old(self)@ + encode_str(v@),
            !str_fits_prefix(v@) ==> final(self).refuses(
                old(self),
                res,
                SessionError::StringTooLong,
            ),
    {
        let bytes = v.as_bytes();
        if bytes.len() > MAX_FIELD_LEN {
            return Err(SessionError::StringTooLong);
        }
        let _ = self.serialize_u16(bytes.len() as u16);
        self.append(bytes);
        assert(self@ =~= old(self)@ + encode_str(v@));
        Ok(())
    }

    /// A byte field travels as its length in 16 bits, then its bytes. One of more than 65535
    /// bytes is refused and nothing is written.
    pub fn serialize_bytes(&mut self, v: &[u8]) -> (res: Result<(), SessionError>)
        ensures
            v@.len() <= MAX_FIELD_LEN ==> res is Ok && final(self)@ == old(self)@ + encode_blob(v@),
            v@.len() > MAX_FIELD_LEN ==> final(self).refuses(
                old(self),
                res,
                SessionError::BytesTooLong,
            ),
    {
        if v.len() > MAX_FIELD_LEN {
            return Err(SessionError::BytesTooLong);
        }
        let _ = self.serialize_u16(v.len() as u16);
        self.append(v);
        assert(self@ =~= old(self)@ + encode_blob(v@));
        Ok(())
    }

    /// An absent optional value: the flag alone.
    pub fn serialize_none(&mut self) -> (res: Result<(), SessionError>)
        ensures
            res is Ok,
            final(self)@ == old(self)@.push(bool_byte(false)),
    {
        self.serialize_bool(false)
    }

    /// The flag of a present optional value; the value itself is written next.
    pub fn serialize_some(&mut self) -> (res: Result<(), SessionError>)
        ensures
            res is Ok,
            final(self)@ == old(self)@.push(bool_byte(true)),
    {
        self.serialize_bool(true)
    }

    /// The unit value takes no bytes.
    pub fn serialize_unit(&mut self) -> (res: Result<(), SessionError>)
        ensures
            res is Ok,
            final(self)@ == old(self)@,
    {
        Ok(())
    }

    /// A struct without fields takes no bytes.
    pub fn serialize_unit_struct(&mut self, _name: &'static str) -> (res: Result<(), SessionError>)
        ensures
            res is Ok,
            final(self)@ == old(self)@,
    {
        self.serialize_unit()
    }

    /// The tag of a variant: its index in one byte. An index of 256 or more is refused.
    fn serialize_tag(&mut self, variant_index: u32) -> (res: Result<(), SessionError>)
        ensures
            variant_index < 256 ==> res is Ok && final(self)@ == old(self)@.push(
                variant_index as u8,
            ),
            variant_index >= 256 ==> final(self).refuses(
                old(self),
                res,
                SessionError::VariantIndexTooLarge,
            ),
    {
        if variant_index >= 256 {
            return Err(SessionError::VariantIndexTooLarge);
        }
        self.serialize_u8(variant_index as u8)
    }

    /// A variant without fields: its tag.
    pub fn serialize_unit_variant(
        &mut self,
        _name: &'static str,
        variant_index: u32,
        _variant: &'static str,
    ) -> (res: Result<(), SessionError>)
        ensures
            variant_index < 256 ==> res is Ok && final(self)@ == old(self)@.push(
                variant_index as u8,
            ),
            variant_index >= 256 ==> final(self).refuses(
                old(self),
                res,
                SessionError::VariantIndexTooLarge,
            ),
    {
        self.serialize_tag(variant_index)
    }

    /// The tag of a variant that wraps one value; the value is written next.
    pub fn serialize_newtype_variant(
        &mut self,
        _name: &'static str,
        variant_index: u32,
        _variant: &'static str,
    ) -> (res: Result<(), SessionError>)
        ensures
            variant_index < 256 ==> res is Ok && final(self)@ == old(self)@.push(
                variant_index as u8,
            ),
            variant_index >= 256 ==> final(self).refuses(
                old(self),
                res,
                SessionError::VariantIndexTooLarge,
            ),
    {
        self.serialize_tag(variant_index)
    }

    /// The head of a sequence: the number of its elements in 16 bits; the elements are written
    /// next. A sequence of unknown length, or of more than 65535 elements, is refused.
    pub fn serialize_seq(&mut self, len: Option<usize>) -> (res: Result<(), SessionError>)
        ensures
            match len {
                None => final(self).refuses(old(self), res, SessionError::SeqLengthUnknown),
                Some(n) => if n <= MAX_FIELD_LEN {
                    res is Ok && final(self)@ == old(self)@ + le16(n as u16)
                } else {
                    final(self).refuses(old(self), res, SessionError::SeqTooLong)
                },
            },
    {
        match len {
            None => Err(SessionError::SeqLengthUnknown),
            Some(n) => {
                if n > MAX_FIELD_LEN {
                    return Err(SessionError::SeqTooLong);
                }
                self.serialize_u16(n as u16)
            },
        }
    }

    /// A tuple has no head: its fields follow one another.
    pub fn serialize_tuple(&mut self, _len: usize) -> (res: Result<(), SessionError>)
        ensures
            res is Ok,
            final(self)@ == old(self)@,
    {
        Ok(())
    }

    /// A tuple struct has no head: its fields follow one another.
    pub fn serialize_tuple_struct(
        &mut self,
        _name: &'static str,
        _len: usize,
    ) -> (res: Result<(), SessionError>)
        ensures
            res is Ok,
            final(self)@ == old(self)@,
    {
        Ok(())
    }

    /// The tag of a variant with unnamed fields; the fields are written next.
    pub fn serialize_tuple_variant(
        &mut self,
        _name: &'static str,
        variant_index: u32,
        _variant: &'static str,
        _len: usize,
    ) -> (res: Result<(), SessionError>)
        ensures
            variant_index < 256 ==> res is Ok && final(self)@ == old(self)@.push(
                variant_index as u8,
            ),
            variant_index >= 256 ==> final(self).refuses(
                old(self),
                res,
                SessionError::VariantIndexTooLarge,
            ),
    {
        self.serialize_tag(variant_index)
    }

    /// Maps have no layout on the wire.
    pub fn serialize_map(&mut self, _len: Option<usize>) -> (res: Result<(), SessionError>)
        ensures
            res == Err::<(), SessionError>(SessionError::Unsupported),
            final(self)@ == old(self)@,
    {
        Err(SessionError::Unsupported)
    }

    /// A struct has no head: its fields follow one another in the order of their declaration.
    pub fn serialize_struct(
        &mut self,
        _name: &'static str,
        _len: usize,
    ) -> (res: Result<(), SessionError>)
        ensures
            res is Ok,
            final(self)@ == old(self)@,
    {
        Ok(())
    }

    /// The tag of a variant with named fields; the fields are written next.
    pub fn serialize_struct_variant(
        &mut self,
        _name: &'static str,
        variant_index: u32,
        _variant: &'static str,
        _len: usize,
    ) -> (res: Result<(), SessionError>)
        ensures
            variant_index < 256 ==> res is Ok && final(self)@ == old(self)@.push(
                variant_index as u8,
            ),
            variant_index >= 256 ==> final(self).refuses(
                old(self),
                res,
                SessionError::VariantIndexTooLarge,
            ),
    {
        self.serialize_tag(variant_index)
    }

    /// Values that only know how to print themselves have no layout on the wire.
    pub fn collect_str(&mut self) -> (res: Result<(), SessionError>)
        ensures
            res == Err::<(), SessionError>(SessionError::Unsupported),
            final(self)@ == old(self)@,
    {
        Err(SessionError::Unsupported)
    }

    /// The eight entries of a palette, one after the other.
    pub fn serialize_palette(&mut self, palette: &Palette) -> (res: Result<(), SessionError>)
        ensures
            res is Ok,
            final(self)@ == old(self)@ + encode_palette(palette@),
    {
        let mut i: usize = 0;
        while i < PALETTE_SIZE
            invariant
                i <= PALETTE_SIZE,
                palette@.len() == PALETTE_SIZE,
                self@.len() == old(self)@.len() + 4 * i,
                self@.subrange(0, old(self)@.len() as int) == old(self)@,
                forall|k: int|
                    0 <= k < i ==> #[trigger] self@.subrange(
                        old(self)@.len() + 4 * k,
                        old(self)@.len() + 4 * k + 4,
                    ) == le32(palette@[k]),
            decreases PALETTE_SIZE - i,
        {
            let ghost before = self@;
            let _ = self.serialize_u32(palette[i]);
            assert(self@.subrange(0, old(self)@.len() as int) =~= before.subrange(
                0,
                old(self)@.len() as int,
            ));
            assert forall|k: int| 0 <= k < i + 1 implies #[trigger] self@.subrange(
                old(self)@.len() + 4 * k,
                old(self)@.len() + 4 * k + 4,
            ) == le32(palette@[k]) by {
                if k < i {
                    assert(self@.subrange(old(self)@.len() + 4 * k, old(self)@.len() + 4 * k + 4)
                        =~= before.subrange(
                            old(self)@.len() + 4 * k,
                            old(self)@.len() + 4 * k + 4,
                        ));
                } else {
                    assert(self@.subrange(old(self)@.len() + 4 * k, old(self)@.len() + 4 * k + 4)
                        =~= le32(palette@[k]));
                }
            }
            i += 1;
        }
        proof {
            let n = old(self)@.len() as int;
            let s = self@;
            assert(s =~= s.subrange(0, n) + s.subrange(n, n + 4) + s.subrange(n + 4, n + 8)
                + s.subrange(n + 8, n + 12) + s.subrange(n + 12, n + 16) + s.subrange(
                n + 16,
                n + 20,
            ) + s.subrange(n + 20, n + 24) + s.subrange(n + 24, n + 28) + s.subrange(
                n + 28,
                n + 32,
            ));
            assert(s.subrange(n + 4 * 0, n + 4 * 0 + 4) == le32(palette@[0]));
            assert(s.subrange(n + 4 * 1, n + 4 * 1 + 4) == le32(palette@[1]));
            assert(s.subrange(n + 4 * 2, n + 4 * 2 + 4) == le32(palette@[2]));
            assert(s.subrange(n + 4 * 3, n + 4 * 3 + 4) == le32(palette@[3]));
            assert(s.subrange(n + 4 * 4, n + 4 * 4 + 4) == le32(palette@[4]));
            assert(s.subrange(n + 4 * 5, n + 4 * 5 + 4) == le32(palette@[5]));
            assert(s.subrange(n + 4 * 6, n + 4 * 6 + 4) == le32(palette@[6]));
            assert(s.subrange(n + 4 * 7, n + 4 * 7 + 4) == le32(palette@[7]));
            assert(s =~= old(self)@ + encode_palette(palette@));
        }
        Ok(())
    }
}

impl<'a> Auth<'a> {
    /// Writes the fields in the order of their declaration. Where a field is too long, stops
    /// in front of it.
    pub fn serialize(&self, serializer: &mut Serializer) -> (res: Result<(), SessionError>)
        ensures
            encodable(self@) ==> res is Ok && final(serializer)@ == old(serializer)@
                + payload(self@),
            !encodable(self@) ==> res == Err::<(), SessionError>(SessionError::StringTooLong)
                && final(serializer)@ == old(serializer)@ + payload(self@).take(
                    sized_head(self@) as int,
                ),
    {
        let _ = serializer.serialize_struct("Auth", 1);
        match serializer.serialize_str(self.jwt_token) {
            Ok(()) => {},
            Err(e) => {
                assert(serializer@ =~= old(serializer)@ + payload(self@).take(
                    sized_head(self@) as int,
                ));
                return Err(e);
            },
        }
        assert(serializer@ =~= old(serializer)@ + payload(self@));
        Ok(())
    }
}

impl<'a> Join<'a> {
    /// Writes the fields in the order of their declaration. Where a field is too long, stops
    /// in front of it.
    pub fn serialize(&self, serializer: &mut Serializer) -> (res: Result<(), SessionError>)
        ensures
            encodable(self@) ==> res is Ok && final(serializer)@ == old(serializer)@
                + payload(self@),
            !encodable(self@) ==> res == Err::<(), SessionError>(SessionError::StringTooLong)
                && final(serializer)@ == old(serializer)@ + payload(self@).take(
                    sized_head(self@) as int,
                ),
    {
        let _ = serializer.serialize_struct("Join", 1);
        match serializer.serialize_str(self.name) {
            Ok(()) => {},
            Err(e) => {
                assert(serializer@ =~= old(serializer)@ + payload(self@).take(
                    sized_head(self@) as int,
                ));
                return Err(e);
            },
        }
        assert(serializer@ =~= old(serializer)@ + payload(self@));
        Ok(())
    }
}

impl<'a> Create<'a> {
    /// Writes the fields in the order of their declaration. Where a field is too long, stops
    /// in front of it.
    pub fn serialize(&self, serializer: &mut Serializer) -> (res: Result<(), SessionError>)
        ensures
            encodable(self@) ==> res is Ok && final(serializer)@ == old(serializer)@
                + payload(self@),
            !encodable(self@) ==> res == Err::<(), SessionError>(SessionError::StringTooLong)
                && final(serializer)@ == old(serializer)@ + payload(self@).take(
                    sized_head(self@) as int,
                ),
    {
        let _ = serializer.serialize_struct("Create", 2);
        let _ = serializer.serialize_u64(self.template_id);
        match serializer.serialize_str(self.name) {
            Ok(()) => {},
            Err(e) => {
                assert(serializer@ =~= old(serializer)@ + payload(self@).take(
                    sized_head(self@) as int,
                ));
                return Err(e);
            },
        }
        assert(serializer@ =~= old(serializer)@ + payload(self@));
        Ok(())
    }
}

impl BoardConfiguration {
    /// Writes the fields in the order of their declaration.
    pub fn serialize(&self, serializer: &mut Serializer) -> (res: Result<(), SessionError>)
        ensures
            res is Ok,
            final(serializer)@ == old(serializer)@ + payload(self@),
    {
        let _ = serializer.serialize_struct("BoardConfiguration", 4);
        let _ = serializer.serialize_palette(&self.palette);
        let _ = serializer.serialize_u8(self.background);
        let _ = serializer.serialize_u8(self.board_flags.bits());
        let _ = serializer.serialize_u16(self.history_size);
        assert(serializer@ =~= old(serializer)@ + payload(self@));
        Ok(())
    }
}

impl Step {
    /// Writes the fields in the order of their declaration.
    pub fn serialize(&self, serializer: &mut Serializer) -> (res: Result<(), SessionError>)
        ensures
            res is Ok,
            final(serializer)@ == old(serializer)@ + payload(self@),
    {
        let _ = serializer.serialize_struct("Step", 1);
        let _ = serializer.serialize_u32(self.step_id);
        assert(serializer@ =~= old(serializer)@ + payload(self@));
        Ok(())
    }
}

impl Draw {
    /// Writes the fields in the order of their declaration.
    pub fn serialize(&self, serializer: &mut Serializer) -> (res: Result<(), SessionError>)
        ensures
            res is Ok,
            final(serializer)@ == old(serializer)@ + payload(self@),
    {
        let _ = serializer.serialize_struct("Draw", 3);
        let _ = serializer.serialize_u32(self.position);
        let _ = serializer.serialize_u8(self.color);
        let _ = serializer.serialize_u8(self.flags.0);
        assert(serializer@ =~= old(serializer)@ + payload(self@));
        Ok(())
    }
}

impl CursorMove {
    /// Writes the fields in the order of their declaration.
    pub fn serialize(&self, serializer: &mut Serializer) -> (res: Result<(), SessionError>)
        ensures
            res is Ok,
            final(serializer)@ == old(serializer)@ + payload(self@),
    {
        let _ = serializer.serialize_struct("CursorMove", 2);
        let _ = serializer.serialize_u32(self.position);
        let _ = serializer.serialize_u8(self.user_id);
        assert(serializer@ =~= old(serializer)@ + payload(self@));
        Ok(())
    }
}

impl Fill {
    /// Writes the fields in the order of their declaration.
    pub fn serialize(&self, serializer: &mut Serializer) -> (res: Result<(), SessionError>)
        ensures
            res is Ok,
            final(serializer)@ == old(serializer)@ + payload(self@),
    {
        let _ = serializer.serialize_struct("Fill", 3);
        let _ = serializer.serialize_u32(self.start);
        let _ = serializer.serialize_u32(self.end);
        let _ = serializer.serialize_u8(self.color);
        assert(serializer@ =~= old(serializer)@ + payload(self@));
        Ok(())
    }
}

impl<'a> Image<'a> {
    /// Writes the fields in the order of their declaration. Where a field is too long, stops
    /// in front of it.
    pub fn serialize(&self, serializer: &mut Serializer) -> (res: Result<(), SessionError>)
        ensures
            encodable(self@) ==> res is Ok && final(serializer)@ == old(serializer)@
                + payload(self@),
            !encodable(self@) ==> res == Err::<(), SessionError>(SessionError::StringTooLong)
                && final(serializer)@ == old(serializer)@ + payload(self@).take(
                    sized_head(self@) as int,
                ),
    {
        let _ = serializer.serialize_struct("Image", 3);
        let _ = serializer.serialize_u32(self.start);
        let _ = serializer.serialize_u32(self.end);
        match serializer.serialize_str(self.url) {
            Ok(()) => {},
            Err(e) => {
                assert(serializer@ =~= old(serializer)@ + payload(self@).take(
                    sized_head(self@) as int,
                ));
                return Err(e);
            },
        }
        assert(serializer@ =~= old(serializer)@ + payload(self@));
        Ok(())
    }
}

impl<'a> Text<'a> {
    /// Writes the fields in the order of their declaration. Where a field is too long, stops
    /// in front of it.
    pub fn serialize(&self, serializer: &mut Serializer) -> (res: Result<(), SessionError>)
        ensures
            encodable(self@) ==> res is Ok && final(serializer)@ == old(serializer)@
                + payload(self@),
            !encodable(self@) ==> res == Err::<(), SessionError>(SessionError::StringTooLong)
                && final(serializer)@ == old(serializer)@ + payload(self@).take(
                    sized_head(self@) as int,
                ),
    {
        let _ = serializer.serialize_struct("Text", 3);
        let _ = serializer.serialize_u32(self.center);
        match serializer.serialize_str(self.text) {
            Ok(()) => {},
            Err(e) => {
                assert(serializer@ =~= old(serializer)@ + payload(self@).take(
                    sized_head(self@) as int,
                ));
                return Err(e);
            },
        }
        let _ = serializer.serialize_u8(self.text_color);
        assert(serializer@ =~= old(serializer)@ + payload(self@));
        Ok(())
    }
}

impl Undo {
    /// Writes the fields in the order of their declaration.
    pub fn serialize(&self, serializer: &mut Serializer) -> (res: Result<(), SessionError>)
        ensures
            res is Ok,
            final(serializer)@ == old(serializer)@ + payload(self@),
    {
        let _ = serializer.serialize_struct("Undo", 1);
        let _ = serializer.serialize_u32(self.last_actual_step_id);
        assert(serializer@ =~= old(serializer)@ + payload(self@));
        Ok(())
    }
}

impl Ping {
    /// Writes the fields in the order of their declaration.
    pub fn serialize(&self, serializer: &mut Serializer) -> (res: Result<(), SessionError>)
        ensures
            res is Ok,
            final(serializer)@ == old(serializer)@ + payload(self@),
    {
        let _ = serializer.serialize_struct("Ping", 1);
        let _ = serializer.serialize_u64(self.timestamp);
        assert(serializer@ =~= old(serializer)@ + payload(self@));
        Ok(())
    }
}

impl<'a> UserJoin<'a> {
    /// Writes the fields in the order of their declaration. Where a field is too long, stops
    /// in front of it.
    pub fn serialize(&self, serializer: &mut Serializer) -> (res: Result<(), SessionError>)
        ensures
            encodable(self@) ==> res is Ok && final(serializer)@ == old(serializer)@
                + payload(self@),
            !encodable(self@) ==> res == Err::<(), SessionError>(SessionError::StringTooLong)
                && final(serializer)@ == old(serializer)@ + payload(self@).take(
                    sized_head(self@) as int,
                ),
    {
        let _ = serializer.serialize_struct("UserJoin", 2);
        let _ = serializer.serialize_u8(self.user_id);
        match serializer.serialize_str(self.username) {
            Ok(()) => {},
            Err(e) => {
                assert(serializer@ =~= old(serializer)@ + payload(self@).take(
                    sized_head(self@) as int,
                ));
                return Err(e);
            },
        }
        assert(serializer@ =~= old(serializer)@ + payload(self@));
        Ok(())
    }
}

impl UserLeave {
    /// Writes the fields in the order of their declaration.
    pub fn serialize(&self, serializer: &mut Serializer) -> (res: Result<(), SessionError>)
        ensures
            res is Ok,
            final(serializer)@ == old(serializer)@ + payload(self@),
    {
        let _ = serializer.serialize_struct("UserLeave", 1);
        let _ = serializer.serialize_u8(self.user_id);
        assert(serializer@ =~= old(serializer)@ + payload(self@));
        Ok(())
    }
}

impl<'a> ServerMessage<'a> {
    /// Writes the fields in the order of their declaration. Where a field is too long, stops
    /// in front of it.
    pub fn serialize(&self, serializer: &mut Serializer) -> (res: Result<(), SessionError>)
        ensures
            encodable(self@) ==> res is Ok && final(serializer)@ == old(serializer)@
                + payload(self@),
            !encodable(self@) ==> res == Err::<(), SessionError>(SessionError::StringTooLong)
                && final(serializer)@ == old(serializer)@ + payload(self@).take(
                    sized_head(self@) as int,
                ),
    {
        let _ = serializer.serialize_struct("ServerMessage", 1);
        match serializer.serialize_str(self.message) {
            Ok(()) => {},
            Err(e) => {
                assert(serializer@ =~= old(serializer)@ + payload(self@).take(
                    sized_head(self@) as int,
                ));
                return Err(e);
            },
        }
        assert(serializer@ =~= old(serializer)@ + payload(self@));
        Ok(())
    }
}

impl<'a> History<'a> {
    /// Writes the fields in the order of their declaration. Where a field is too long, stops
    /// in front of it.
    pub fn serialize(&self, serializer: &mut Serializer) -> (res: Result<(), SessionError>)
        ensures
            encodable(self@) ==> res is Ok && final(serializer)@ == old(serializer)@
                + payload(self@),
            !encodable(self@) ==> res == Err::<(), SessionError>(SessionError::BytesTooLong)
                && final(serializer)@ == old(serializer)@ + payload(self@).take(
                    sized_head(self@) as int,
                ),
    {
        let _ = serializer.serialize_struct("History", 1);
        match serializer.serialize_bytes(self.data) {
            Ok(()) => {},
            Err(e) => {
                assert(serializer@ =~= old(serializer)@ + payload(self@).take(
                    sized_head(self@) as int,
                ));
                return Err(e);
            },
        }
        assert(serializer@ =~= old(serializer)@ + payload(self@));
        Ok(())
    }
}

/// A frame written behind other bytes is the tag pushed, then the payload.
proof fn frame_behind(start: Seq<u8>, m: MessageView)
    ensures
        start.push(tag(m)) + payload(m) == start + encode_message(m),
        start.push(tag(m)) + payload(m).take(sized_head(m) as int) == start + encode_message(
            m,
        ).take(1 + sized_head(m) as int),
{
    assert(start.push(tag(m)) + payload(m) =~= start + encode_message(m));
    assert(start.push(tag(m)) + payload(m).take(sized_head(m) as int) =~= start + encode_message(
        m,
    ).take(1 + sized_head(m) as int));
}

impl<'a> Message<'a> {
    /// Writes the frame of this message: its tag, then its fields. Where a field is too long,
    /// says which kind, and stops in front of that field.
    pub fn serialize(&self, serializer: &mut Serializer) -> (res: Result<(), SessionError>)
        ensures
            encodable(self@) ==> res is Ok && final(serializer)@ == old(serializer)@
                + encode_message(self@),
            !encodable(self@) ==> res == Err::<(), SessionError>(
                if self@ is History {
                    SessionError::BytesTooLong
                } else {
                    SessionError::StringTooLong
                },
            ) && final(serializer)@ == old(serializer)@ + encode_message(self@).take(
                1 + sized_head(self@) as int,
            ),
    {
        proof {
            frame_behind(serializer@, self@);
        }
        match self {
            Message::Auth(m) => {
                let _ = serializer.serialize_newtype_variant("Message", 0, "Auth");
                m.serialize(serializer)
            },
            Message::Join(m) => {
                let _ = serializer.serialize_newtype_variant("Message", 1, "Join");
                m.serialize(serializer)
            },
            Message::Create(m) => {
                let _ = serializer.serialize_newtype_variant("Message", 2, "Create");
                m.serialize(serializer)
            },
            Message::BoardConfiguration(m) => {
                let _ = serializer.serialize_newtype_variant("Message", 3, "BoardConfiguration");
                m.serialize(serializer)
            },
            Message::Step(m) => {
                let _ = serializer.serialize_newtype_variant("Message", 4, "Step");
                m.serialize(serializer)
            },
            Message::Draw(m) => {
                let _ = serializer.serialize_newtype_variant("Message", 5, "Draw");
                m.serialize(serializer)
            },
            Message::CursorMove(m) => {
                let _ = serializer.serialize_newtype_variant("Message", 6, "CursorMove");
                m.serialize(serializer)
            },
            Message::Fill(m) => {
                let _ = serializer.serialize_newtype_variant("Message", 7, "Fill");
                m.serialize(serializer)
            },
            Message::Image(m) => {
                let _ = serializer.serialize_newtype_variant("Message", 8, "Image");
                m.serialize(serializer)
            },
            Message::Text(m) => {
                let _ = serializer.serialize_newtype_variant("Message", 9, "Text");
                m.serialize(serializer)
            },
            Message::Undo(m) => {
                let _ = serializer.serialize_newtype_variant("Message", 10, "Undo");
                m.serialize(serializer)
            },
            Message::Ping(m) => {
                let _ = serializer.serialize_newtype_variant("Message", 11, "Ping");
                m.serialize(serializer)
            },
            Message::UserJoin(m) => {
                let _ = serializer.serialize_newtype_variant("Message", 12, "UserJoin");
                m.serialize(serializer)
            },
            Message::UserLeave(m) => {
                let _ = serializer.serialize_newtype_variant("Message", 13, "UserLeave");
                m.serialize(serializer)
            },
            Message::ServerMessage(m) => {
                let _ = serializer.serialize_newtype_variant("Message", 14, "ServerMessage");
                m.serialize(serializer)
            },
            Message::History(m) => {
                let _ = serializer.serialize_newtype_variant("Message", 15, "History");
                m.serialize(serializer)
            },
        }
    }
}

} // verus!
