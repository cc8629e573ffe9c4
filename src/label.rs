//! Label symbols, as written into a module's symbol stream.
use vstd::prelude::*;
use crate::codec::{splice, u16_le, u32_le, write_u16, write_u32};
use crate::error::MsfError;
use vstd::utf8::encode_utf8;

verus! {

/// Symbol kind of a label.
pub const S_LABEL32: u16 = 0x1105;

/// A label: a named location within a section of the image.
#[derive(Clone, Debug, Default, PartialEq, Eq)]
pub struct LabelSymbol {
    /// Offset into the section.
    pub offset: u32,
    /// Section number in the section header stream.
    pub section: u16,
    /// Procedure flags; not interpreted here.
    pub flags: u8,
    /// Name of the label.
    pub name: String,
}

/// The UTF-8 bytes of a label's name.
pub open spec fn name_bytes(l: LabelSymbol) -> Seq<u8> {
    encode_utf8(l.name@)
}

/// The symbol's length as its header records it: from the kind field to the
/// name's terminating zero, inclusive.
pub open spec fn label_size(l: LabelSymbol) -> nat {
    name_bytes(l).len() + 10
}

/// The encoded symbol: length, kind, offset, section, flags, then the name
/// and a terminating zero.
pub open spec fn label_bytes(l: LabelSymbol) -> Seq<u8> {
    u16_le(label_size(l) as u16) + u16_le(S_LABEL32) + u32_le(l.offset) + u16_le(l.section) + seq![
        l.flags,
    ] + name_bytes(l) + seq![0u8]
}

impl LabelSymbol {
    /// Length of the symbol without its length field: offset, section,
    /// flags, name, terminating zero, and the kind field.
    pub fn size(&self) -> (r: usize)
        requires
            label_size(*self) <= usize::MAX,
        ensures
            r == label_size(*self),
    {
        self.name.as_str().len() + 10
    }

    /// Writes the symbol with its length and kind at the start of `buff`;
    /// gives the number of bytes written. Fails, writing nothing, where
    /// `buff` is too short.
    pub fn write_to(&self, buff: &mut [u8]) -> (r: Result<usize, MsfError>)
        requires
            label_size(*self) + 2 <= usize::MAX,
        ensures
            r is Ok <==> label_bytes(*self).len() <= old(buff)@.len(),
            r matches Err(e) ==> e == MsfError::EncodeError && final(buff)@ == old(buff)@,
            r matches Ok(n) ==> n == label_bytes(*self).len() && final(buff)@ == splice(
                old(buff)@,
                0,
                label_bytes(*self),
            ),
    {
        let name = self.name.as_str().as_bytes();
        let size = self.size();
        if buff.len() < 2 || buff.len() - 2 < size {
            return Err(MsfError::EncodeError);
        }
        let ghost b0 = buff@;
        write_u16(buff, 0, size as u16);
        write_u16(buff, 2, S_LABEL32);
        write_u32(buff, 4, self.offset);
        write_u16(buff, 8, self.section);
        buff[10] = self.flags;
        let mut i: usize = 0;
        while i < name.len()
            invariant
                i <= name@.len(),
                name@ == name_bytes(*self),
                size == name@.len() + 10,
                buff@.len() == b0.len() >= size + 2,
                buff@ == splice(
                    b0,
                    0,
                    u16_le(size as u16) + u16_le(S_LABEL32) + u32_le(self.offset) + u16_le(
                        self.section,
                    ) + seq![self.flags] + name@.subrange(0, i as int),
                ),
            decreases name@.len() - i,
        {
            buff[11 + i] = name[i];
            assert(name@.subrange(0, i + 1) =~= name@.subrange(0, i as int).push(name@[i as int]));
            i = i + 1;
            assert(buff@ =~= splice(
                b0,
                0,
                u16_le(size as u16) + u16_le(S_LABEL32) + u32_le(self.offset) + u16_le(self.section)
                    + seq![self.flags] + name@.subrange(0, i as int),
            ));
        }
        buff[11 + name.len()] = 0;
        assert(name@.subrange(0, name@.len() as int) =~= name@);
        assert(buff@ =~= splice(b0, 0, label_bytes(*self)));
        Ok(size + 2)
    }
}

} // verus!
