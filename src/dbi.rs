//! The DBI stream: its header, and the optional debug header that names the
//! optional debug streams.
use vstd::prelude::*;
use crate::codec::{read_u16, read_u32, splice, u16_at, u16_le, u32_at, u32_le, write_u16, write_u32};
use crate::directory::Stream;
use crate::error::MsfError;

verus! {

/// Size of the DBI stream's header.
pub const DBI_HEADER_SIZE: usize = 0x40;

/// Size of the optional debug header.
pub const DBI_EXTRA_STREAMS_SIZE: usize = 0x16;

/// Offset in the DBI stream `b` of the section map substream.
pub open spec fn section_map_offset(b: Seq<u8>) -> int {
    DBI_HEADER_SIZE + u32_at(b, 0x18) + u32_at(b, 0x1C)
}

/// Offset in the DBI stream `b` of the optional debug header: it follows the
/// module info, section contribution, section map, source info, type server
/// map and EC substreams.
pub open spec fn extra_streams_offset(b: Seq<u8>) -> int {
    DBI_HEADER_SIZE + u32_at(b, 0x18) + u32_at(b, 0x1C) + u32_at(b, 0x20) + u32_at(b, 0x24)
        + u32_at(b, 0x28) + u32_at(b, 0x34)
}

/// Read-only overlay of the DBI stream's header.
pub struct DbiStreamHeaderOverlay<'a> {
    pub ptr: &'a [u8],
}

/// Writable overlay of the DBI stream's header.
pub struct DbiStreamHeaderOverlayMut<'a> {
    pub ptr: &'a mut [u8],
}

impl<'a> View for DbiStreamHeaderOverlay<'a> {
    type V = Seq<u8>;

    open spec fn view(&self) -> Seq<u8> {
        self.ptr@
    }
}

impl<'a> View for DbiStreamHeaderOverlayMut<'a> {
    type V = Seq<u8>;

    open spec fn view(&self) -> Seq<u8> {
        self.ptr@
    }
}

impl<'a> DbiStreamHeaderOverlay<'a> {
    /// The overlay covers exactly its fields.
    pub open spec fn wf(&self) -> bool {
        self@.len() == DBI_HEADER_SIZE
    }

    /// Overlays the first bytes of `ptr`, if there are enough of them.
    pub fn new(ptr: &'a [u8]) -> (r: Option<DbiStreamHeaderOverlay<'a>>)
        ensures
            ptr@.len() >= DBI_HEADER_SIZE <==> r is Some,
            r is Some ==> r->Some_0.wf() && r->Some_0@ == ptr@.subrange(0, DBI_HEADER_SIZE as int),
    {
        if ptr.len() >= DBI_HEADER_SIZE {
            Some(DbiStreamHeaderOverlay { ptr: &ptr[0..DBI_HEADER_SIZE] })
        } else {
            None
        }
    }

    pub fn size() -> (r: usize)
        ensures
            r == DBI_HEADER_SIZE,
    {
        DBI_HEADER_SIZE
    }

    /// Reads the `version` field.
    pub fn get_version(&self) -> (r: u32)
        requires
            self.wf(),
        ensures
            r == u32_at(self@, 0x00),
    {
        read_u32(self.ptr, 0x00)
    }

    /// Reads the `version_header` field.
    pub fn get_version_header(&self) -> (r: u32)
        requires
            self.wf(),
        ensures
            r == u32_at(self@, 0x04),
    {
        read_u32(self.ptr, 0x04)
    }

    /// Reads the `age` field.
    pub fn get_age(&self) -> (r: u32)
        requires
            self.wf(),
        ensures
            r == u32_at(self@, 0x08),
    {
        read_u32(self.ptr, 0x08)
    }

    /// Reads the `global_stream_index` field.
    pub fn get_global_stream_index(&self) -> (r: u16)
        requires
            self.wf(),
        ensures
            r == u16_at(self@, 0x0C),
    {
        read_u16(self.ptr, 0x0C)
    }

    /// Reads the `build_number` field.
    pub fn get_build_number(&self) -> (r: u16)
        requires
            self.wf(),
        ensures
            r == u16_at(self@, 0x0E),
    {
        read_u16(self.ptr, 0x0E)
    }

    /// Reads the `public_stream_index` field.
    pub fn get_public_stream_index(&self) -> (r: u16)
        requires
            self.wf(),
        ensures
            r == u16_at(self@, 0x10),
    {
        read_u16(self.ptr, 0x10)
    }

    /// Reads the `pdb_dll_version` field.
    pub fn get_pdb_dll_version(&self) -> (r: u16)
        requires
            self.wf(),
        ensures
            r == u16_at(self@, 0x12),
    {
        read_u16(self.ptr, 0x12)
    }

    /// Reads the `sym_record_stream` field.
    pub fn get_sym_record_stream(&self) -> (r: u16)
        requires
            self.wf(),
        ensures
            r == u16_at(self@, 0x14),
    {
        read_u16(self.ptr, 0x14)
    }

    /// Reads the `pdb_dll_rbld` field.
    pub fn get_pdb_dll_rbld(&self) -> (r: u16)
        requires
            self.wf(),
        ensures
            r == u16_at(self@, 0x16),
    {
        read_u16(self.ptr, 0x16)
    }

    /// Reads the `mod_info_size` field.
    pub fn get_mod_info_size(&self) -> (r: u32)
        requires
            self.wf(),
        ensures
            r == u32_at(self@, 0x18),
    {
        read_u32(self.ptr, 0x18)
    }

    /// Reads the `section_contribution_size` field.
    pub fn get_section_contribution_size(&self) -> (r: u32)
        requires
            self.wf(),
        ensures
            r == u32_at(self@, 0x1C),
    {
        read_u32(self.ptr, 0x1C)
    }

    /// Reads the `section_map_size` field.
    pub fn get_section_map_size(&self) -> (r: u32)
        requires
            self.wf(),
        ensures
            r == u32_at(self@, 0x20),
    {
        read_u32(self.ptr, 0x20)
    }

    /// Reads the `source_info_size` field.
    pub fn get_source_info_size(&self) -> (r: u32)
        requires
            self.wf(),
        ensures
            r == u32_at(self@, 0x24),
    {
        read_u32(self.ptr, 0x24)
    }

    /// Reads the `type_server_map_size` field.
    pub fn get_type_server_map_size(&self) -> (r: u32)
        requires
            self.wf(),
        ensures
            r == u32_at(self@, 0x28),
    {
        read_u32(self.ptr, 0x28)
    }

    /// Reads the `mfc_type_server_index` field.
    pub fn get_mfc_type_server_index(&self) -> (r: u32)
        requires
            self.wf(),
        ensures
            r == u32_at(self@, 0x2C),
    {
        read_u32(self.ptr, 0x2C)
    }

    /// Reads the `optional_dbg_header_size` field.
    pub fn get_optional_dbg_header_size(&self) -> (r: u32)
        requires
            self.wf(),
        ensures
            r == u32_at(self@, 0x30),
    {
        read_u32(self.ptr, 0x30)
    }

    /// Reads the `ec_substream_size` field.
    pub fn get_ec_substream_size(&self) -> (r: u32)
        requires
            self.wf(),
        ensures
            r == u32_at(self@, 0x34),
    {
        read_u32(self.ptr, 0x34)
    }

    /// Reads the `flags` field.
    pub fn get_flags(&self) -> (r: u16)
        requires
            self.wf(),
        ensures
            r == u16_at(self@, 0x38),
    {
        read_u16(self.ptr, 0x38)
    }

    /// Reads the `machine` field.
    pub fn get_machine(&self) -> (r: u16)
        requires
            self.wf(),
        ensures
            r == u16_at(self@, 0x3A),
    {
        read_u16(self.ptr, 0x3A)
    }

    /// Reads the `padding` field.
    pub fn get_padding(&self) -> (r: u32)
        requires
            self.wf(),
        ensures
            r == u32_at(self@, 0x3C),
    {
        read_u32(self.ptr, 0x3C)
    }
}

impl<'a> DbiStreamHeaderOverlayMut<'a> {
    /// The overlay covers exactly its fields.
    pub open spec fn wf(&self) -> bool {
        self@.len() == DBI_HEADER_SIZE
    }

    /// Overlays the first bytes of `ptr`, if there are enough of them; writes
    /// through the overlay land in `ptr`.
    pub fn new(ptr: &'a mut [u8]) -> (r: Option<DbiStreamHeaderOverlayMut<'a>>)
        ensures
            old(ptr)@.len() >= DBI_HEADER_SIZE <==> r is Some,
            r is Some ==> r->Some_0.wf() && r->Some_0@ == old(ptr)@.subrange(0, DBI_HEADER_SIZE as int)
                && final(ptr)@ == final(r->Some_0.ptr)@ + old(ptr)@.subrange(
                DBI_HEADER_SIZE as int,
                old(ptr)@.len() as int,
            ),
            r is None ==> final(ptr)@ == old(ptr)@,
    {
        if ptr.len() >= DBI_HEADER_SIZE {
            let (a, _b) = ptr.split_at_mut(DBI_HEADER_SIZE);
            Some(DbiStreamHeaderOverlayMut { ptr: a })
        } else {
            None
        }
    }

    pub fn size() -> (r: usize)
        ensures
            r == DBI_HEADER_SIZE,
    {
        DBI_HEADER_SIZE
    }

    /// Clears every byte of the overlay.
    pub fn zero(&mut self)
        requires
            old(self).wf(),
        ensures
            final(self)@ == Seq::new(DBI_HEADER_SIZE as nat, |i: int| 0u8),
            final(final(self).ptr)@ == final(old(self).ptr)@,
    {
        let mut i: usize = 0;
        while i < DBI_HEADER_SIZE
            invariant
                i <= DBI_HEADER_SIZE,
                self.wf(),
                forall|k: int| 0 <= k < i ==> self@[k] == 0u8,
                final(self.ptr)@ == final(old(self).ptr)@,
            decreases DBI_HEADER_SIZE - i,
        {
            self.ptr[i] = 0;
            i = i + 1;
        }
        assert(self@ =~= Seq::new(DBI_HEADER_SIZE as nat, |i: int| 0u8));
    }

    /// Writes the `version` field.
    pub fn set_version(&mut self, val: u32)
        requires
            old(self).wf(),
        ensures
            final(self)@ == splice(old(self)@, 0x00, u32_le(val)),
            final(final(self).ptr)@ == final(old(self).ptr)@,
    {
        write_u32(self.ptr, 0x00, val)
    }

    /// Reads the `version` field.
    pub fn get_version(&self) -> (r: u32)
        requires
            self.wf(),
        ensures
            r == u32_at(self@, 0x00),
    {
        read_u32(self.ptr, 0x00)
    }

    /// Writes the `version_header` field.
    pub fn set_version_header(&mut self, val: u32)
        requires
            old(self).wf(),
        ensures
            final(self)@ == splice(old(self)@, 0x04, u32_le(val)),
            final(final(self).ptr)@ == final(old(self).ptr)@,
    {
        write_u32(self.ptr, 0x04, val)
    }

    /// Reads the `version_header` field.
    pub fn get_version_header(&self) -> (r: u32)
        requires
            self.wf(),
        ensures
            r == u32_at(self@, 0x04),
    {
        read_u32(self.ptr, 0x04)
    }

    /// Writes the `age` field.
    pub fn set_age(&mut self, val: u32)
        requires
            old(self).wf(),
        ensures
            final(self)@ == splice(old(self)@, 0x08, u32_le(val)),
            final(final(self).ptr)@ == final(old(self).ptr)@,
    {
        write_u32(self.ptr, 0x08, val)
    }

    /// Reads the `age` field.
    pub fn get_age(&self) -> (r: u32)
        requires
            self.wf(),
        ensures
            r == u32_at(self@, 0x08),
    {
        read_u32(self.ptr, 0x08)
    }

    /// Writes the `global_stream_index` field.
    pub fn set_global_stream_index(&mut self, val: u16)
        requires
            old(self).wf(),
        ensures
            final(self)@ == splice(old(self)@, 0x0C, u16_le(val)),
            final(final(self).ptr)@ == final(old(self).ptr)@,
    {
        write_u16(self.ptr, 0x0C, val)
    }

    /// Reads the `global_stream_index` field.
    pub fn get_global_stream_index(&self) -> (r: u16)
        requires
            self.wf(),
        ensures
            r == u16_at(self@, 0x0C),
    {
        read_u16(self.ptr, 0x0C)
    }

    /// Writes the `build_number` field.
    pub fn set_build_number(&mut self, val: u16)
        requires
            old(self).wf(),
        ensures
            final(self)@ == splice(old(self)@, 0x0E, u16_le(val)),
            final(final(self).ptr)@ == final(old(self).ptr)@,
    {
        write_u16(self.ptr, 0x0E, val)
    }

    /// Reads the `build_number` field.
    pub fn get_build_number(&self) -> (r: u16)
        requires
            self.wf(),
        ensures
            r == u16_at(self@, 0x0E),
    {
        read_u16(self.ptr, 0x0E)
    }

    /// Writes the `public_stream_index` field.
    pub fn set_public_stream_index(&mut self, val: u16)
        requires
            old(self).wf(),
        ensures
            final(self)@ == splice(old(self)@, 0x10, u16_le(val)),
            final(final(self).ptr)@ == final(old(self).ptr)@,
    {
        write_u16(self.ptr, 0x10, val)
    }

    /// Reads the `public_stream_index` field.
    pub fn get_public_stream_index(&self) -> (r: u16)
        requires
            self.wf(),
        ensures
            r == u16_at(self@, 0x10),
    {
        read_u16(self.ptr, 0x10)
    }

    /// Writes the `pdb_dll_version` field.
    pub fn set_pdb_dll_version(&mut self, val: u16)
        requires
            old(self).wf(),
        ensures
            final(self)@ == splice(old(self)@, 0x12, u16_le(val)),
            final(final(self).ptr)@ == final(old(self).ptr)@,
    {
        write_u16(self.ptr, 0x12, val)
    }

    /// Reads the `pdb_dll_version` field.
    pub fn get_pdb_dll_version(&self) -> (r: u16)
        requires
            self.wf(),
        ensures
            r == u16_at(self@, 0x12),
    {
        read_u16(self.ptr, 0x12)
    }

    /// Writes the `sym_record_stream` field.
    pub fn set_sym_record_stream(&mut self, val: u16)
        requires
            old(self).wf(),
        ensures
            final(self)@ == splice(old(self)@, 0x14, u16_le(val)),
            final(final(self).ptr)@ == final(old(self).ptr)@,
    {
        write_u16(self.ptr, 0x14, val)
    }

    /// Reads the `sym_record_stream` field.
    pub fn get_sym_record_stream(&self) -> (r: u16)
        requires
            self.wf(),
        ensures
            r == u16_at(self@, 0x14),
    {
        read_u16(self.ptr, 0x14)
    }

    /// Writes the `pdb_dll_rbld` field.
    pub fn set_pdb_dll_rbld(&mut self, val: u16)
        requires
            old(self).wf(),
        ensures
            final(self)@ == splice(old(self)@, 0x16, u16_le(val)),
            final(final(self).ptr)@ == final(old(self).ptr)@,
    {
        write_u16(self.ptr, 0x16, val)
    }

    /// Reads the `pdb_dll_rbld` field.
    pub fn get_pdb_dll_rbld(&self) -> (r: u16)
        requires
            self.wf(),
        ensures
            r == u16_at(self@, 0x16),
    {
        read_u16(self.ptr, 0x16)
    }

    /// Writes the `mod_info_size` field.
    pub fn set_mod_info_size(&mut self, val: u32)
        requires
            old(self).wf(),
        ensures
            final(self)@ == splice(old(self)@, 0x18, u32_le(val)),
            final(final(self).ptr)@ == final(old(self).ptr)@,
    {
        write_u32(self.ptr, 0x18, val)
    }

    /// Reads the `mod_info_size` field.
    pub fn get_mod_info_size(&self) -> (r: u32)
        requires
            self.wf(),
        ensures
            r == u32_at(self@, 0x18),
    {
        read_u32(self.ptr, 0x18)
    }

    /// Writes the `section_contribution_size` field.
    pub fn set_section_contribution_size(&mut self, val: u32)
        requires
            old(self).wf(),
        ensures
            final(self)@ == splice(old(self)@, 0x1C, u32_le(val)),
            final(final(self).ptr)@ == final(old(self).ptr)@,
    {
        write_u32(self.ptr, 0x1C, val)
    }

    /// Reads the `section_contribution_size` field.
    pub fn get_section_contribution_size(&self) -> (r: u32)
        requires
            self.wf(),
        ensures
            r == u32_at(self@, 0x1C),
    {
        read_u32(self.ptr, 0x1C)
    }

    /// Writes the `section_map_size` field.
    pub fn set_section_map_size(&mut self, val: u32)
        requires
            old(self).wf(),
        ensures
            final(self)@ == splice(old(self)@, 0x20, u32_le(val)),
            final(final(self).ptr)@ == final(old(self).ptr)@,
    {
        write_u32(self.ptr, 0x20, val)
    }

    /// Reads the `section_map_size` field.
    pub fn get_section_map_size(&self) -> (r: u32)
        requires
            self.wf(),
        ensures
            r == u32_at(self@, 0x20),
    {
        read_u32(self.ptr, 0x20)
    }

    /// Writes the `source_info_size` field.
    pub fn set_source_info_size(&mut self, val: u32)
        requires
            old(self).wf(),
        ensures
            final(self)@ == splice(old(self)@, 0x24, u32_le(val)),
            final(final(self).ptr)@ == final(old(self).ptr)@,
    {
        write_u32(self.ptr, 0x24, val)
    }

    /// Reads the `source_info_size` field.
    pub fn get_source_info_size(&self) -> (r: u32)
        requires
            self.wf(),
        ensures
            r == u32_at(self@, 0x24),
    {
        read_u32(self.ptr, 0x24)
    }

    /// Writes the `type_server_map_size` field.
    pub fn set_type_server_map_size(&mut self, val: u32)
        requires
            old(self).wf(),
        ensures
            final(self)@ == splice(old(self)@, 0x28, u32_le(val)),
            final(final(self).ptr)@ == final(old(self).ptr)@,
    {
        write_u32(self.ptr, 0x28, val)
    }

    /// Reads the `type_server_map_size` field.
    pub fn get_type_server_map_size(&self) -> (r: u32)
        requires
            self.wf(),
        ensures
            r == u32_at(self@, 0x28),
    {
        read_u32(self.ptr, 0x28)
    }

    /// Writes the `mfc_type_server_index` field.
    pub fn set_mfc_type_server_index(&mut self, val: u32)
        requires
            old(self).wf(),
        ensures
            final(self)@ == splice(old(self)@, 0x2C, u32_le(val)),
            final(final(self).ptr)@ == final(old(self).ptr)@,
    {
        write_u32(self.ptr, 0x2C, val)
    }

    /// Reads the `mfc_type_server_index` field.
    pub fn get_mfc_type_server_index(&self) -> (r: u32)
        requires
            self.wf(),
        ensures
            r == u32_at(self@, 0x2C),
    {
        read_u32(self.ptr, 0x2C)
    }

    /// Writes the `optional_dbg_header_size` field.
    pub fn set_optional_dbg_header_size(&mut self, val: u32)
        requires
            old(self).wf(),
        ensures
            final(self)@ == splice(old(self)@, 0x30, u32_le(val)),
            final(final(self).ptr)@ == final(old(self).ptr)@,
    {
        write_u32(self.ptr, 0x30, val)
    }

    /// Reads the `optional_dbg_header_size` field.
    pub fn get_optional_dbg_header_size(&self) -> (r: u32)
        requires
            self.wf(),
        ensures
            r == u32_at(self@, 0x30),
    {
        read_u32(self.ptr, 0x30)
    }

    /// Writes the `ec_substream_size` field.
    pub fn set_ec_substream_size(&mut self, val: u32)
        requires
            old(self).wf(),
        ensures
            final(self)@ == splice(old(self)@, 0x34, u32_le(val)),
            final(final(self).ptr)@ == final(old(self).ptr)@,
    {
        write_u32(self.ptr, 0x34, val)
    }

    /// Reads the `ec_substream_size` field.
    pub fn get_ec_substream_size(&self) -> (r: u32)
        requires
            self.wf(),
        ensures
            r == u32_at(self@, 0x34),
    {
        read_u32(self.ptr, 0x34)
    }

    /// Writes the `flags` field.
    pub fn set_flags(&mut self, val: u16)
        requires
            old(self).wf(),
        ensures
            final(self)@ == splice(old(self)@, 0x38, u16_le(val)),
            final(final(self).ptr)@ == final(old(self).ptr)@,
    {
        write_u16(self.ptr, 0x38, val)
    }

    /// Reads the `flags` field.
    pub fn get_flags(&self) -> (r: u16)
        requires
            self.wf(),
        ensures
            r == u16_at(self@, 0x38),
    {
        read_u16(self.ptr, 0x38)
    }

    /// Writes the `machine` field.
    pub fn set_machine(&mut self, val: u16)
        requires
            old(self).wf(),
        ensures
            final(self)@ == splice(old(self)@, 0x3A, u16_le(val)),
            final(final(self).ptr)@ == final(old(self).ptr)@,
    {
        write_u16(self.ptr, 0x3A, val)
    }

    /// Reads the `machine` field.
    pub fn get_machine(&self) -> (r: u16)
        requires
            self.wf(),
        ensures
            r == u16_at(self@, 0x3A),
    {
        read_u16(self.ptr, 0x3A)
    }

    /// Writes the `padding` field.
    pub fn set_padding(&mut self, val: u32)
        requires
            old(self).wf(),
        ensures
            final(self)@ == splice(old(self)@, 0x3C, u32_le(val)),
            final(final(self).ptr)@ == final(old(self).ptr)@,
    {
        write_u32(self.ptr, 0x3C, val)
    }

    /// Reads the `padding` field.
    pub fn get_padding(&self) -> (r: u32)
        requires
            self.wf(),
        ensures
            r == u32_at(self@, 0x3C),
    {
        read_u32(self.ptr, 0x3C)
    }
}


/// Read-only overlay of the DBI stream's optional debug header: the indices of the optional debug streams.
pub struct DbiExtraStreamOverlay<'a> {
    pub ptr: &'a [u8],
}

/// Writable overlay of the DBI stream's optional debug header.
pub struct DbiExtraStreamOverlayMut<'a> {
    pub ptr: &'a mut [u8],
}

impl<'a> View for DbiExtraStreamOverlay<'a> {
    type V = Seq<u8>;

    open spec fn view(&self) -> Seq<u8> {
        self.ptr@
    }
}

impl<'a> View for DbiExtraStreamOverlayMut<'a> {
    type V = Seq<u8>;

    open spec fn view(&self) -> Seq<u8> {
        self.ptr@
    }
}

impl<'a> DbiExtraStreamOverlay<'a> {
    /// The overlay covers exactly its fields.
    pub open spec fn wf(&self) -> bool {
        self@.len() == DBI_EXTRA_STREAMS_SIZE
    }

    /// Overlays the first bytes of `ptr`, if there are enough of them.
    pub fn new(ptr: &'a [u8]) -> (r: Option<DbiExtraStreamOverlay<'a>>)
        ensures
            ptr@.len() >= DBI_EXTRA_STREAMS_SIZE <==> r is Some,
            r is Some ==> r->Some_0.wf() && r->Some_0@ == ptr@.subrange(0, DBI_EXTRA_STREAMS_SIZE as int),
    {
        if ptr.len() >= DBI_EXTRA_STREAMS_SIZE {
            Some(DbiExtraStreamOverlay { ptr: &ptr[0..DBI_EXTRA_STREAMS_SIZE] })
        } else {
            None
        }
    }

    pub fn size() -> (r: usize)
        ensures
            r == DBI_EXTRA_STREAMS_SIZE,
    {
        DBI_EXTRA_STREAMS_SIZE
    }

    /// Reads the `fpo_data` field.
    pub fn get_fpo_data(&self) -> (r: u16)
        requires
            self.wf(),
        ensures
            r == u16_at(self@, 0x00),
    {
        read_u16(self.ptr, 0x00)
    }

    /// Reads the `exception_data` field.
    pub fn get_exception_data(&self) -> (r: u16)
        requires
            self.wf(),
        ensures
            r == u16_at(self@, 0x02),
    {
        read_u16(self.ptr, 0x02)
    }

    /// Reads the `fixup_data` field.
    pub fn get_fixup_data(&self) -> (r: u16)
        requires
            self.wf(),
        ensures
            r == u16_at(self@, 0x04),
    {
        read_u16(self.ptr, 0x04)
    }

    /// Reads the `omap_to_src` field.
    pub fn get_omap_to_src(&self) -> (r: u16)
        requires
            self.wf(),
        ensures
            r == u16_at(self@, 0x06),
    {
        read_u16(self.ptr, 0x06)
    }

    /// Reads the `omap_from_src` field.
    pub fn get_omap_from_src(&self) -> (r: u16)
        requires
            self.wf(),
        ensures
            r == u16_at(self@, 0x08),
    {
        read_u16(self.ptr, 0x08)
    }

    /// Reads the `section_headers` field.
    pub fn get_section_headers(&self) -> (r: u16)
        requires
            self.wf(),
        ensures
            r == u16_at(self@, 0x0A),
    {
        read_u16(self.ptr, 0x0A)
    }

    /// Reads the `unknown1` field.
    pub fn get_unknown1(&self) -> (r: u16)
        requires
            self.wf(),
        ensures
            r == u16_at(self@, 0x0C),
    {
        read_u16(self.ptr, 0x0C)
    }

    /// Reads the `xdata` field.
    pub fn get_xdata(&self) -> (r: u16)
        requires
            self.wf(),
        ensures
            r == u16_at(self@, 0x0E),
    {
        read_u16(self.ptr, 0x0E)
    }

    /// Reads the `pdata` field.
    pub fn get_pdata(&self) -> (r: u16)
        requires
            self.wf(),
        ensures
            r == u16_at(self@, 0x10),
    {
        read_u16(self.ptr, 0x10)
    }

    /// Reads the `fpo2_data` field.
    pub fn get_fpo2_data(&self) -> (r: u16)
        requires
            self.wf(),
        ensures
            r == u16_at(self@, 0x12),
    {
        read_u16(self.ptr, 0x12)
    }

    /// Reads the `original_section_headers` field.
    pub fn get_original_section_headers(&self) -> (r: u16)
        requires
            self.wf(),
        ensures
            r == u16_at(self@, 0x14),
    {
        read_u16(self.ptr, 0x14)
    }
}

impl<'a> DbiExtraStreamOverlayMut<'a> {
    /// The overlay covers exactly its fields.
    pub open spec fn wf(&self) -> bool {
        self@.len() == DBI_EXTRA_STREAMS_SIZE
    }

    /// Overlays the first bytes of `ptr`, if there are enough of them; writes
    /// through the overlay land in `ptr`.
    pub fn new(ptr: &'a mut [u8]) -> (r: Option<DbiExtraStreamOverlayMut<'a>>)
        ensures
            old(ptr)@.len() >= DBI_EXTRA_STREAMS_SIZE <==> r is Some,
            r is Some ==> r->Some_0.wf() && r->Some_0@ == old(ptr)@.subrange(0, DBI_EXTRA_STREAMS_SIZE as int)
                && final(ptr)@ == final(r->Some_0.ptr)@ + old(ptr)@.subrange(
                DBI_EXTRA_STREAMS_SIZE as int,
                old(ptr)@.len() as int,
            ),
            r is None ==> final(ptr)@ == old(ptr)@,
    {
        if ptr.len() >= DBI_EXTRA_STREAMS_SIZE {
            let (a, _b) = ptr.split_at_mut(DBI_EXTRA_STREAMS_SIZE);
            Some(DbiExtraStreamOverlayMut { ptr: a })
        } else {
            None
        }
    }

    pub fn size() -> (r: usize)
        ensures
            r == DBI_EXTRA_STREAMS_SIZE,
    {
        DBI_EXTRA_STREAMS_SIZE
    }

    /// Clears every byte of the overlay.
    pub fn zero(&mut self)
        requires
            old(self).wf(),
        ensures
            final(self)@ == Seq::new(DBI_EXTRA_STREAMS_SIZE as nat, |i: int| 0u8),
            final(final(self).ptr)@ == final(old(self).ptr)@,
    {
        let mut i: usize = 0;
        while i < DBI_EXTRA_STREAMS_SIZE
            invariant
                i <= DBI_EXTRA_STREAMS_SIZE,
                self.wf(),
                forall|k: int| 0 <= k < i ==> self@[k] == 0u8,
                final(self.ptr)@ == final(old(self).ptr)@,
            decreases DBI_EXTRA_STREAMS_SIZE - i,
        {
            self.ptr[i] = 0;
            i = i + 1;
        }
        assert(self@ =~= Seq::new(DBI_EXTRA_STREAMS_SIZE as nat, |i: int| 0u8));
    }

    /// Writes the `fpo_data` field.
    pub fn set_fpo_data(&mut self, val: u16)
        requires
            old(self).wf(),
        ensures
            final(self)@ == splice(old(self)@, 0x00, u16_le(val)),
            final(final(self).ptr)@ == final(old(self).ptr)@,
    {
        write_u16(self.ptr, 0x00, val)
    }

    /// Reads the `fpo_data` field.
    pub fn get_fpo_data(&self) -> (r: u16)
        requires
            self.wf(),
        ensures
            r == u16_at(self@, 0x00),
    {
        read_u16(self.ptr, 0x00)
    }

    /// Writes the `exception_data` field.
    pub fn set_exception_data(&mut self, val: u16)
        requires
            old(self).wf(),
        ensures
            final(self)@ == splice(old(self)@, 0x02, u16_le(val)),
            final(final(self).ptr)@ == final(old(self).ptr)@,
    {
        write_u16(self.ptr, 0x02, val)
    }

    /// Reads the `exception_data` field.
    pub fn get_exception_data(&self) -> (r: u16)
        requires
            self.wf(),
        ensures
            r == u16_at(self@, 0x02),
    {
        read_u16(self.ptr, 0x02)
    }

    /// Writes the `fixup_data` field.
    pub fn set_fixup_data(&mut self, val: u16)
        requires
            old(self).wf(),
        ensures
            final(self)@ == splice(old(self)@, 0x04, u16_le(val)),
            final(final(self).ptr)@ == final(old(self).ptr)@,
    {
        write_u16(self.ptr, 0x04, val)
    }

    /// Reads the `fixup_data` field.
    pub fn get_fixup_data(&self) -> (r: u16)
        requires
            self.wf(),
        ensures
            r == u16_at(self@, 0x04),
    {
        read_u16(self.ptr, 0x04)
    }

    /// Writes the `omap_to_src` field.
    pub fn set_omap_to_src(&mut self, val: u16)
        requires
            old(self).wf(),
        ensures
            final(self)@ == splice(old(self)@, 0x06, u16_le(val)),
            final(final(self).ptr)@ == final(old(self).ptr)@,
    {
        write_u16(self.ptr, 0x06, val)
    }

    /// Reads the `omap_to_src` field.
    pub fn get_omap_to_src(&self) -> (r: u16)
        requires
            self.wf(),
        ensures
            r == u16_at(self@, 0x06),
    {
        read_u16(self.ptr, 0x06)
    }

    /// Writes the `omap_from_src` field.
    pub fn set_omap_from_src(&mut self, val: u16)
        requires
            old(self).wf(),
        ensures
            final(self)@ == splice(old(self)@, 0x08, u16_le(val)),
            final(final(self).ptr)@ == final(old(self).ptr)@,
    {
        write_u16(self.ptr, 0x08, val)
    }

    /// Reads the `omap_from_src` field.
    pub fn get_omap_from_src(&self) -> (r: u16)
        requires
            self.wf(),
        ensures
            r == u16_at(self@, 0x08),
    {
        read_u16(self.ptr, 0x08)
    }

    /// Writes the `section_headers` field.
    pub fn set_section_headers(&mut self, val: u16)
        requires
            old(self).wf(),
        ensures
            final(self)@ == splice(old(self)@, 0x0A, u16_le(val)),
            final(final(self).ptr)@ == final(old(self).ptr)@,
    {
        write_u16(self.ptr, 0x0A, val)
    }

    /// Reads the `section_headers` field.
    pub fn get_section_headers(&self) -> (r: u16)
        requires
            self.wf(),
        ensures
            r == u16_at(self@, 0x0A),
    {
        read_u16(self.ptr, 0x0A)
    }

    /// Writes the `unknown1` field.
    pub fn set_unknown1(&mut self, val: u16)
        requires
            old(self).wf(),
        ensures
            final(self)@ == splice(old(self)@, 0x0C, u16_le(val)),
            final(final(self).ptr)@ == final(old(self).ptr)@,
    {
        write_u16(self.ptr, 0x0C, val)
    }

    /// Reads the `unknown1` field.
    pub fn get_unknown1(&self) -> (r: u16)
        requires
            self.wf(),
        ensures
            r == u16_at(self@, 0x0C),
    {
        read_u16(self.ptr, 0x0C)
    }

    /// Writes the `xdata` field.
    pub fn set_xdata(&mut self, val: u16)
        requires
            old(self).wf(),
        ensures
            final(self)@ == splice(old(self)@, 0x0E, u16_le(val)),
            final(final(self).ptr)@ == final(old(self).ptr)@,
    {
        write_u16(self.ptr, 0x0E, val)
    }

    /// Reads the `xdata` field.
    pub fn get_xdata(&self) -> (r: u16)
        requires
            self.wf(),
        ensures
            r == u16_at(self@, 0x0E),
    {
        read_u16(self.ptr, 0x0E)
    }

    /// Writes the `pdata` field.
    pub fn set_pdata(&mut self, val: u16)
        requires
            old(self).wf(),
        ensures
            final(self)@ == splice(old(self)@, 0x10, u16_le(val)),
            final(final(self).ptr)@ == final(old(self).ptr)@,
    {
        write_u16(self.ptr, 0x10, val)
    }

    /// Reads the `pdata` field.
    pub fn get_pdata(&self) -> (r: u16)
        requires
            self.wf(),
        ensures
            r == u16_at(self@, 0x10),
    {
        read_u16(self.ptr, 0x10)
    }

    /// Writes the `fpo2_data` field.
    pub fn set_fpo2_data(&mut self, val: u16)
        requires
            old(self).wf(),
        ensures
            final(self)@ == splice(old(self)@, 0x12, u16_le(val)),
            final(final(self).ptr)@ == final(old(self).ptr)@,
    {
        write_u16(self.ptr, 0x12, val)
    }

    /// Reads the `fpo2_data` field.
    pub fn get_fpo2_data(&self) -> (r: u16)
        requires
            self.wf(),
        ensures
            r == u16_at(self@, 0x12),
    {
        read_u16(self.ptr, 0x12)
    }

    /// Writes the `original_section_headers` field.
    pub fn set_original_section_headers(&mut self, val: u16)
        requires
            old(self).wf(),
        ensures
            final(self)@ == splice(old(self)@, 0x14, u16_le(val)),
            final(final(self).ptr)@ == final(old(self).ptr)@,
    {
        write_u16(self.ptr, 0x14, val)
    }

    /// Reads the `original_section_headers` field.
    pub fn get_original_section_headers(&self) -> (r: u16)
        requires
            self.wf(),
        ensures
            r == u16_at(self@, 0x14),
    {
        read_u16(self.ptr, 0x14)
    }
}


/// The DBI stream.
#[derive(Debug, Clone)]
pub struct DbiStream {
    /// The underlying stream.
    pub stream: Stream,
}

impl DbiStream {
    /// Wraps the DBI stream.
    pub fn new(stream: Stream) -> (r: DbiStream)
        ensures
            r.stream == stream,
    {
        DbiStream { stream }
    }

    /// Read-only overlay of the header.
    pub fn header(&self) -> (r: Option<DbiStreamHeaderOverlay<'_>>)
        ensures
            self.stream.view.bytes@.len() >= DBI_HEADER_SIZE <==> r is Some,
            r is Some ==> r->Some_0.wf() && r->Some_0@ == self.stream.view.bytes@.subrange(
                0,
                DBI_HEADER_SIZE as int,
            ),
    {
        DbiStreamHeaderOverlay::new(self.stream.view.as_slice())
    }

    /// Writable overlay of the header; writes through it land in the stream.
    pub fn header_mut(&mut self) -> (r: Option<DbiStreamHeaderOverlayMut<'_>>)
        ensures
            old(self).stream.view.bytes@.len() >= DBI_HEADER_SIZE <==> r is Some,
            final(self).stream.original_stream_size == old(self).stream.original_stream_size,
            final(self).stream.view.pages == old(self).stream.view.pages,
            r is Some ==> r->Some_0.wf() && r->Some_0@ == old(self).stream.view.bytes@.subrange(
                0,
                DBI_HEADER_SIZE as int,
            ) && final(self).stream.view.bytes@ == final(r->Some_0.ptr)@ + old(
                self,
            ).stream.view.bytes@.subrange(
                DBI_HEADER_SIZE as int,
                old(self).stream.view.bytes@.len() as int,
            ),
            r is None ==> final(self).stream.view.bytes@ == old(self).stream.view.bytes@,
    {
        DbiStreamHeaderOverlayMut::new(self.stream.view.as_mut_slice())
    }

    /// Clears the count and the log count at the start of the section map
    /// substream, so that readers find no section map; the rest of the
    /// stream is left as it is.
    pub fn nop_section_maps(&mut self) -> (r: Result<(), MsfError>)
        ensures
            final(self).stream.original_stream_size == old(self).stream.original_stream_size,
            final(self).stream.view.pages == old(self).stream.view.pages,
            old(self).stream.view.bytes@.len() < DBI_HEADER_SIZE ==> r == Err::<(), MsfError>(
                MsfError::ShortSlice,
            ),
            old(self).stream.view.bytes@.len() >= DBI_HEADER_SIZE && section_map_offset(
                old(self).stream.view.bytes@,
            ) + 4 > old(self).stream.view.bytes@.len() ==> r == Err::<(), MsfError>(
                MsfError::EncodeError,
            ),
            r is Err ==> final(self).stream.view.bytes@ == old(self).stream.view.bytes@,
            r is Ok <==> old(self).stream.view.bytes@.len() >= DBI_HEADER_SIZE && section_map_offset(
                old(self).stream.view.bytes@,
            ) + 4 <= old(self).stream.view.bytes@.len(),
            r is Ok ==> final(self).stream.view.bytes@ == splice(
                old(self).stream.view.bytes@,
                section_map_offset(old(self).stream.view.bytes@),
                seq![0u8, 0u8, 0u8, 0u8],
            ),
    {
        let off = match self.header() {
            Some(h) => DBI_HEADER_SIZE as u64 + h.get_mod_info_size() as u64
                + h.get_section_contribution_size() as u64,
            None => return Err(MsfError::ShortSlice),
        };
        let len = self.stream.view.bytes.len();
        if off > len as u64 || len as u64 - off < 4 {
            return Err(MsfError::EncodeError);
        }
        let off = off as usize;
        let ghost b0 = self.stream.view.bytes@;
        let s = self.stream.view.as_mut_slice();
        write_u16(s, off, 0);
        write_u16(s, off + 2, 0);
        assert(s@ =~= splice(b0, off as int, seq![0u8, 0u8, 0u8, 0u8]));
        Ok(())
    }

    /// Read-only overlay of the optional debug header, where the stream
    /// holds all of it.
    pub fn extra_streams(&self) -> (r: Option<DbiExtraStreamOverlay<'_>>)
        ensures
            r is Some <==> self.stream.view.bytes@.len() >= DBI_HEADER_SIZE && extra_streams_offset(
                self.stream.view.bytes@,
            ) + DBI_EXTRA_STREAMS_SIZE <= self.stream.view.bytes@.len(),
            r is Some ==> r->Some_0.wf() && r->Some_0@ == self.stream.view.bytes@.subrange(
                extra_streams_offset(self.stream.view.bytes@),
                extra_streams_offset(self.stream.view.bytes@) + DBI_EXTRA_STREAMS_SIZE,
            ),
    {
        let off = match self.extra_streams_start() {
            Some(o) => o,
            None => return None,
        };
        let b = self.stream.view.as_slice();
        DbiExtraStreamOverlay::new(&b[off..b.len()])
    }

    /// Writable overlay of the optional debug header, where the stream holds
    /// all of it; writes through it land in the stream.
    pub fn extra_streams_mut(&mut self) -> (r: Option<DbiExtraStreamOverlayMut<'_>>)
        ensures
            ({
                let b = old(self).stream.view.bytes@;
                let off = extra_streams_offset(b);
                &&& r is Some <==> b.len() >= DBI_HEADER_SIZE && off + DBI_EXTRA_STREAMS_SIZE
                    <= b.len()
                &&& final(self).stream.original_stream_size == old(self).stream.original_stream_size
                &&& final(self).stream.view.pages == old(self).stream.view.pages
                &&& r is Some ==> r->Some_0.wf() && r->Some_0@ == b.subrange(
                    off,
                    off + DBI_EXTRA_STREAMS_SIZE,
                ) && final(self).stream.view.bytes@ == b.subrange(0, off) + final(r->Some_0.ptr)@
                    + b.subrange(off + DBI_EXTRA_STREAMS_SIZE, b.len() as int)
                &&& r is None ==> final(self).stream.view.bytes@ == b
            }),
    {
        let off = match self.extra_streams_start() {
            Some(o) => o,
            None => return None,
        };
        let s = self.stream.view.as_mut_slice();
        let (_front, back) = s.split_at_mut(off);
        DbiExtraStreamOverlayMut::new(back)
    }

    /// Offset of the optional debug header, where the stream holds all of it.
    fn extra_streams_start(&self) -> (r: Option<usize>)
        ensures
            r is Some <==> self.stream.view.bytes@.len() >= DBI_HEADER_SIZE && extra_streams_offset(
                self.stream.view.bytes@,
            ) + DBI_EXTRA_STREAMS_SIZE <= self.stream.view.bytes@.len(),
            r matches Some(o) ==> o == extra_streams_offset(self.stream.view.bytes@),
    {
        let off = match self.header() {
            Some(h) => DBI_HEADER_SIZE as u64 + h.get_mod_info_size() as u64
                + h.get_section_contribution_size() as u64 + h.get_section_map_size() as u64
                + h.get_source_info_size() as u64 + h.get_type_server_map_size() as u64
                + h.get_ec_substream_size() as u64,
            None => return None,
        };
        let len = self.stream.view.bytes.len();
        if off > len as u64 || (len as u64 - off) < DBI_EXTRA_STREAMS_SIZE as u64 {
            return None;
        }
        Some(off as usize)
    }
}

} // verus!
