//! Module symbol streams, built here to hold new label symbols.
use vstd::prelude::*;
use crate::codec::{extend_zeros, splice, u32_le};
use crate::directory::{INVALID_STREAM_SIZE, Stream};
use crate::error::MsfError;
use crate::label::{LabelSymbol, label_bytes, label_size};
use crate::pagelist::PageList;
use crate::view::{SourceView, zeros};

verus! {

/// Signature at the start of a module stream: symbols with C13 line
/// information.
pub const MODI_STREAM_SIGNATURE: u32 = 4;

/// A module stream under construction.
#[derive(Debug, Clone)]
pub struct ModiStream {
    /// The stream itself.
    pub stream: Stream,
    /// Where the next symbol goes; `add_label` moves it.
    pub offset: usize,
}

impl ModiStream {
    /// A new, empty module stream for pages of `page_size` bytes: the
    /// signature, then four zero bytes.
    pub fn new(page_size: u32) -> (r: Result<ModiStream, MsfError>)
        ensures
            r matches Ok(m) && m.stream.original_stream_size == INVALID_STREAM_SIZE
                && m.stream.view.bytes@ == u32_le(MODI_STREAM_SIGNATURE) + seq![0u8, 0u8, 0u8, 0u8]
                && m.stream.view.pages.page_size == page_size && m.stream.view.pages.pfns@
                == Seq::<u32>::empty() && m.offset == 4,
    {
        let mut bytes: Vec<u8> = Vec::new();
        crate::codec::push_u32(&mut bytes, MODI_STREAM_SIGNATURE);
        crate::codec::push_u32(&mut bytes, 0);
        assert(u32_le(0) =~= seq![0u8, 0u8, 0u8, 0u8]);
        let stream = Stream {
            original_stream_size: INVALID_STREAM_SIZE,
            view: SourceView { bytes, pages: PageList::new(page_size) },
        };
        Ok(ModiStream { stream, offset: 4 })
    }

    /// Appends room for `label` and its header and writes them at the
    /// cursor, which then moves past them. Fails, changing nothing, where the
    /// stream's bytes no longer hold the cursor.
    pub fn add_label(&mut self, label: LabelSymbol) -> (r: Result<(), MsfError>)
        requires
            label_size(label) + 4 <= usize::MAX,
        ensures
            ({
                let b = old(self).stream.view.bytes@;
                let s = label_size(label);
                let o = old(self).offset;
                &&& final(self).stream.original_stream_size == old(self).stream.original_stream_size
                &&& final(self).stream.view.pages == old(self).stream.view.pages
                &&& r is Ok <==> b.len() + s + 4 <= usize::MAX && o + s + 2 <= b.len() + s + 4
                &&& r matches Err(e) ==> e == MsfError::EncodeError && final(self).stream.view.bytes@
                    == b && final(self).offset == o
                &&& r is Ok ==> final(self).stream.view.bytes@ == splice(
                    b + zeros(s + 4),
                    o as int,
                    label_bytes(label),
                ) && final(self).offset == o + s + 2
            }),
    {
        let s = label.size();
        let len = self.stream.view.bytes.len();
        if len > usize::MAX - (s + 4) || self.offset > len + 2 {
            return Err(MsfError::EncodeError);
        }
        extend_zeros(&mut self.stream.view.bytes, s + 4);
        let o = self.offset;
        let ghost grown = self.stream.view.bytes@;
        let whole = self.stream.view.bytes.as_mut_slice();
        let (_front, back) = whole.split_at_mut(o);
        let written = label.write_to(back);
        match written {
            Ok(n) => {
                assert(self.stream.view.bytes@ =~= splice(grown, o as int, label_bytes(label)));
                self.offset = o + n;
                Ok(())
            },
            Err(e) => Err(e),
        }
    }
}

} // verus!
