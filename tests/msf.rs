use elderscroll::dbi::DbiStream;
use elderscroll::directory::{Stream, DBI_STREAM_INDEX, INVALID_STREAM_SIZE};
use elderscroll::error::MsfError;
use elderscroll::msf::{BigMsf, MsfBigHeader, MAGIC};
use elderscroll::omap::{OmapEntry, OmapStream};
use elderscroll::pagelist::PageList;
use elderscroll::view::SourceView;

const PS: usize = 0x200;

fn put_u32(b: &mut [u8], off: usize, v: u32) {
    b[off..off + 4].copy_from_slice(&v.to_le_bytes());
}

fn get_u32(b: &[u8], off: usize) -> u32 {
    u32::from_le_bytes([b[off], b[off + 1], b[off + 2], b[off + 3]])
}

/// A small container: page 0 superblock, page 2 the list of directory
/// pages, page 3 the directory, streams on the pages after it.
/// Streams: 0 of 600 bytes on pages 4 and 5, 1 nil, 2 of 0x50 bytes on
/// page 6, 3 (the DBI stream) of 102 bytes on page 7.
fn sample() -> Vec<u8> {
    let mut f = vec![0u8; 8 * PS];
    f[0..32].copy_from_slice(&MAGIC);
    put_u32(&mut f, 0x20, PS as u32);
    put_u32(&mut f, 0x24, 1);
    put_u32(&mut f, 0x28, 8);
    let sizes = [600u32, INVALID_STREAM_SIZE, 0x50, 102];
    let pfns = [4u32, 5, 6, 7];
    let dir_size = 4 + 4 * sizes.len() + 4 * pfns.len();
    put_u32(&mut f, 0x2C, dir_size as u32);
    put_u32(&mut f, 0x34, 2);
    put_u32(&mut f, 2 * PS, 3);
    let d = 3 * PS;
    put_u32(&mut f, d, sizes.len() as u32);
    for (i, s) in sizes.iter().enumerate() {
        put_u32(&mut f, d + 4 + 4 * i, *s);
    }
    for (i, p) in pfns.iter().enumerate() {
        put_u32(&mut f, d + 4 + 4 * sizes.len() + 4 * i, *p);
    }
    for i in 0..600 {
        f[4 * PS + i] = (i % 251) as u8;
    }
    f[6 * PS..6 * PS + 0x50].fill(0x33);
    // DBI stream: module info 8 bytes, section contributions 4, section map
    // 4, then the optional debug header of 22 bytes.
    let dbi = 7 * PS;
    put_u32(&mut f, dbi + 0x18, 8);
    put_u32(&mut f, dbi + 0x1C, 4);
    put_u32(&mut f, dbi + 0x20, 4);
    put_u32(&mut f, dbi + 0x30, 22);
    f[dbi + 76..dbi + 80].copy_from_slice(&[9, 0, 9, 0]);
    for i in 0..11 {
        f[dbi + 80 + 2 * i] = i as u8 + 1;
    }
    f
}

#[test]
fn open_checks_magic() {
    let m = BigMsf::open(sample()).unwrap();
    assert_eq!(m.header().unwrap().get_magic(), MAGIC);
    let mut bad = sample();
    bad[3] = b'x';
    assert_eq!(BigMsf::open(bad).err(), Some(MsfError::BadMagic));
    assert_eq!(BigMsf::open(vec![0u8; 10]).err(), Some(MsfError::BadMagic));
    assert!(MsfBigHeader::from(&sample()).is_some());
    assert!(MsfBigHeader::from(&vec![0u8; 0x38]).is_none());
}

#[test]
fn header_fields() {
    let m = BigMsf::new(sample());
    let h = m.header().unwrap();
    assert_eq!(h.get_page_size(), 0x200);
    assert_eq!(h.get_free_page_map(), 1);
    assert_eq!(h.get_num_pages(), 8);
    assert_eq!(h.get_stream_dir_size(), 36);
    assert_eq!(h.get_stream_block_map(), 2);
    assert_eq!(h.stream_block_map(), 0x400);
    assert_eq!(h.pages_needed_to_store(600), 2);
    assert_eq!(h.get_magic_at(0), Some(b'M'));
    assert_eq!(h.get_magic_at(0x38), None);
    assert!(BigMsf::new(vec![0u8; 0x37]).header().is_none());
}

#[test]
fn header_setters_round_trip() {
    let mut m = BigMsf::new(sample());
    {
        let mut h = m.header_mut().unwrap();
        h.set_unknown(0xDEADBEEF);
        assert_eq!(h.get_unknown(), 0xDEADBEEF);
        h.set_free_page_map(2);
        assert_eq!(h.get_free_page_map(), 2);
        assert!(h.set_magic_at(31, 7));
        assert!(!h.set_magic_at(0x38, 7));
    }
    assert_eq!(get_u32(&m.bytes, 0x30), 0xDEADBEEF);
    assert_eq!(get_u32(&m.bytes, 0x24), 2);
    assert_eq!(m.bytes[31], 7);
    assert_eq!(get_u32(&m.bytes, 0x20), 0x200);
}

#[test]
fn header_flush_copies_to_start() {
    let mut scratch = vec![0u8; 0x38];
    let mut h = elderscroll::msf::MsfBigHeaderMut::new(&mut scratch).unwrap();
    h.set_num_pages(77);
    let mut target = vec![0xFFu8; 0x40];
    h.flush(&mut target);
    assert_eq!(get_u32(&target, 0x28), 77);
    assert_eq!(target[0], 0);
    assert_eq!(target[0x38], 0xFF);
    h.zero();
    assert_eq!(h.get_num_pages(), 0);
}

#[test]
fn directory_is_read() {
    let file = sample();
    let m = BigMsf::new(file.clone());
    let dir = m.get_stream_directory().unwrap();
    assert_eq!(dir.streams.len(), 4);
    assert_eq!(dir.view.pages.pfns, vec![3]);
    assert_eq!(dir.streams[0].original_stream_size, 600);
    assert_eq!(dir.streams[0].view.pages.pfns, vec![4, 5]);
    assert_eq!(&dir.streams[0].view.bytes[..], &file[4 * PS..4 * PS + 600]);
    assert_eq!(dir.streams[1].original_stream_size, INVALID_STREAM_SIZE);
    assert!(dir.streams[1].view.bytes.is_empty());
    assert!(dir.streams[1].view.pages.pfns.is_empty());
    assert_eq!(dir.streams[2].view.bytes, vec![0x33u8; 0x50]);
}

#[test]
fn directory_errors() {
    let mut f = sample();
    // A stream page past the end of the file.
    put_u32(&mut f, 3 * PS + 4 + 16, 40);
    assert_eq!(BigMsf::new(f).get_stream_directory().err(), Some(MsfError::OutOfRangePfn));
    let mut f = sample();
    // More streams than the directory holds sizes for.
    put_u32(&mut f, 3 * PS, 1000);
    assert_eq!(BigMsf::new(f).get_stream_directory().err(), Some(MsfError::ParseError));
    assert_eq!(BigMsf::new(vec![0u8; 8]).get_stream_directory().err(), Some(MsfError::ShortSlice));
}

#[test]
fn commit_unchanged_round_trip() {
    let file = sample();
    let mut m = BigMsf::new(file.clone());
    let dir = m.get_stream_directory().unwrap();
    m.set_stream_directory(dir).unwrap();
    assert_eq!(m.bytes, file);
}

#[test]
fn commit_with_new_streams() {
    let mut m = BigMsf::new(sample());
    let page_size = m.header().unwrap().get_page_size();
    let mut dir = m.get_stream_directory().unwrap();
    let mut dbi = DbiStream::new(dir.streams[DBI_STREAM_INDEX].clone());
    dbi.nop_section_maps().unwrap();
    let omap_index = dir.streams.len() as u16;
    {
        let mut extras = dbi.extra_streams_mut().unwrap();
        assert_eq!(extras.get_section_headers(), 6);
        extras.set_original_section_headers(extras.get_section_headers());
        extras.set_omap_to_src(omap_index);
        extras.set_omap_from_src(omap_index + 1);
    }
    let mut to_src = OmapStream::default();
    to_src.insert(OmapEntry(0x1008, 0x1000));
    to_src.insert(OmapEntry(0x109F, 0x109F));
    let mut from_src = OmapStream::default();
    from_src.insert(OmapEntry(0x7000, 0));
    for o in [to_src, from_src] {
        dir.streams.push(Stream {
            original_stream_size: 0,
            view: SourceView { bytes: o.serialize(), pages: PageList::new(page_size) },
        });
    }
    dir.streams[DBI_STREAM_INDEX] = dbi.stream;
    m.set_stream_directory(dir).unwrap();
    let h = m.header().unwrap();
    assert_eq!(h.get_num_pages() * h.get_page_size(), m.bytes.len() as u32);
    assert_eq!(h.get_num_pages(), 10);
    // The new file reads back.
    let dir = m.get_stream_directory().unwrap();
    assert_eq!(dir.streams.len(), 6);
    assert_eq!(dir.streams[4].view.pages.pfns, vec![8]);
    assert_eq!(dir.streams[5].view.pages.pfns, vec![9]);
    let o = OmapStream::new(dir.streams[4].clone()).unwrap();
    assert_eq!(o.translate(0x100A), 0x1002);
    let dbi = DbiStream::new(dir.streams[DBI_STREAM_INDEX].clone());
    let extras = dbi.extra_streams().unwrap();
    assert_eq!(extras.get_omap_to_src(), 4);
    assert_eq!(extras.get_omap_from_src(), 5);
    assert_eq!(extras.get_original_section_headers(), 6);
    assert_eq!(&dbi.stream.view.bytes[76..80], &[0, 0, 0, 0]);
}

#[test]
fn dbi_nop_section_maps_only_touches_counts() {
    let m = BigMsf::new(sample());
    let dir = m.get_stream_directory().unwrap();
    let before = dir.streams[DBI_STREAM_INDEX].view.bytes.clone();
    let mut dbi = DbiStream::new(dir.streams[DBI_STREAM_INDEX].clone());
    assert_eq!(dbi.header().unwrap().get_mod_info_size(), 8);
    dbi.nop_section_maps().unwrap();
    let after = &dbi.stream.view.bytes;
    assert_eq!(&after[76..80], &[0, 0, 0, 0]);
    assert_eq!(&after[..76], &before[..76]);
    assert_eq!(&after[80..], &before[80..]);
}

#[test]
fn dbi_short_streams() {
    let short = Stream { original_stream_size: 10, view: SourceView { bytes: vec![0u8; 10], pages: PageList::new(0x200) } };
    let mut dbi = DbiStream::new(short);
    assert!(dbi.header().is_none());
    assert!(dbi.extra_streams().is_none());
    assert_eq!(dbi.nop_section_maps(), Err(MsfError::ShortSlice));
    let mut bytes = vec![0u8; 0x40];
    bytes[0x18] = 0x10;
    let hdr_only = Stream { original_stream_size: 0x40, view: SourceView { bytes, pages: PageList::new(0x200) } };
    let mut dbi = DbiStream::new(hdr_only);
    assert_eq!(dbi.nop_section_maps(), Err(MsfError::EncodeError));
    assert!(dbi.extra_streams_mut().is_none());
}

#[test]
fn dbi_header_setters_round_trip() {
    let m = BigMsf::new(sample());
    let dir = m.get_stream_directory().unwrap();
    let mut dbi = DbiStream::new(dir.streams[DBI_STREAM_INDEX].clone());
    {
        let mut h = dbi.header_mut().unwrap();
        h.set_age(3);
        h.set_machine(0x8664);
        assert_eq!(h.get_age(), 3);
        assert_eq!(h.get_machine(), 0x8664);
    }
    assert_eq!(get_u32(&dbi.stream.view.bytes, 8), 3);
    assert_eq!(dbi.stream.view.bytes[0x3A], 0x64);
    assert_eq!(dbi.stream.view.bytes[0x3B], 0x86);
}

#[test]
fn directory_flush_fails_on_missing_map_page() {
    let mut m = BigMsf::new(sample());
    {
        let mut h = m.header_mut().unwrap();
        h.set_stream_block_map(50);
    }
    let dir = m.get_stream_directory();
    assert_eq!(dir.err(), Some(MsfError::ParseError));
}

#[test]
fn directory_indexing() {
    let m = BigMsf::new(sample());
    let mut dir = m.get_stream_directory().unwrap();
    assert_eq!(dir.get_stream(0).unwrap().original_stream_size, 600);
    assert_eq!(dir.get_stream(0xFFFF).err(), Some(MsfError::InvalidStreamIndex));
    assert_eq!(dir.get_stream(4).err(), Some(MsfError::InvalidStreamIndex));
    let s = Stream { original_stream_size: 0, view: SourceView { bytes: vec![1, 2, 3], pages: PageList::new(0x200) } };
    assert_eq!(dir.push_stream(s.clone()), Ok(4));
    assert_eq!(dir.get_stream(4).unwrap().view.bytes, vec![1, 2, 3]);
    assert_eq!(dir.set_stream(0xFFFF, s.clone()), Err(MsfError::InvalidStreamIndex));
    assert_eq!(dir.set_stream(9, s.clone()), Err(MsfError::InvalidStreamIndex));
    assert_eq!(dir.set_stream(1, s), Ok(()));
    assert_eq!(dir.get_stream(1).unwrap().view.bytes, vec![1, 2, 3]);
    assert!(elderscroll::directory::is_valid_stream_index(3));
    assert!(!elderscroll::directory::is_valid_stream_index(0xFFFF));
}

#[test]
fn nil_stream_written_with_no_pages() {
    let mut m = BigMsf::new(sample());
    let dir = m.get_stream_directory().unwrap();
    m.set_stream_directory(dir).unwrap();
    let h = m.header().unwrap();
    // Sizes 600, nil, 0x50, 102: the nil stream adds no page numbers.
    assert_eq!(h.get_stream_dir_size(), 4 + 4 * 4 + 4 * 4);
    let d = 3 * PS;
    assert_eq!(get_u32(&m.bytes, d + 8), INVALID_STREAM_SIZE);
    assert_eq!(get_u32(&m.bytes, d + 4 + 16), 4);
    assert_eq!(get_u32(&m.bytes, d + 4 + 16 + 8), 6);
}
