use elderscroll::msf::MsfBigHeaderMut;
use elderscroll::pagelist::PageList;
use elderscroll::view::SourceView;

// Basic check to know we map 2 pages.
#[test]
fn test_source_view1() {
    let mut buff = Vec::<u8>::new();
    buff.resize(0x5000, 0);
    let mut pages = PageList::new(0x1000);
    pages.push(2);
    pages.push(4);
    let source = SourceView::new(&buff, pages).unwrap();
    // Assert we mapped 2 pages.
    assert_eq!(source.as_slice().len(), 0x2000);
}

/// Make sure if we make changes they flush back correctly.
#[test]
fn flush_source_view1() {
    let mut buff = Vec::<u8>::new();
    buff.resize(0x5000, 0);
    let mut pages = PageList::new(0x1000);
    pages.push(2);
    pages.push(4);
    let mut source = SourceView::new(&buff, pages).unwrap();
    source.as_mut_slice()[0..0x1000].fill(0x69);
    source.as_mut_slice()[0x1000..0x2000].fill(0x42);
    let mut header_bytes = Vec::<u8>::new();
    header_bytes.resize(0x1000, 0);
    let mut header = MsfBigHeaderMut::new(&mut header_bytes).unwrap();
    header.set_page_size(0x1000);
    header.set_num_pages(5);
    source.flush(&mut buff, &mut header);
    // Make sure the flush actually works.
    assert!(buff[0x2000..0x3000].iter().all(|&e| e == 0x69));
    assert!(buff[0x4000..0x5000].iter().all(|&e| e == 0x42));
}

/// Expand the mapping and make sure that it flushes
/// back and expands the vector we flush to.
#[test]
fn flush_source_view2() {
    let mut buff = Vec::<u8>::new();
    buff.resize(0x5000, 0);
    let mut pages = PageList::new(0x1000);
    pages.push(2);
    pages.push(4);
    let mut source = SourceView::new(&buff, pages).unwrap();
    source.as_mut_slice()[0..0x1000].fill(0x69);
    source.as_mut_slice()[0x1000..0x2000].fill(0x42);
    source.bytes.resize(source.bytes.len() + 0x500, 0xFF);

    let mut header_bytes = Vec::<u8>::new();
    header_bytes.resize(0x1000, 0);
    let mut header = MsfBigHeaderMut::new(&mut header_bytes).unwrap();

    header.set_page_size(0x1000);
    header.set_num_pages(5);
    source.flush(&mut buff, &mut header);

    assert_eq!(header.get_num_pages(), 6);
    // Make sure the flush actually works.
    assert!(buff[0x2000..0x3000].iter().all(|&e| e == 0x69));
    assert!(buff[0x4000..0x5000].iter().all(|&e| e == 0x42));
}

#[test]
fn flush_without_growth_keeps_page_count() {
    let mut buff = vec![0u8; 0x5000];
    let mut pages = PageList::new(0x1000);
    pages.push(2);
    pages.push(4);
    let mut source = SourceView::new(&buff, pages).unwrap();
    source.as_mut_slice()[0..0x1000].fill(0x69);
    source.as_mut_slice()[0x1000..0x2000].fill(0x42);
    let mut header_bytes = vec![0u8; 0x38];
    let mut header = MsfBigHeaderMut::new(&mut header_bytes).unwrap();
    header.set_page_size(0x1000);
    header.set_num_pages(5);
    source.flush(&mut buff, &mut header);
    assert_eq!(header.get_num_pages(), 5);
    assert_eq!(buff.len(), 0x5000);
    assert_eq!(source.pages.pfns, vec![2, 4]);
    assert!(buff[0x3000..0x4000].iter().all(|&e| e == 0));
}

#[test]
fn flush_growth_appends_pages_at_tail() {
    let mut buff = vec![0u8; 0x5000];
    let mut pages = PageList::new(0x1000);
    pages.push(2);
    pages.push(4);
    let mut source = SourceView::new(&buff, pages).unwrap();
    source.as_mut_slice()[0..0x1000].fill(0x69);
    source.as_mut_slice()[0x1000..0x2000].fill(0x42);
    source.bytes.resize(0x2500, 0xFF);
    let mut header_bytes = vec![0u8; 0x38];
    let mut header = MsfBigHeaderMut::new(&mut header_bytes).unwrap();
    header.set_page_size(0x1000);
    header.set_num_pages(5);
    source.flush(&mut buff, &mut header);
    assert_eq!(header.get_num_pages(), 6);
    assert_eq!(buff.len(), 0x6000);
    assert_eq!(source.pages.pfns, vec![2, 4, 5]);
    assert!(buff[0x5000..0x5500].iter().all(|&e| e == 0xFF));
    assert!(buff[0x5500..0x6000].iter().all(|&e| e == 0));
    assert_eq!(header.get_num_pages() * header.get_page_size(), buff.len() as u32);
}

#[test]
fn flush_growth_by_several_pages() {
    let mut buff = vec![0u8; 0x600];
    let mut source = SourceView { bytes: vec![7u8; 0x450], pages: PageList::new(0x200) };
    let mut header_bytes = vec![0u8; 0x38];
    let mut header = MsfBigHeaderMut::new(&mut header_bytes).unwrap();
    header.set_page_size(0x200);
    header.set_num_pages(3);
    source.flush(&mut buff, &mut header);
    // 0x450 bytes need three pages of 0x200.
    assert_eq!(header.get_num_pages(), 6);
    assert_eq!(source.pages.pfns, vec![3, 4, 5]);
    assert_eq!(buff.len(), 0xC00);
    assert!(buff[0x600..0xA50].iter().all(|&e| e == 7));
    assert!(buff[0xA50..0xC00].iter().all(|&e| e == 0));
}

#[test]
fn gather_rejects_page_past_end() {
    let buff = vec![0u8; 0x3000];
    let mut pages = PageList::new(0x1000);
    pages.push(1);
    pages.push(3);
    assert!(SourceView::new(&buff, pages).is_none());
}

#[test]
fn gather_with_size_cuts_and_extends() {
    let mut buff = vec![0u8; 0x600];
    buff[0x200..0x400].fill(5);
    let mut pages = PageList::new(0x200);
    pages.push(1);
    let cut = SourceView::with_size(&buff, pages.clone(), 0x10).unwrap();
    assert_eq!(cut.bytes, vec![5u8; 0x10]);
    let longer = SourceView::with_size(&buff, pages, 0x210).unwrap();
    assert_eq!(longer.bytes.len(), 0x210);
    assert!(longer.bytes[..0x200].iter().all(|&e| e == 5));
    assert!(longer.bytes[0x200..].iter().all(|&e| e == 0));
}

#[test]
fn page_list_length() {
    let mut pages = PageList::new(0x200);
    assert_eq!(pages.len(), 0);
    pages.push(9);
    pages.push(3);
    assert_eq!(pages.len(), 0x400);
}

#[test]
fn exact_multiple_uses_whole_pages() {
    let mut buff = vec![0u8; 0x400];
    let mut source = SourceView { bytes: vec![1u8; 0x400], pages: PageList::new(0x200) };
    let mut header_bytes = vec![0u8; 0x38];
    let mut header = MsfBigHeaderMut::new(&mut header_bytes).unwrap();
    header.set_page_size(0x200);
    header.set_num_pages(2);
    assert_eq!(header.pages_needed_to_store(0x400), 2);
    assert_eq!(header.pages_needed_to_store(0x401), 3);
    source.flush(&mut buff, &mut header);
    assert_eq!(source.pages.pfns.len(), 2);
    assert_eq!(buff.len(), 0x800);
}
