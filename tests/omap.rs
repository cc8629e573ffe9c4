use elderscroll::directory::Stream;
use elderscroll::error::MsfError;
use elderscroll::omap::{OmapEntry, OmapStream};
use elderscroll::pagelist::PageList;
use elderscroll::view::SourceView;

fn table(entries: &[(u32, u32)]) -> OmapStream {
    let mut o = OmapStream::default();
    for &(s, t) in entries {
        o.insert(OmapEntry(s, t));
    }
    o
}

fn stream_of(bytes: Vec<u8>) -> Stream {
    Stream { original_stream_size: bytes.len() as u32, view: SourceView { bytes, pages: PageList::new(0x1000) } }
}

#[test]
fn omap_translate_scenario() {
    let o = table(&[
        (0x1008, 0x1000),
        (0x100F, 0x1007),
        (0x1010, 0x1010),
        (0x1088, 0x1010),
        (0x109F, 0x1064),
        (0x10A0, 0x10A0),
    ]);
    assert_eq!(o.translate(0x1000), 0x1000);
    assert_eq!(o.translate(0x1008), 0x1000);
    assert_eq!(o.translate(0x100A), 0x1002);
    assert_eq!(o.translate(0x1088), 0x1010);
    assert_eq!(o.translate(0x1090), 0x1018);
    assert_eq!(o.translate(0x109F), 0x1064);
    assert_eq!(o.translate(0x10A0), 0x10A0);
}

#[test]
fn omap_translate_unmapped_target() {
    let o = table(&[(0x7000, 0x0), (0x8000, 0x100)]);
    assert_eq!(o.translate(0x7010), 0x7010);
    assert_eq!(o.translate(0x8010), 0x110);
    assert_eq!(o.translate(0x10), 0x10);
}

#[test]
fn omap_translate_monotonic_within_entry() {
    let o = table(&[(0x100, 0x5000), (0x200, 0x10)]);
    let mut last = o.translate(0x100);
    for a in 0x101..0x200 {
        let t = o.translate(a);
        assert!(t >= last);
        last = t;
    }
}

#[test]
fn omap_insert_keeps_order_and_first() {
    let mut o = OmapStream::default();
    assert!(o.insert(OmapEntry(30, 3)));
    assert!(o.insert(OmapEntry(10, 1)));
    assert!(o.insert(OmapEntry(20, 2)));
    assert!(!o.insert(OmapEntry(20, 9)));
    assert_eq!(o.len(), 3);
    assert_eq!(o.get(0), OmapEntry(10, 1));
    assert_eq!(o.get(1), OmapEntry(20, 2));
    assert_eq!(o.get(2), OmapEntry(30, 3));
}

#[test]
fn omap_serialize_and_parse() {
    let o = table(&[(0x1008, 0x1000), (0x109F, 0x109F)]);
    let bytes = o.serialize();
    assert_eq!(
        bytes,
        vec![0x08, 0x10, 0, 0, 0x00, 0x10, 0, 0, 0x9F, 0x10, 0, 0, 0x9F, 0x10, 0, 0]
    );
    let back = OmapStream::new(stream_of(bytes)).unwrap();
    assert_eq!(back.len(), 2);
    assert_eq!(back.get(0), OmapEntry(0x1008, 0x1000));
    assert_eq!(back.get(1), OmapEntry(0x109F, 0x109F));
}

#[test]
fn omap_parse_stops_and_skips() {
    // (5, 50), (5, 51) repeats a source, (9, 90), (3, 30) goes back: stop.
    let mut bytes = Vec::new();
    for (s, t) in [(5u32, 50u32), (5, 51), (9, 90), (3, 30), (12, 120)] {
        bytes.extend_from_slice(&s.to_le_bytes());
        bytes.extend_from_slice(&t.to_le_bytes());
    }
    bytes.push(0xAA);
    let o = OmapStream::new(stream_of(bytes)).unwrap();
    assert_eq!(o.len(), 2);
    assert_eq!(o.get(0), OmapEntry(5, 50));
    assert_eq!(o.get(1), OmapEntry(9, 90));
}

#[test]
fn omap_parse_partial_pair() {
    let mut bytes = Vec::new();
    bytes.extend_from_slice(&1u32.to_le_bytes());
    bytes.extend_from_slice(&2u32.to_le_bytes());
    bytes.extend_from_slice(&3u32.to_le_bytes());
    assert_eq!(OmapStream::new(stream_of(bytes)).err(), Some(MsfError::ParseError));
}
