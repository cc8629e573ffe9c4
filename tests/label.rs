use elderscroll::error::MsfError;
use elderscroll::label::LabelSymbol;
use elderscroll::modi::ModiStream;

/// Test to make sure that the symbol information is all correct.
#[test]
fn label_symbol_test() {
    let mut symbol = LabelSymbol::default();
    symbol.name = format!("HelloWorld");
    let mut buff = vec![0u8; 0x100];
    symbol.write_to(&mut buff).unwrap();
    println!("{:X?}", buff);
}

#[test]
fn label_symbol_bytes() {
    let symbol = LabelSymbol { offset: 0x1234, section: 2, flags: 1, name: "ab".to_string() };
    assert_eq!(symbol.size(), 12);
    let mut buff = vec![0xEEu8; 16];
    let n = symbol.write_to(&mut buff).unwrap();
    assert_eq!(n, 14);
    assert_eq!(
        buff,
        vec![12, 0, 0x05, 0x11, 0x34, 0x12, 0, 0, 2, 0, 1, b'a', b'b', 0, 0xEE, 0xEE]
    );
}

#[test]
fn label_symbol_short_buffer() {
    let symbol = LabelSymbol { offset: 0, section: 0, flags: 0, name: "abc".to_string() };
    let mut buff = vec![0u8; 14];
    assert_eq!(symbol.write_to(&mut buff), Err(MsfError::EncodeError));
    assert_eq!(buff, vec![0u8; 14]);
}

#[test]
fn module_stream_labels() {
    let mut modi = ModiStream::new(0x1000).unwrap();
    assert_eq!(modi.stream.view.bytes, vec![4, 0, 0, 0, 0, 0, 0, 0]);
    let label = LabelSymbol { offset: 8, section: 1, flags: 0, name: "x".to_string() };
    modi.add_label(label).unwrap();
    // The stream grows by the symbol's size and four bytes; the symbol goes
    // right after the signature.
    assert_eq!(modi.stream.view.bytes.len(), 8 + 11 + 4);
    assert_eq!(&modi.stream.view.bytes[4..17], &[11, 0, 0x05, 0x11, 8, 0, 0, 0, 1, 0, 0, b'x', 0]);
    assert_eq!(modi.offset, 17);
}
