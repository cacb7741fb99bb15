use iobuf::raw::RawIobuf;

#[test]
fn show_empty_buffer() {
    let b = RawIobuf::empty();
    let out = b.show("RO");
    assert_eq!(out, b"RO IObuf, limits=[0,0), bounds=[0,0)\n<empty buffer>".to_vec());
}

#[test]
fn show_two_lines() {
    let b = RawIobuf::from_str("ABCDEFGHIJ");
    let out = b.show("test");
    let expected = "test IObuf, limits=[0,10), bounds=[0,10)\n0x00:  41 42 43 44   ABCD  EFGH  45 46 47 48 \n0x08:  49 4a   IJ  \n";
    assert_eq!(out, expected.as_bytes().to_vec());
}

#[test]
fn show_unprintable_bytes_as_dots() {
    let b = RawIobuf::from_slice_copy(&[0x00, 0x1F, 0x20, 0x7D]);
    let out = b.show("x");
    let expected = "x IObuf, limits=[0,4), bounds=[0,4)\n0x00:  00 1f 20 7d   .. }    \n";
    assert_eq!(out, expected.as_bytes().to_vec());
}

#[test]
fn show_reports_cursors() {
    let mut b = RawIobuf::from_str_copy("abcdef");
    assert_eq!(b.advance(2), Ok(()));
    assert_eq!(b.resize(3), Ok(()));
    let out = b.show("RW");
    let expected = "RW IObuf, limits=[0,6), bounds=[2,5)\n0x00:  63 64 65   cde  \n";
    assert_eq!(out, expected.as_bytes().to_vec());
}
