use oxide::pcm::PcmDecoder;

#[test]
fn odd_byte_is_carried_over() {
    let mut decoder = PcmDecoder::new();
    assert_eq!(decoder.decode(&[0x01]), Vec::<i16>::new());
    assert_eq!(decoder.decode(&[0x02, 0xff, 0xff, 0x00]), vec![0x0201, -1]);
    assert_eq!(decoder.decode(&[0x80]), vec![-32768]);
}

#[test]
fn samples_do_not_depend_on_the_split() {
    let bytes: Vec<u8> = (0..=50).collect();
    let whole = PcmDecoder::new().decode(&bytes);
    assert_eq!(whole.len(), 25);
    assert_eq!(whole[1], 0x0302);
    for size in 1..=51 {
        let mut decoder = PcmDecoder::new();
        let mut samples = Vec::new();
        for piece in bytes.chunks(size) {
            samples.extend(decoder.decode(piece));
        }
        assert_eq!(samples, whole);
    }
}

#[test]
fn empty_read_changes_nothing() {
    let mut decoder = PcmDecoder::new();
    assert_eq!(decoder.decode(&[]), Vec::<i16>::new());
    assert_eq!(decoder.decode(&[0x34]), Vec::<i16>::new());
    assert_eq!(decoder.decode(&[]), Vec::<i16>::new());
    assert_eq!(decoder.decode(&[0x12]), vec![0x1234]);
}
