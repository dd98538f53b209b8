use zfp_rs::bitstream::{ZfpBitStream, ZfpBitStreamMutOps, ZfpBitStreamOps, ZfpBitStreamRef, ZfpBitStreamRefMut};

#[test]
fn committed_bytes_are_eight_per_word() {
    let mut bs = ZfpBitStream::new(32);
    bs.write_bits(0x0123_4567_89ab_cdef, 64);
    bs.write_bits(0x55, 8);
    // One word committed, one partial word pending.
    assert_eq!(bs.as_bytes().len(), 8);
    assert_eq!(bs.as_bytes(), &0x0123_4567_89ab_cdefu64.to_ne_bytes()[..]);
    assert_eq!(ZfpBitStreamOps::backing_bytes(&bs).len(), 32);
    let bytes = bs.into_vec();
    assert_eq!(bytes.len(), 16);
    assert_eq!(&bytes[8..], &0x55u64.to_ne_bytes()[..]);
}

#[test]
fn owned_stream_from_bytes_reads_the_words() {
    let mut buf = Vec::new();
    buf.extend_from_slice(&0xdead_beef_0000_0001u64.to_ne_bytes());
    buf.extend_from_slice(&7u64.to_ne_bytes());
    buf.push(0xff);
    let mut bs = ZfpBitStream::from_bytes(&buf);
    assert_eq!(bs.capacity(), 16);
    assert_eq!(bs.read_bits(64), 0xdead_beef_0000_0001);
    assert_eq!(bs.read_bits(3), 7);
}

#[test]
fn borrowed_streams_over_aligned_bytes() {
    let mut words = vec![0u64; 3];
    {
        let bytes: &mut [u8] = bytemuck::cast_slice_mut(&mut words[..]);
        let mut w = ZfpBitStreamRefMut::from_bytes_mut(bytes).expect("aligned");
        assert_eq!(w.capacity(), 24);
        w.write_bits(0b1011, 4);
        w.flush();
    }
    assert_eq!(words[0], 0b1011);
    let view: &[u8] = bytemuck::cast_slice(&words[..]);
    let mut r = ZfpBitStreamRef::from_bytes(view).expect("aligned");
    assert_eq!(r.capacity(), 24);
    assert_eq!(r.read_bits(4), 0b1011);
}
