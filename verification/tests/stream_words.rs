use zfp_rs::config::ZfpConfig;
use zfp_rs::execution::ZfpExecution;
use zfp_rs::field::ZfpField;
use zfp_rs::types::ZfpScalarType;
use zfp_rs::bitstream::{ZfpBitStream, ZfpBitStreamMutOps, ZfpBitStreamOps, ZfpBitStreamRefMut};

#[test]
fn a_fresh_stream_hands_back_zero_words() {
    assert_eq!(ZfpBitStream::new(32).into_words(), vec![0u64; 4]);
}

#[test]
fn words_written_through_a_borrowed_stream_are_handed_back() {
    let mut words = [0u64; 2];
    let mut s = ZfpBitStreamRefMut::from_words_mut(&mut words);
    s.write_bits(0x0123_4567_89ab_cdef, 64);
    assert_eq!(s.size(), 8);
    let back = s.into_words();
    assert_eq!(back[0], 0x0123_4567_89ab_cdef);
    assert_eq!(back[1], 0);
    assert_eq!(words, [0x0123_4567_89ab_cdef, 0]);
}

#[test]
fn successive_writes_read_back_in_order() {
    let writes: [(u64, u32); 5] = [(0b101, 3), (u64::MAX, 64), (0x1234, 13), (0, 7), (0xfeed_face_cafe, 48)];
    let mut s = ZfpBitStream::new(64);
    for (v, n) in writes {
        s.write_bits(v, n);
    }
    s.flush();
    s.rewind();
    let mut pos = 0u64;
    for (v, n) in writes {
        let expect = if n == 64 { v } else { v & ((1u64 << n) - 1) };
        assert_eq!(s.read_bits(n), expect);
        pos += n as u64;
        assert_eq!(s.read_pos(), pos);
    }
}

#[test]
fn chunked_compression_writes_the_serial_stream() {
    let values: Vec<f64> = (0..(9 * 7)).map(|i| ((i * 13) as f64).sin() * 1.0e3).collect();
    let bytes: Vec<u8> = values.iter().flat_map(|x| x.to_le_bytes()).collect();
    let field = ZfpField::new(&bytes, ZfpScalarType::Double, [9usize, 7]);
    for config in [ZfpConfig::fixed_precision(19), ZfpConfig::reversible()] {
        let mut serial = ZfpBitStream::new(8192);
        let n = serial.compress_with_execution(&config, &field, ZfpExecution::Serial).unwrap();
        for execution in [
            ZfpExecution::Rayon { threads: 3, chunk_size: 0 },
            ZfpExecution::Rayon { threads: 0, chunk_size: 2 },
            ZfpExecution::Rayon { threads: 0, chunk_size: 0 },
            ZfpExecution::Rayon { threads: 100, chunk_size: 0 },
        ] {
            let mut chunked = ZfpBitStream::new(8192);
            assert_eq!(chunked.compress_with_execution(&config, &field, execution).unwrap(), n);
            assert_eq!(ZfpBitStreamOps::words(&chunked), ZfpBitStreamOps::words(&serial));
        }
    }
}
