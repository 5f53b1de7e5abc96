use rtlsdr::bytesum::{fast, slow};
use rtlsdr::dsp::block::fft::fftw::DFTC64;
use rtlsdr::dsp::block::sink::{u16tou8ale, u32tou8abe, u32tou8ale, WaveFileI8, WAV_HEADER_LEN};
use rtlsdr::dsp::block::source::rtlsdr::usb::{samples_from_bytes, SourceRead, OPTIMAL_SYNC_READ};
use rtlsdr::dsp::block::source::rtlsdr::USB;
use rtlsdr::dsp::block::{BlockOutput, ComplexI8, Sink, SourceAmount};

fn c(re: i8, im: i8) -> ComplexI8 {
    ComplexI8 { re, im }
}

#[test]
fn unwrap_gives_ready_data() {
    let out: BlockOutput<u8> = BlockOutput::Ready(vec![3, 1, 2]);
    assert_eq!(out.unwrap(), vec![3, 1, 2]);
}

#[test]
fn little_endian_bytes() {
    assert_eq!(u16tou8ale(0x1234), [0x34, 0x12]);
    assert_eq!(u16tou8ale(1), [1, 0]);
    assert_eq!(u32tou8ale(0x12345678), [0x78, 0x56, 0x34, 0x12]);
    assert_eq!(u32tou8ale(16), [16, 0, 0, 0]);
    assert_eq!(u32tou8ale(3_200_000), 3_200_000u32.to_le_bytes());
}

#[test]
fn big_endian_bytes() {
    assert_eq!(u32tou8abe(0x12345678), [0x12, 0x34, 0x56, 0x78]);
    assert_eq!(u32tou8abe(0xdeadbeef), 0xdeadbeefu32.to_be_bytes());
}

#[test]
fn big_endian_is_little_endian_reversed() {
    for v in [0u32, 1, 255, 256, 0x01020304, u32::MAX, 99_710_000] {
        let mut le = u32tou8ale(v);
        le.reverse();
        assert_eq!(u32tou8abe(v), le);
    }
}

#[test]
fn little_endian_round_trip() {
    for v in [0u32, 7, 0x8000_0000, u32::MAX, 2_048_000] {
        assert_eq!(u32::from_le_bytes(u32tou8ale(v)), v);
    }
}

#[test]
fn wave_file_bytes() {
    let mut w = WaveFileI8::new(String::from("auds0.wav"), 8000);
    w.write(vec![1, -1]);
    w.write(vec![]);
    w.write(vec![127, -128]);
    assert_eq!(w.path(), "auds0.wav");
    assert_eq!(w.sps(), 8000);
    assert_eq!(w.data_size(), Some(4));
    let bytes = w.wav_bytes();
    let mut expected: Vec<u8> = Vec::new();
    expected.extend_from_slice(b"RIFF");
    expected.extend_from_slice(&[40, 0, 0, 0]);
    expected.extend_from_slice(b"WAVE");
    expected.extend_from_slice(b"fmt ");
    expected.extend_from_slice(&[16, 0, 0, 0]);
    expected.extend_from_slice(&[1, 0]);
    expected.extend_from_slice(&[1, 0]);
    expected.extend_from_slice(&[0x40, 0x1f, 0, 0]);
    expected.extend_from_slice(&[0x40, 0x1f, 0, 0]);
    expected.extend_from_slice(&[1, 0]);
    expected.extend_from_slice(&[8, 0]);
    expected.extend_from_slice(b"data");
    expected.extend_from_slice(&[4, 0, 0, 0]);
    expected.extend_from_slice(&[1, 255, 127, 128]);
    assert_eq!(bytes, expected);
}

#[test]
fn wave_file_size_fields() {
    let mut w = WaveFileI8::new(String::from("x.wav"), 3_200_000);
    w.write(vec![5; 300]);
    w.write(vec![-5; 21]);
    let bytes = w.wav_bytes();
    assert_eq!(bytes.len(), WAV_HEADER_LEN + 321);
    let riff = u32::from_le_bytes([bytes[4], bytes[5], bytes[6], bytes[7]]) as usize;
    let rate = u32::from_le_bytes([bytes[24], bytes[25], bytes[26], bytes[27]]);
    let data = u32::from_le_bytes([bytes[40], bytes[41], bytes[42], bytes[43]]) as usize;
    assert_eq!(riff, bytes.len() - 8);
    assert_eq!(rate, 3_200_000);
    assert_eq!(data, bytes.len() - 44);
    assert_eq!(bytes[44], 5);
    assert_eq!(bytes[bytes.len() - 1], 251);
}

#[test]
fn empty_wave_file() {
    let w = WaveFileI8::new(String::from("empty.wav"), 1);
    assert_eq!(w.data_size(), Some(0));
    let bytes = w.wav_bytes();
    assert_eq!(bytes.len(), 44);
    assert_eq!(&bytes[4..8], &[36, 0, 0, 0]);
}

#[test]
fn samples_are_centred() {
    let s = samples_from_bytes(vec![0, 255, 128, 129, 7]);
    assert_eq!(s, vec![c(-128, 127), c(0, 1)]);
    assert_eq!(samples_from_bytes(vec![]), vec![]);
    assert_eq!(samples_from_bytes(vec![200]), vec![]);
}

#[test]
fn new_device_mode() {
    let sync = USB::new(0, 0);
    assert!(!sync.isasync());
    assert_eq!(sync.index_of(), 0);
    let mut asy = USB::new(3, 1024);
    assert!(asy.isasync());
    assert_eq!(asy.index_of(), 3);
    assert_eq!(asy.offload_limit(), 1024);
    asy.async_finished();
    assert!(!asy.isasync());
}

#[test]
fn offload_respects_backlog_limit() {
    let mut u = USB::new(0, 10);
    assert!(u.offload_chunk(vec![1, 2, 3, 4]));
    assert!(u.offload_chunk(vec![5, 6, 7, 8, 9, 10]));
    assert!(!u.offload_chunk(vec![11]));
    assert_eq!(u.pending_chunks(), 2);
    // Reading frees room in the backlog.
    assert_eq!(u.asyncreadchunk(), vec![1, 2, 3, 4]);
    assert!(u.offload_chunk(vec![11, 12, 13, 14]));
    assert!(!u.offload_chunk(vec![15]));
    assert!(u.offload_chunk(vec![]));
    assert_eq!(u.pending_chunks(), 3);
    assert_eq!(u.asyncread(7), vec![5, 6, 7, 8, 9, 10, 11]);
    assert!(u.offload_chunk(vec![16, 17, 18, 19, 20, 21, 22]));
    assert!(!u.offload_chunk(vec![23]));
}

#[test]
fn offload_without_bound() {
    let mut u = USB::new(0, usize::MAX);
    assert!(u.offload_chunk(vec![1; 1000]));
    assert!(u.offload_chunk(vec![2; 1000]));
    assert_eq!(u.pending_chunks(), 2);
}

#[test]
fn asyncread_splits_a_chunk() {
    let mut u = USB::new(0, 100);
    assert!(u.offload_chunk(vec![1, 2, 3]));
    assert!(u.offload_chunk(vec![4, 5]));
    assert!(u.offload_chunk(vec![6]));
    assert_eq!(u.asyncread(4), vec![1, 2, 3, 4]);
    assert_eq!(u.pending_chunks(), 2);
    assert_eq!(u.asyncreadchunk(), vec![5]);
    assert_eq!(u.asyncread(10), vec![6]);
    assert_eq!(u.pending_chunks(), 0);
    assert_eq!(u.asyncread(10), Vec::<u8>::new());
}

#[test]
fn asyncread_exact_fit_and_zero() {
    let mut u = USB::new(0, 100);
    assert!(u.offload_chunk(vec![1, 2]));
    assert!(u.offload_chunk(vec![3, 4]));
    assert_eq!(u.asyncread(0), Vec::<u8>::new());
    assert_eq!(u.pending_chunks(), 2);
    assert_eq!(u.asyncread(2), vec![1, 2]);
    assert_eq!(u.pending_chunks(), 1);
    assert_eq!(u.asyncread(1), vec![3]);
    assert_eq!(u.asyncreadchunk(), vec![4]);
}

#[test]
fn read_async_at_most() {
    let mut u = USB::new(0, 100);
    assert!(u.offload_chunk(vec![128, 128, 0, 255, 1]));
    assert!(u.offload_chunk(vec![2, 3, 4]));
    match u.read(SourceAmount::AtMost(3)) {
        SourceRead::Ready(s) => assert_eq!(s, vec![c(0, 0), c(-128, 127), c(-127, -126)]),
        SourceRead::Sync(_) => panic!("an asynchronous device reads its queue"),
    }
    assert_eq!(u.asyncreadchunk(), vec![3, 4]);
}

#[test]
fn read_async_optimal() {
    let mut u = USB::new(0, 100);
    assert!(u.offload_chunk(vec![130, 126, 9]));
    assert!(u.offload_chunk(vec![1, 2]));
    match u.read(SourceAmount::Optimal) {
        SourceRead::Ready(s) => assert_eq!(s, vec![c(2, -2)]),
        SourceRead::Sync(_) => panic!("an asynchronous device reads its queue"),
    }
    assert_eq!(u.pending_chunks(), 1);
}

#[test]
fn read_sync_plans() {
    let mut u = USB::new(0, 0);
    match u.read(SourceAmount::AtMost(100)) {
        SourceRead::Sync(n) => assert_eq!(n, 200),
        SourceRead::Ready(_) => panic!("a synchronous device is read synchronously"),
    }
    match u.read(SourceAmount::Optimal) {
        SourceRead::Sync(n) => assert_eq!(n, OPTIMAL_SYNC_READ),
        SourceRead::Ready(_) => panic!("a synchronous device is read synchronously"),
    }
    assert_eq!(OPTIMAL_SYNC_READ, 8192);
}

#[test]
fn dft_accepts_only_its_size() {
    let d = DFTC64::new(256, true);
    assert_eq!(d.bins(), 256);
    assert!(d.forward());
    assert!(d.reject_input::<u8>(256).is_none());
    match d.reject_input::<u8>(255) {
        Some(BlockOutput::ErrorInputSizeInvalid(m)) => assert_eq!(
            m,
            "The input size must be 256 for performance! See, dsp::block::Chunker for a solution!"
        ),
        _ => panic!("input of the wrong size is refused"),
    }
}

#[test]
fn dft_message_for_negative_bins() {
    let d = DFTC64::new(-5, false);
    assert!(!d.forward());
    match d.reject_input::<u8>(5) {
        Some(BlockOutput::ErrorInputSizeInvalid(m)) => assert_eq!(
            m,
            "The input size must be -5 for performance! See, dsp::block::Chunker for a solution!"
        ),
        _ => panic!("input of the wrong size is refused"),
    }
}

#[test]
fn dft_bin_offsets() {
    let d = DFTC64::new(256, true);
    assert_eq!(d.bin_offset(0), 0);
    assert_eq!(d.bin_offset(128), 128);
    assert_eq!(d.bin_offset(129), -127);
    assert_eq!(d.bin_offset(255), -1);
    let odd = DFTC64::new(5, true);
    assert_eq!(odd.bin_offset(2), 2);
    assert_eq!(odd.bin_offset(3), -2);
}

#[test]
fn byte_sums() {
    assert_eq!(slow(&[1, 2, 255]), 2);
    assert_eq!(slow(&[]), 0);
    assert_eq!(fast(&[1, 2, 3]), 16);
    assert_eq!(fast(&[]), 0);
    assert_eq!(fast(&[200, 100]), 32);
}
