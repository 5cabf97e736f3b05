use daisy_pedal::audio_modules::{run_modules, Gain_int, Invert, AudioBuffer, AUDIO_BUFFER_LEN};
use daisy_pedal::bit_crush::BitCrush;
use daisy_pedal::codec::{
    codec_sample, codec_word, decode_frames, encode_frames, pack_24le_samples, unpack_24le_samples,
};
use daisy_pedal::delay::{ms_to_samples, DelayLine};
use daisy_pedal::stereo::Stereo;

#[test]
fn gain_int_scales_and_saturates() {
    let g = Gain_int::new(2);
    assert_eq!(g.gain, 2);
    let mut buf = [100i16, 20000, -20000, 0, -7];
    g.process(&mut buf);
    assert_eq!(buf, [200, 32767, -32768, 0, -14]);
}

#[test]
fn gain_int_unit_and_zero() {
    let mut buf = [1i16, -2, 32767, -32768];
    Gain_int::new(1).process(&mut buf);
    assert_eq!(buf, [1, -2, 32767, -32768]);
    Gain_int::new(0).process(&mut buf);
    assert_eq!(buf, [0, 0, 0, 0]);
}

#[test]
fn invert_flips_sign_and_twice_restores() {
    let mut buf = [5i16, -5, 32767, -32767, 0];
    Invert.process(&mut buf);
    assert_eq!(buf, [-5, 5, -32767, 32767, 0]);
    Invert.process(&mut buf);
    assert_eq!(buf, [5, -5, 32767, -32767, 0]);
}

#[test]
fn run_modules_halves_then_inverts() {
    let mut buf = [3i16, -3, 10, -32768, 32767, 0, 1, -1];
    run_modules(&mut buf);
    assert_eq!(buf, [-1, 1, -5, 16384, -16383, 0, 0, 0]);
}

#[test]
fn audio_buffer_holds_a_block() {
    let b = AudioBuffer { samples: [1i16; 1024] };
    assert_eq!(b.samples.len(), AUDIO_BUFFER_LEN);
}

#[test]
fn unpack_reads_signed_big_endian_triples() {
    let bytes = [0x80u8, 0x00, 0x00, 0x7F, 0xFF, 0xFF, 0xFF, 0xFF, 0xFF, 0x00, 0x01, 0x00, 0x12];
    let s = unpack_24le_samples(&bytes);
    assert_eq!(s, vec![-8388608, 8388607, -1, 256]);
}

#[test]
fn pack_writes_low_24_bits() {
    let b = pack_24le_samples(&[-1, 256, 8388607, -8388608, 0x0123_4567]);
    assert_eq!(
        b,
        vec![0xFF, 0xFF, 0xFF, 0x00, 0x01, 0x00, 0x7F, 0xFF, 0xFF, 0x80, 0x00, 0x00, 0x23, 0x45, 0x67]
    );
}

#[test]
fn pack_unpack_round_trip() {
    let samples = vec![0, 1, -1, 12345, -12345, 8388607, -8388608];
    assert_eq!(unpack_24le_samples(&pack_24le_samples(&samples)), samples);
    let bytes = vec![1u8, 2, 3, 0xF0, 0x0F, 0xAA];
    assert_eq!(pack_24le_samples(&unpack_24le_samples(&bytes)), bytes);
}

#[test]
fn codec_sample_and_word() {
    assert_eq!(codec_sample(0x00FF_FFFF), -1);
    assert_eq!(codec_sample(0x0080_0000), -8388608);
    assert_eq!(codec_sample(0x007F_FFFF), 8388607);
    assert_eq!(codec_sample(0xAB00_0001), 1);
    assert_eq!(codec_word(-1), 0xFFFF_FFFF);
    assert_eq!(codec_word(5), 5);
    for s in [-8388608i32, -1, 0, 1, 4242, 8388607] {
        assert_eq!(codec_sample(codec_word(s)), s);
    }
}

#[test]
fn decode_and_encode_frames() {
    let words = [0x0000_0001u32, 0x00FF_FFFF, 0x0000_0002, 0x0000_0003];
    assert_eq!(decode_frames(&words, 10), vec![(1, -1), (2, 3)]);
    assert_eq!(decode_frames(&words, 1), vec![(1, -1)]);
    assert_eq!(decode_frames(&words[..3], 1), vec![(1, -1)]);
    assert_eq!(encode_frames(&[(1, -1), (2, 3)], 4), vec![1, 0xFFFF_FFFF, 2, 3]);
    assert_eq!(encode_frames(&[(1, -1), (2, 3)], 2), vec![1, 0xFFFF_FFFF]);
    assert_eq!(encode_frames(&[(7, 8)], 3), vec![7, 8]);
}

#[test]
fn bit_crush_depth_is_clamped() {
    let b = BitCrush::new(0);
    assert_eq!((b.bits(), b.levels()), (1, 2));
    let mut b = BitCrush::new(20);
    assert_eq!((b.bits(), b.levels()), (16, 65536));
    b.set_bits(8);
    assert_eq!((b.bits(), b.levels()), (8, 256));
}

#[test]
fn delay_line_returns_a_sample_after_t_writes() {
    let mut d: DelayLine<i32, 3> = DelayLine::new(0);
    assert_eq!(d.current(), 0);
    d.push(1);
    d.push(2);
    d.push(3);
    assert_eq!(d.current(), 1);
    d.push(4);
    assert_eq!(d.current(), 2);
}

#[test]
fn ms_to_samples_at_48k() {
    assert_eq!(ms_to_samples(500), 24000);
    assert_eq!(ms_to_samples(1), 48);
    assert_eq!(ms_to_samples(0), 0);
}

#[test]
fn stereo_splits_an_effect() {
    let mut s = Stereo::new(vec![1u8, 2]);
    let (l, r) = s.channels_mut();
    assert_eq!(*l, vec![1u8, 2]);
    assert_eq!(*r, vec![1u8, 2]);
    l.push(3);
    let (l, r) = s.channels_mut();
    assert_eq!(l.len(), 3);
    assert_eq!(r.len(), 2);
}

#[test]
fn frames_round_trip_through_codec_words() {
    let frames = vec![(0, -1), (8388607, -8388608), (123, -456)];
    let words = encode_frames(&frames, 6);
    assert_eq!(decode_frames(&words, 3), frames);
}

#[test]
fn pack_unpack_drops_partial_group() {
    let bytes = vec![1u8, 2, 3, 4, 5, 6, 7, 8];
    assert_eq!(pack_24le_samples(&unpack_24le_samples(&bytes)), bytes[..6].to_vec());
    assert!(unpack_24le_samples(&[9u8, 9]).is_empty());
}
