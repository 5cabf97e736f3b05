use daisy_pedal::commands::{check_reply, echo_frame, frame_command, CommandReader, RxEvent, UartError};
use daisy_pedal::frames::FrameReceiver;
use daisy_pedal::packet::Packet;
use daisy_pedal::settings::{
    next_command, silences_output, CommandUart, FFTUart, Mute, FFT_BINS, FFT_BYTES_TAKEN,
};
use daisy_pedal::uart_frames::{Info, LineReader, LineStep, UartError as LineError};

#[test]
fn packet_layout_and_crc() {
    let p = Packet::new(&[1, 2, 3]);
    assert_eq!(p.as_bytes(), &[0xAA, 0x55, 0xAA, 0x55, 1, 2, 3, 0x3B, 0x9D]);
    assert_eq!(p.header(), [0xAA, 0x55, 0xAA, 0x55]);
    assert_eq!(p.crc(), [0x3B, 0x9D]);
    assert_eq!(p.payload_bytes(), &[1, 2, 3]);
    assert_eq!(p.payload_len(), 3);
    assert!(p.verify());
}

#[test]
fn packet_crc_check_value() {
    let p = Packet::new(b"123456789");
    assert_eq!(p.crc(), [0x6E, 0x90]);
    let empty = Packet::new(&[]);
    assert_eq!(empty.as_bytes(), &[0xAA, 0x55, 0xAA, 0x55, 0x00, 0x00]);
    assert!(empty.verify());
}

#[test]
fn packet_refill_and_reuse() {
    let mut p = Packet::new(&[0, 0, 0, 0]);
    p.copy_bytes_into(&[9, 8, 7, 6]);
    assert_eq!(p.payload_bytes(), &[9, 8, 7, 6]);
    assert!(p.verify());
    let z = p.into();
    assert_eq!(z.as_bytes(), &[0u8; 10]);
    assert_eq!(z.payload_len(), 4);
}

#[test]
fn packet_set_byte() {
    let mut p = Packet::new(&[1, 2]);
    p.set_byte(4, 9);
    assert_eq!(p.payload_bytes(), &[9, 2]);
    assert!(!p.verify());
    p.set_byte(4, 1);
    assert!(p.verify());
}

#[test]
fn packet_from_bytes_checks_length() {
    let bytes = Packet::new(&[5, 6]).as_bytes().to_vec();
    let again = Packet::from_bytes(bytes.clone(), 2).unwrap();
    assert_eq!(again.as_bytes(), &bytes[..]);
    assert!(again.verify());
    assert!(Packet::from_bytes(bytes.clone(), 3).is_none());
    let mut tampered = bytes;
    tampered[4] ^= 1;
    assert!(!Packet::from_bytes(tampered, 2).unwrap().verify());
}

#[test]
fn fft_uart_bytes_round_trip() {
    let mut arr = [0u8; FFT_BYTES_TAKEN];
    arr[0] = 7;
    arr[FFT_BYTES_TAKEN - 1] = 9;
    let u = FFTUart::new_bytes(arr);
    assert_eq!(u.into_bytes(), arr);
}

#[test]
fn fft_uart_bins_round_trip() {
    let mut bins = [0i16; FFT_BINS];
    bins[0] = -2;
    bins[1] = 0x1234;
    let u = FFTUart::new(bins);
    assert_eq!(&u.arr[0..2], &(-2i16).to_ne_bytes());
    assert_eq!(&u.arr[2..4], &0x1234i16.to_ne_bytes());
    assert_eq!(u.into(), bins);
}

#[test]
fn mute_commands() {
    let unmuted = CommandUart::Mute(Mute::Unmute);
    let muted = CommandUart::Mute(Mute::Mute);
    assert_eq!(next_command(unmuted, None), unmuted);
    assert_eq!(next_command(unmuted, Some(muted)), muted);
    assert!(silences_output(muted));
    assert!(!silences_output(unmuted));
}

#[test]
fn frame_receiver_splits_on_delimiter() {
    let mut rx = FrameReceiver::new();
    assert_eq!(rx.free_space(), 64);
    let frames = rx.receive(&[b'a', b'b', 0, b'c', b'd']);
    assert_eq!(frames, vec![vec![b'a', b'b']]);
    assert_eq!(rx.free_space(), 62);
    let frames = rx.receive(&[b'e', 0, 0, b'f']);
    assert_eq!(frames, vec![vec![b'c', b'd', b'e'], vec![]]);
    assert_eq!(rx.free_space(), 63);
    let frames = rx.receive(&[0]);
    assert_eq!(frames, vec![vec![b'f']]);
    assert_eq!(rx.free_space(), 64);
}

#[test]
fn frame_receiver_drops_oversized_frame() {
    let mut rx = FrameReceiver::new();
    let frames = rx.receive(&[1u8; 40]);
    assert!(frames.is_empty());
    assert_eq!(rx.free_space(), 24);
    let frames = rx.receive(&[2u8; 24]);
    assert!(frames.is_empty());
    assert_eq!(rx.free_space(), 64);
    let frames = rx.receive(&[3, 0]);
    assert_eq!(frames, vec![vec![3u8]]);
}

#[test]
fn command_framing_and_reading() {
    let line = match frame_command(b"hello") {
        Ok(l) => l,
        Err(_) => panic!("framing failed"),
    };
    assert_eq!(&line[..5], b"hello");
    assert!(line[5..31].iter().all(|&b| b == 0));
    assert!(crc8_rs::has_valid_crc8(line, 0xD5));
    assert_eq!(line, crc8_rs::insert_crc8(*b"hello\0\0\0\0\0\0\0\0\0\0\0\0\0\0\0\0\0\0\0\0\0\0\0\0\0\0\0", 0xD5));
    let mut reader = CommandReader::new();
    for &b in line.iter() {
        assert!(reader.feed(RxEvent::Byte(b)).is_none());
        assert!(reader.feed(RxEvent::WouldBlock).is_none());
    }
    match reader.feed(RxEvent::Byte(b'\n')) {
        Some(Ok((len, l))) => {
            assert_eq!(len, 32);
            assert_eq!(l, line);
            assert!(check_reply(b"hello", l).is_ok());
        },
        _ => panic!("framed command rejected"),
    }
}

#[test]
fn command_errors() {
    assert!(matches!(frame_command(&[b'x'; 33]), Err(UartError::BufferOverflow(z)) if z == [0u8; 32]));
    assert!(matches!(frame_command(&[b'x'; 32]), Ok(_)));
    let mut reader = CommandReader::new();
    reader.feed(RxEvent::Byte(1));
    assert!(matches!(reader.feed(RxEvent::Byte(b'\n')), Some(Err(UartError::AckMismatch(_)))));
    assert!(matches!(reader.feed(RxEvent::Failed), Some(Err(UartError::ReadError))));
}

#[test]
fn reply_check() {
    let mut echo = [0u8; 32];
    echo[..5].copy_from_slice(b"hello");
    assert!(check_reply(b"hello", echo).is_ok());
    assert!(matches!(check_reply(b"hellp", echo), Err(UartError::AckMismatch(b)) if b == echo));
    assert!(matches!(check_reply(b"hell", echo), Err(UartError::AckMismatch(_))));
    let mut error = [0u8; 32];
    error[..5].copy_from_slice(b"error");
    assert!(matches!(check_reply(b"hello", error), Err(UartError::AckMismatch(b)) if b == error));
    assert!(matches!(check_reply(b"hello", [0u8; 32]), Err(UartError::AckMismatch(_))));
    assert!(check_reply(b"", [0u8; 32]).is_ok());
    let mut bad = [0u8; 32];
    bad[0] = 0xFF;
    assert!(matches!(check_reply(b"hello", bad), Err(UartError::Utf8Error(b)) if b == bad));
    assert!(check_reply(&[b'a'; 32], [b'a'; 32]).is_ok());
}

#[test]
fn short_line_reports_its_length() {
    let mut reader = CommandReader::new();
    reader.feed(RxEvent::Byte(b'o'));
    reader.feed(RxEvent::Byte(b'k'));
    assert!(matches!(reader.feed(RxEvent::Byte(b'\n')), Some(Err(UartError::AckMismatch(_)))));
    let line = match frame_command(b"ok") {
        Ok(l) => l,
        Err(_) => panic!("framing failed"),
    };
    let mut reader = CommandReader::new();
    for &b in line.iter() {
        reader.feed(RxEvent::Byte(b));
    }
    assert!(matches!(reader.feed(RxEvent::Byte(b'\n')), Some(Ok((32, l))) if l == line));
}

#[test]
fn line_reader_bytes_and_text() {
    let mut r = LineReader::new([0u8; 64]);
    assert!(matches!(r.feed_byte(0x00), LineStep::More));
    assert!(matches!(r.feed_byte(0x41), LineStep::More));
    assert!(matches!(r.feed_byte(b'\n'), LineStep::Ended));
    assert!(matches!(r.finish(), Some(Ok(Info::Bytes(d))) if d == &[0x00u8][..]));

    let mut buf = [0u8; 64];
    buf[2] = 0x97;
    let mut r = LineReader::new(buf);
    r.feed_byte(b'1');
    r.feed_byte(b'x');
    r.feed_byte(b'\t');
    assert!(matches!(r.finish(), Some(Ok(Info::Str(s))) if s == "1"));
}

#[test]
fn line_reader_errors() {
    let mut r = LineReader::new([0u8; 64]);
    r.feed_byte(0x31);
    r.feed_byte(0x41);
    assert!(r.finish().is_none());
    r.feed_byte(b'\n');
    assert!(matches!(r.finish(), Some(Err(LineError::AckMismatch(d))) if d == &[0x31u8][..]));
    let mut r = LineReader::new([0u8; 64]);
    r.feed_byte(b'\n');
    assert!(r.finish().is_none());
    let mut r = LineReader::new([0u8; 64]);
    for _ in 0..64 {
        assert!(matches!(r.feed_byte(7), LineStep::More));
    }
    assert!(matches!(r.feed_byte(7), LineStep::Overflow));
}

#[test]
fn frame_receiver_any_split_gives_same_frames() {
    let stream: Vec<u8> = vec![1, 2, 0, 3, 0, 0, 4, 5, 6, 0, 7];
    let expected = vec![vec![1u8, 2], vec![3], vec![], vec![4, 5, 6]];
    for cut_a in 0..stream.len() {
        for cut_b in cut_a..stream.len() {
            let mut rx = FrameReceiver::new();
            let mut got = Vec::new();
            got.extend(rx.receive(&stream[..cut_a]));
            got.extend(rx.receive(&stream[cut_a..cut_b]));
            got.extend(rx.receive(&stream[cut_b..]));
            assert_eq!(got, expected);
            assert_eq!(rx.free_space(), 63);
        }
    }
}

#[test]
fn echo_frames_the_received_text() {
    let line = match frame_command(b"hello") {
        Ok(l) => l,
        Err(_) => panic!("framing failed"),
    };
    let echo = match echo_frame(line) {
        Ok(e) => e,
        Err(_) => panic!("echo failed"),
    };
    assert_eq!(echo, line);
    let mut padded = [0u8; 32];
    padded[..2].copy_from_slice(b"ok");
    padded[20] = 9;
    let echo = match echo_frame(padded) {
        Ok(e) => e,
        Err(_) => panic!("echo failed"),
    };
    assert!(matches!(frame_command(b"ok"), Ok(l) if l == echo));
    assert_ne!(echo, padded);
    let full = [b'a'; 32];
    assert!(matches!((echo_frame(full), frame_command(&full)), (Ok(a), Ok(b)) if a == b));
    let mut bad = [0u8; 32];
    bad[0] = 0xFF;
    assert!(matches!(echo_frame(bad), Err(UartError::Utf8Error(b)) if b == bad));
}

#[test]
fn frame_receiver_delivers_fitting_frames_whole() {
    let mut stream: Vec<u8> = vec![5u8; 63];
    stream.push(0);
    stream.extend(vec![6u8; 63]);
    stream.push(0);
    stream.extend(vec![7u8; 10]);
    for cut_a in 0..stream.len() {
        for cut_b in cut_a..stream.len() {
            let mut rx = FrameReceiver::new();
            let mut got = Vec::new();
            let mut fits = true;
            for part in [&stream[..cut_a], &stream[cut_a..cut_b], &stream[cut_b..]] {
                if part.len() > rx.free_space() {
                    fits = false;
                    break;
                }
                got.extend(rx.receive(part));
            }
            if fits {
                assert_eq!(got, vec![vec![5u8; 63], vec![6u8; 63]]);
                assert_eq!(rx.free_space(), 54);
            }
        }
    }
}
