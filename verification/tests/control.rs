use daisy_pedal::adc::{pin_name, record_reading, AdcsError, ReadOutcome};
use daisy_pedal::delays::BusyDelay;
use daisy_pedal::driver::{i2c_write_address, set_register_bit, AudioDriver};
use daisy_pedal::fft_buffer::{FftState, FftWrite};
use daisy_pedal::http::{after_read, contains, request_complete, wants_websocket, ReadResult, RequestStep};
use daisy_pedal::looper::{Footswitch, LoopStep, Looper, State};
use daisy_pedal::rng::xorshift32;

#[test]
fn xorshift_known_values() {
    let mut s: u32 = 0x1234_5678;
    assert_eq!(xorshift32(&mut s), 0x8798_5AA5);
    assert_eq!(s, 0x8798_5AA5);
    assert_eq!(xorshift32(&mut s), 0x155B_24A3);
    let mut one: u32 = 1;
    assert_eq!(xorshift32(&mut one), 0x42021);
    let mut zero: u32 = 0;
    assert_eq!(xorshift32(&mut zero), 0);
}

#[test]
fn xorshift_never_hits_zero_from_nonzero() {
    let mut s: u32 = 0xDEAD_BEEF;
    for _ in 0..10_000 {
        assert_ne!(xorshift32(&mut s), 0);
    }
}

#[test]
fn register_bit_updates() {
    assert_eq!(set_register_bit(0b1010_0000, 0, true), 0b1010_0001);
    assert_eq!(set_register_bit(0b1010_0000, 7, false), 0b0010_0000);
    assert_eq!(set_register_bit(0b1010_0000, 5, true), 0b1010_0000);
    assert_eq!(set_register_bit(0xFF, 3, false), 0xF7);
}

#[test]
fn i2c_address_word() {
    assert_eq!(i2c_write_address(0x48), 0x90);
    assert_eq!(i2c_write_address(0xFF), 0xFE);
    assert_eq!(i2c_write_address(0x24), 0x48);
}

#[test]
fn i2s_init_succeeds() {
    assert!(AudioDriver::init_i2s().is_ok());
}

#[test]
fn busy_delay_cycles() {
    let d = BusyDelay::new(480_000_000);
    assert_eq!(d.cycles_for_us(10), 4800);
    assert_eq!(d.cycles_for_ms(2), 960_000);
    let slow = BusyDelay::new(999_999);
    assert_eq!(slow.cycles_for_us(1000), 0);
}

#[test]
fn fft_write_fills_then_hands_over() {
    let mut w: FftWrite<u8, 4, 2> = FftWrite::new();
    assert!(matches!(w.add(1), Err(FftState::NoBuf)));
    w.set_buf(vec![0; 4]);
    for x in [10u8, 11, 12, 13] {
        assert!(w.add(x).is_ok());
    }
    match w.add(99) {
        Err(FftState::Ready(v)) => assert_eq!(v, vec![10, 11, 12, 13]),
        _ => panic!("full buffer not handed over"),
    }
    assert!(matches!(w.add(1), Err(FftState::NoBuf)));
    assert!(matches!(w.get_buf(), Err(FftState::NoBuf)));
    w.set_buf(vec![7; 4]);
    w.add(1).ok();
    match w.get_buf() {
        Ok(v) => assert_eq!(v, vec![1, 7, 7, 7]),
        Err(_) => panic!("buffer lost"),
    }
}

#[test]
fn footswitch_cycle() {
    let mut f = Footswitch::new();
    assert_eq!(f.state, State::Idle);
    f.press();
    assert_eq!(f.state, State::Recording);
    f.press();
    assert_eq!(f.state, State::Replaying);
    f.press();
    assert_eq!(f.state, State::OverDubbing);
    f.press();
    assert_eq!(f.state, State::Replaying);
    assert_eq!(f.release(999), None);
    assert_eq!(f.release(1000), Some(State::Clear));
}

#[test]
fn looper_records_replays_and_clears() {
    let mut l: Looper<i32> = Looper::new(Vec::new(), 0);
    assert!(matches!(l.process(5, None), LoopStep::Through));
    assert!(matches!(l.process(1, Some(State::Recording)), LoopStep::Through));
    l.process(2, None);
    l.process(3, None);
    let mut played = Vec::new();
    for i in 0..7 {
        let received = if i == 0 { Some(State::Replaying) } else { None };
        match l.process(100, received) {
            LoopStep::Add(f) => played.push(f),
            _ => panic!("not replaying"),
        }
    }
    assert_eq!(played, vec![1, 2, 3, 1, 2, 3, 1]);
    match l.process(10, Some(State::OverDubbing)) {
        LoopStep::OverDub { slot, loop_frame } => {
            assert_eq!((slot, loop_frame), (1, 2));
            l.overwrite(slot, loop_frame + 10);
        },
        _ => panic!("not overdubbing"),
    }
    match l.process(0, Some(State::Replaying)) {
        LoopStep::Add(f) => assert_eq!(f, 3),
        _ => panic!("not replaying"),
    }
    match l.process(0, None) {
        LoopStep::Add(f) => assert_eq!(f, 1),
        _ => panic!("not replaying"),
    }
    match l.process(0, None) {
        LoopStep::Add(f) => assert_eq!(f, 12),
        _ => panic!("overdub lost"),
    }
    assert!(matches!(l.process(0, Some(State::Clear)), LoopStep::Through));
    match l.process(0, Some(State::Replaying)) {
        LoopStep::Add(f) => assert_eq!(f, 0),
        _ => panic!("not replaying"),
    }
}

#[test]
fn adc_readings() {
    let mut buf = [0u32; 7];
    assert!(record_reading(&mut buf, 3, ReadOutcome::Value(42)).is_ok());
    assert_eq!(buf, [0, 0, 0, 42, 0, 0, 0]);
    assert!(matches!(record_reading(&mut buf, 1, ReadOutcome::WouldBlock), Err(AdcsError::WouldBlock)));
    assert!(matches!(record_reading(&mut buf, 6, ReadOutcome::Failed), Err(AdcsError::ReadError("pc4"))));
    assert_eq!(buf, [0, 0, 0, 42, 0, 0, 0]);
    assert_eq!(pin_name(0), "pc0");
    assert_eq!(pin_name(4), "pa6");
}

#[test]
fn http_request_detection() {
    assert!(contains(b"abcdef", b"cde"));
    assert!(!contains(b"abcdef", b"ced"));
    assert!(contains(b"abc", b""));
    assert!(!contains(b"ab", b"abc"));
    assert!(request_complete(b"GET / HTTP/1.1\r\nHost: x\r\n\r\n"));
    assert!(!request_complete(b"GET / HTTP/1.1\r\nHost: x\r\n"));
    assert!(wants_websocket(b"GET / HTTP/1.1\r\nUpgrade: websocket\r\n\r\n"));
    assert!(wants_websocket(b"GET / HTTP/1.1\r\nupgrade: websocket\r\n\r\n"));
    assert!(!wants_websocket(b"GET / HTTP/1.1\r\nUPGRADE: websocket\r\n\r\n"));
}

#[test]
fn http_read_steps() {
    let mut buf = [0u8; 1024];
    buf[..6].copy_from_slice(b"GET /\r");
    assert!(matches!(after_read(&buf, 0, ReadResult::Data(6)), RequestStep::Continue(6)));
    buf[6..9].copy_from_slice(b"\n\r\n");
    assert!(matches!(after_read(&buf, 6, ReadResult::Data(3)), RequestStep::Stop(9)));
    assert!(matches!(after_read(&buf, 6, ReadResult::Eof), RequestStep::Stop(6)));
    assert!(matches!(after_read(&buf, 6, ReadResult::Failed), RequestStep::Stop(6)));
    let full = [b'a'; 1024];
    assert!(matches!(after_read(&full, 1000, ReadResult::Data(24)), RequestStep::Stop(0)));
}

#[test]
fn register_bit_update_is_idempotent() {
    for c in [0u8, 0x5A, 0xFF] {
        for bit in 0..8u8 {
            for v in [false, true] {
                let once = set_register_bit(c, bit, v);
                assert_eq!(set_register_bit(once, bit, v), once);
                assert_eq!((once >> bit) & 1 == 1, v);
            }
        }
    }
}
