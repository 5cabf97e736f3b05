//! Verified signal-path and protocol logic of a Daisy Seed / ESP32 guitar pedal.
pub mod rng;
pub mod audio_modules;
pub mod codec;
pub mod checksums;
pub mod packet;
pub mod fft_buffer;
pub mod settings;
pub mod frames;
pub mod text;
pub mod commands;
pub mod uart_frames;
pub mod looper;
pub mod driver;
pub mod delays;
pub mod delay;
pub mod bit_crush;
pub mod stereo;
pub mod adc;
pub mod http;
