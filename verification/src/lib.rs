//! A polyphonic voice mixer in fixed-point arithmetic: oscillators, voices
//! with a release envelope, a registry of sounding voices and the mixing pass
//! that an audio backend calls for every buffer.

pub mod audio_event;
pub mod audio_server;
pub mod config;
pub mod controller;
pub mod engine;
pub mod noise;
pub mod oscillator;
pub mod sample;
pub mod signal;
pub mod synth;
