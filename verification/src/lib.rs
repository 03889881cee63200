use vstd::prelude::*;

pub mod text;
pub mod types;
pub mod command;
pub mod script_read;
pub mod reader;
pub mod writer;
pub mod roundtrip;
pub mod words;
pub mod readback;
pub mod flow;
pub mod values;
pub mod expr;
pub mod playback;
pub mod recording;
pub mod rng;
pub mod daemon;
pub mod pixels;
pub mod dispatch;
pub mod settings;
pub mod effects;
pub mod player;
pub mod blob;
pub mod outputs;
pub mod hotkeys;
pub mod smooth;
pub mod integral;
pub mod downsample;
pub mod retained;
pub mod bounds;
pub mod selection;
pub mod cursor;
pub mod uinput;

verus! {
} // verus!
