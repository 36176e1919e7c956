//! Audio capture and casting support: WAV framing, stereo PCM packing and
//! Chromecast discovery bookkeeping.
use vstd::prelude::*;

pub mod cast;
pub mod device;
pub mod discovery;
pub mod pcm;
pub mod text;
pub mod wav;

verus! {

} // verus!
