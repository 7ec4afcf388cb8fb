//! The playback status snapshot and its plain-text rendering.
use vstd::prelude::*;

use crate::OnOff;
use crate::onoff_text;
use crate::text::dec_digits;
use crate::text::u64_to_string;
use crate::time::Time;

verus! {

/// The daemon's playback state.
#[derive(Clone, Copy, Debug, PartialEq, Eq, Structural)]
pub enum State {
    Stop,
    Play,
    Pause,
}

/// The word the status text uses for a playback state.
pub open spec fn state_text(s: State) -> Seq<char> {
    match s {
        State::Stop => "stop"@,
        State::Play => "play"@,
        State::Pause => "pause"@,
    }
}

impl State {
    /// The state's word in the status text.
    pub fn render(&self) -> (r: &'static str)
        ensures
            r@ == state_text(*self),
    {
        match self {
            State::Stop => "stop",
            State::Play => "play",
            State::Pause => "pause",
        }
    }
}

/// A point-in-time snapshot of the player: current song tags, queue
/// position and length, times, volume, and the mode toggles.
#[derive(Clone, Debug)]
pub struct Status {
    pub volume: String,
    pub state: State,
    pub artist: String,
    pub album: String,
    pub title: String,
    pub position: u32,
    pub queue_count: u32,
    pub elapsed: Time,
    pub track_length: Time,
    pub repeat: OnOff,
    pub random: OnOff,
    pub single: OnOff,
    pub consume: OnOff,
    pub file_path: Option<String>,
}

/// The plain-text status: one `key=value` line per field, in a fixed
/// order; the file path is not shown.
pub open spec fn status_text(s: &Status) -> Seq<char> {
    "volume="@ + s.volume@ + "\nstate="@ + state_text(s.state) + "\nartist="@ + s.artist@
        + "\nalbum="@ + s.album@ + "\ntitle="@ + s.title@ + "\nposition="@ + dec_digits(
        s.position as nat,
    ) + "\nqueue_count="@ + dec_digits(s.queue_count as nat) + "\nelapsed="@ + s.elapsed.as_string@
        + "\ntrack_length="@ + s.track_length.as_string@ + "\nrepeat="@ + onoff_text(s.repeat)
        + "\nrandom="@ + onoff_text(s.random) + "\nsingle="@ + onoff_text(s.single) + "\nconsume="@
        + onoff_text(s.consume)
}

impl Status {
    /// Renders the snapshot as the fixed `key=value` lines.
    pub fn render(&self) -> (r: String)
        ensures
            r@ == status_text(self),
    {
        let mut s = String::from_str("volume=");
        s.append(self.volume.as_str());
        s.append("\nstate=");
        s.append(self.state.render());
        s.append("\nartist=");
        s.append(self.artist.as_str());
        s.append("\nalbum=");
        s.append(self.album.as_str());
        s.append("\ntitle=");
        s.append(self.title.as_str());
        s.append("\nposition=");
        let pos = u64_to_string(self.position as u64);
        s.append(pos.as_str());
        s.append("\nqueue_count=");
        let count = u64_to_string(self.queue_count as u64);
        s.append(count.as_str());
        s.append("\nelapsed=");
        s.append(self.elapsed.as_string.as_str());
        s.append("\ntrack_length=");
        s.append(self.track_length.as_string.as_str());
        s.append("\nrepeat=");
        s.append(self.repeat.render());
        s.append("\nrandom=");
        s.append(self.random.render());
        s.append("\nsingle=");
        s.append(self.single.render());
        s.append("\nconsume=");
        s.append(self.consume.render());
        s
    }
}

} // verus!
