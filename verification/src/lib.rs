use vstd::prelude::*;

pub mod client;
pub mod outputs;
pub mod range;
pub mod seek;
pub mod song;
pub mod stats;
pub mod status;
pub mod text;
pub mod volume;
pub mod time;

verus! {

/// Every failure the command-resolution layer can report.
#[derive(Debug)]
pub enum Error {
    /// Malformed or inverted range or index text.
    InvalidRange,
    /// A seek percentage outside 0–100, or one that does not parse.
    InvalidPercent,
    /// Percent-based input handed to a cross-track seek.
    SeekthroughPercentUnsupported,
    /// An output selector that names no known output.
    UnknownOutput,
    /// A toggle command with nothing to toggle.
    NoOutputsGiven,
    /// A volume delta that does not parse as a signed 8-bit integer.
    InvalidVolumeDelta,
    /// A cross-track seek visited a queue entry of unknown length.
    MissingTrackDuration,
    /// A cross-track seek that no entry absorbed within the wrap bound.
    SeekTargetUnreachable,
    /// A priority outside 0–255, or one that does not parse.
    InvalidPriority,
    /// A queue position past the end of the queue.
    PositionOutOfBounds,
    /// A crossfade duration that does not parse.
    InvalidCrossfade,
    /// A failure the daemon session reported, passed through as text.
    SessionError(String),
}

/// The text shown for each error kind.
pub open spec fn error_text(e: &Error) -> Seq<char> {
    match e {
        Error::InvalidRange => "invalid range, should be 'start:end' where start and end > 0"@,
        Error::InvalidPercent => "the seek position must be a value between 0 and 100"@,
        Error::SeekthroughPercentUnsupported
            => "seekthrough does not support percentage based seeking"@,
        Error::UnknownOutput => "unknown output"@,
        Error::NoOutputsGiven => "no outputs given"@,
        Error::InvalidVolumeDelta => "Invalid volume increment, must be between 1-100"@,
        Error::MissingTrackDuration => "a queue entry has no duration"@,
        Error::SeekTargetUnreachable
            => "the seek offset is not absorbed within one pass of the queue"@,
        Error::InvalidPriority => "the priority must be a value between 0 and 255"@,
        Error::PositionOutOfBounds
            => "position must be less than or equal to the queue length"@,
        Error::InvalidCrossfade => "the crossfade value is not 0 or a positive number"@,
        Error::SessionError(text) => text@,
    }
}

impl Error {
    /// The error's user-facing text.
    pub fn message(&self) -> (r: String)
        ensures
            r@ == error_text(self),
    {
        match self {
            Error::InvalidRange => String::from_str(
                "invalid range, should be 'start:end' where start and end > 0",
            ),
            Error::InvalidPercent => String::from_str(
                "the seek position must be a value between 0 and 100",
            ),
            Error::SeekthroughPercentUnsupported => String::from_str(
                "seekthrough does not support percentage based seeking",
            ),
            Error::UnknownOutput => String::from_str("unknown output"),
            Error::NoOutputsGiven => String::from_str("no outputs given"),
            Error::InvalidVolumeDelta => String::from_str(
                "Invalid volume increment, must be between 1-100",
            ),
            Error::MissingTrackDuration => String::from_str("a queue entry has no duration"),
            Error::SeekTargetUnreachable => String::from_str(
                "the seek offset is not absorbed within one pass of the queue",
            ),
            Error::InvalidPriority => String::from_str(
                "the priority must be a value between 0 and 255",
            ),
            Error::PositionOutOfBounds => String::from_str(
                "position must be less than or equal to the queue length",
            ),
            Error::InvalidCrossfade => String::from_str(
                "the crossfade value is not 0 or a positive number",
            ),
            Error::SessionError(text) => text.clone(),
        }
    }
}

/// A two-state toggle as the daemon reports it.
#[derive(Clone, Copy, Debug, PartialEq, Eq, Structural)]
pub enum OnOff {
    On,
    Off,
}

/// The word the status text uses for a toggle state.
pub open spec fn onoff_text(v: OnOff) -> Seq<char> {
    match v {
        OnOff::On => "on"@,
        OnOff::Off => "off"@,
    }
}

impl OnOff {
    pub fn from_bool(value: bool) -> (r: OnOff)
        ensures
            r == (if value { OnOff::On } else { OnOff::Off }),
    {
        if value {
            OnOff::On
        } else {
            OnOff::Off
        }
    }

    /// The toggle's word in the status text.
    pub fn render(&self) -> (r: &'static str)
        ensures
            r@ == onoff_text(*self),
    {
        match self {
            OnOff::On => "on",
            OnOff::Off => "off",
        }
    }
}

/// The given argument when one is present, otherwise the line read from
/// standard input, trimmed of surrounding whitespace.
pub fn input_or_stdin(path: Option<String>, line: &str) -> (r: String)
    ensures
        match path {
            Some(p) => r@ == p@,
            None => r@ == crate::text::trim_text(line@),
        },
{
    match path {
        Some(p) => p,
        None => crate::text::trim_str(line),
    }
}

/// How command responses are rendered; `Quiet` suppresses output entirely.
#[derive(Clone, Copy, Debug, PartialEq, Eq, Structural)]
pub enum OutputFormat {
    Text,
    Json,
    Quiet,
}

} // verus!
