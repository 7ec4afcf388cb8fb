//! Library statistics, human-readable durations, and version reporting.
use vstd::prelude::*;

use chrono::TimeZone;

use crate::text::dec_digits;
use crate::text::pad2;
use crate::text::pad2_u64;
use crate::text::u64_to_string;

verus! {

/// A duration shown as `D days, H:MM:SS`; days and hours unpadded.
pub open spec fn human_duration_text(secs: nat) -> Seq<char> {
    dec_digits(secs / 86400) + " days, "@ + dec_digits((secs % 86400) / 3600) + ":"@ + pad2(
        (secs % 3600) / 60,
    ) + ":"@ + pad2(secs % 60)
}

/// A second count that renders as `D days, H:MM:SS`.
#[derive(Clone, Copy, Debug, PartialEq, Eq, Structural)]
pub struct HumanReadableDuration(pub u64);

impl From<u64> for HumanReadableDuration {
    fn from(secs: u64) -> (r: HumanReadableDuration) {
        HumanReadableDuration(secs)
    }
}

impl vstd::std_specs::convert::FromSpecImpl<u64> for HumanReadableDuration {
    open spec fn obeys_from_spec() -> bool {
        true
    }

    open spec fn from_spec(secs: u64) -> HumanReadableDuration {
        HumanReadableDuration(secs)
    }
}

impl HumanReadableDuration {
    /// The `D days, H:MM:SS` text.
    pub fn to_string(&self) -> (r: String)
        ensures
            r@ == human_duration_text(self.0 as nat),
    {
        let secs = self.0;
        let mut s = u64_to_string(secs / 86400);
        s.append(" days, ");
        let hours = u64_to_string((secs % 86400) / 3600);
        s.append(hours.as_str());
        s.append(":");
        let mins = pad2_u64((secs % 3600) / 60);
        s.append(mins.as_str());
        s.append(":");
        let rest = pad2_u64(secs % 60);
        s.append(rest.as_str());
        s
    }
}

/// The date text shown for the last database update; a function of the
/// epoch second alone.
pub uninterp spec fn db_update_text(seconds: i64) -> Seq<char>;

/// Relies on chrono's `TimeZone::timestamp_opt` on `Utc` and
/// `DateTime::format` with a fixed English pattern: the rendering depends
/// on the epoch second alone, and an unrepresentable second renders as
/// empty text.
#[verifier::external_body]
fn format_db_update(seconds: i64) -> (r: String)
    ensures
        r@ == db_update_text(seconds),
{
    match chrono::Utc.timestamp_opt(seconds, 0) {
        chrono::LocalResult::Single(date_time) => {
            date_time.format("%a %b %d %H:%M:%S %Y").to_string()
        },
        _ => String::new(),
    }
}

/// Database and playback statistics, with durations and the update date
/// already rendered as text.
#[derive(Clone, Debug)]
pub struct Stats {
    pub artists: u32,
    pub albums: u32,
    pub songs: u32,
    pub uptime: String,
    pub playtime: String,
    pub db_playtime: String,
    pub db_update: String,
}

impl Stats {
    /// Builds the statistics report from raw daemon counters: the three
    /// durations are rendered human-readably, and the update instant
    /// (clamped into `i64` range) as a date.
    pub fn new(
        artists: u32,
        albums: u32,
        songs: u32,
        uptime: u64,
        playtime: u64,
        db_playtime: u64,
        db_update: u64,
    ) -> (r: Stats)
        ensures
            r.artists == artists,
            r.albums == albums,
            r.songs == songs,
            r.uptime@ == human_duration_text(uptime as nat),
            r.playtime@ == human_duration_text(playtime as nat),
            r.db_playtime@ == human_duration_text(db_playtime as nat),
            r.db_update@ == db_update_text(
                if db_update > i64::MAX as u64 {
                    i64::MAX
                } else {
                    db_update as i64
                },
            ),
    {
        let seconds: i64 = if db_update > 0x7fff_ffff_ffff_ffffu64 {
            i64::MAX
        } else {
            db_update as i64
        };
        Stats {
            artists,
            albums,
            songs,
            uptime: HumanReadableDuration(uptime).to_string(),
            playtime: HumanReadableDuration(playtime).to_string(),
            db_playtime: HumanReadableDuration(db_playtime).to_string(),
            db_update: format_db_update(seconds),
        }
    }

    /// The plain-text report: one `key=value` line per statistic.
    pub fn render(&self) -> (r: String)
        ensures
            r@ == "artists="@ + dec_digits(self.artists as nat) + "\nalbums="@ + dec_digits(
                self.albums as nat,
            ) + "\nsongs="@ + dec_digits(self.songs as nat) + "\nuptime="@ + self.uptime@
                + "\nplaytime="@ + self.playtime@ + "\ndb_playtime="@ + self.db_playtime@
                + "\ndb_update="@ + self.db_update@,
    {
        let mut s = String::from_str("artists=");
        let artists = u64_to_string(self.artists as u64);
        s.append(artists.as_str());
        s.append("\nalbums=");
        let albums = u64_to_string(self.albums as u64);
        s.append(albums.as_str());
        s.append("\nsongs=");
        let songs = u64_to_string(self.songs as u64);
        s.append(songs.as_str());
        s.append("\nuptime=");
        s.append(self.uptime.as_str());
        s.append("\nplaytime=");
        s.append(self.playtime.as_str());
        s.append("\ndb_playtime=");
        s.append(self.db_playtime.as_str());
        s.append("\ndb_update=");
        s.append(self.db_update.as_str());
        s
    }
}

/// The dotted `major.minor.patch` text of a protocol version triple.
pub fn version_text(major: u16, minor: u16, patch: u16) -> (r: String)
    ensures
        r@ == dec_digits(major as nat) + "."@ + dec_digits(minor as nat) + "."@ + dec_digits(
            patch as nat,
        ),
{
    let mut s = u64_to_string(major as u64);
    s.append(".");
    let mid = u64_to_string(minor as u64);
    s.append(mid.as_str());
    s.append(".");
    let last = u64_to_string(patch as u64);
    s.append(last.as_str());
    s
}

/// The daemon's protocol version beside this client's own.
#[derive(Clone, Debug)]
pub struct Versions {
    pub mpd: String,
    pub mp_cli: String,
}

impl Versions {
    /// The two versions as `mpd=`/`mp-cli=` lines.
    pub fn render(&self) -> (r: String)
        ensures
            r@ == "mpd="@ + self.mpd@ + "\nmp-cli="@ + self.mp_cli@,
    {
        let mut s = String::from_str("mpd=");
        s.append(self.mpd.as_str());
        s.append("\nmp-cli=");
        s.append(self.mp_cli.as_str());
        s
    }
}

} // verus!
