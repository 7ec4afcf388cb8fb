//! The decisions behind each command: which protocol operations to issue,
//! in what order, computed from already fetched daemon state.
use vstd::prelude::*;

use crate::Error;
use crate::OnOff;
use crate::range::Parser;
use crate::range::parse_range;
use crate::status::State;
use crate::text::parse_signed_i64;
use crate::text::parse_signed_str;
use crate::text::parse_unsigned;
use crate::text::parse_unsigned_str;
use crate::text::starts_with_str;
use crate::text::str_eq;

verus! {

/// A playback-level protocol operation.
#[derive(Clone, Copy, Debug, PartialEq, Eq, Structural)]
pub enum PlayerOp {
    Pause,
    Previous,
    Next,
    Play,
}

/// The stepwise jump to a queue index where no direct jump primitive
/// exists: pause, one `Previous`/`Next` per position of distance, play.
pub open spec fn jump_ops(current: u32, desired: u32) -> Seq<PlayerOp> {
    seq![PlayerOp::Pause] + (if current > desired {
        Seq::new((current - desired) as nat, |i: int| PlayerOp::Previous)
    } else {
        Seq::new((desired - current) as nat, |i: int| PlayerOp::Next)
    }) + seq![PlayerOp::Play]
}

/// Plans the simulated jump from `current` to `desired`: the caller
/// issues the returned operations in order, stopping at the first
/// failure (which leaves the daemon at an intermediate position).
pub fn plan_position_jump(current: u32, desired: u32) -> (r: Vec<PlayerOp>)
    ensures
        r@ == jump_ops(current, desired),
        r@.len() == 2 + (if current > desired {
            current - desired
        } else {
            desired - current
        }),
{
    let mut ops: Vec<PlayerOp> = Vec::new();
    ops.push(PlayerOp::Pause);
    let steps: u32 = if current > desired {
        current - desired
    } else {
        desired - current
    };
    let stepping = if current > desired {
        PlayerOp::Previous
    } else {
        PlayerOp::Next
    };
    let mut k: u32 = 0;
    while k < steps
        invariant
            k <= steps,
            stepping == (if current > desired {
                PlayerOp::Previous
            } else {
                PlayerOp::Next
            }),
            steps == (if current > desired {
                current - desired
            } else {
                desired - current
            }),
            ops@ =~= seq![PlayerOp::Pause] + Seq::new(k as nat, |i: int| stepping),
        decreases steps - k,
    {
        ops.push(stepping);
        proof {
            assert(ops@ =~= seq![PlayerOp::Pause] + Seq::new(k as nat + 1, |i: int| stepping));
        }
        k += 1;
    }
    ops.push(PlayerOp::Play);
    proof {
        assert(ops@ =~= jump_ops(current, desired));
    }
    ops
}

/// What the CD-player-style previous command does.
#[derive(Clone, Copy, Debug, PartialEq, Eq, Structural)]
pub enum CdPrevAction {
    GoPrevious,
    SeekStart(u32),
}

/// The queue position a status reports, zero when no song is current.
pub open spec fn pos_or_zero(p: Option<u32>) -> u32 {
    match p {
        Some(v) => v,
        None => 0,
    }
}

/// Decides the CD-player-style previous: within the first three seconds
/// of a track it moves to the previous song, later it rewinds the
/// current one to its start.
pub fn plan_cdprev(elapsed_secs: u64, song_pos: Option<u32>) -> (r: CdPrevAction)
    ensures
        r == (if elapsed_secs < 3 {
            CdPrevAction::GoPrevious
        } else {
            CdPrevAction::SeekStart(pos_or_zero(song_pos))
        }),
{
    if elapsed_secs < 3 {
        CdPrevAction::GoPrevious
    } else {
        match song_pos {
            Some(p) => CdPrevAction::SeekStart(p),
            None => CdPrevAction::SeekStart(0),
        }
    }
}

/// Decides play/pause toggling: a playing daemon is paused, a paused or
/// stopped one is started.
pub fn plan_toggle_playback(state: State) -> (r: PlayerOp)
    ensures
        r == (if state is Play {
            PlayerOp::Pause
        } else {
            PlayerOp::Play
        }),
{
    match state {
        State::Play => PlayerOp::Pause,
        State::Pause => PlayerOp::Play,
        State::Stop => PlayerOp::Play,
    }
}

/// Decides pause-if-playing: a pause only when the daemon is playing,
/// nothing (an error to the caller) otherwise.
pub fn pause_if_playing_action(state: State) -> (r: Option<PlayerOp>)
    ensures
        r == (if state is Play {
            Some(PlayerOp::Pause)
        } else {
            None::<PlayerOp>
        }),
{
    match state {
        State::Play => Some(PlayerOp::Pause),
        State::Pause => None,
        State::Stop => None,
    }
}

/// The state a mode toggle command sets: the given state, or the flip of
/// the current one when none was given.
pub fn resolve_mode(state: Option<OnOff>, current: bool) -> (r: bool)
    ensures
        r == (match state {
            Some(s) => s is On,
            None => !current,
        }),
{
    match state {
        Some(OnOff::On) => true,
        Some(OnOff::Off) => false,
        None => !current,
    }
}

/// Plans cropping the queue to the current song: delete everything
/// before the current position, then everything past the first entry;
/// an empty queue needs no deletions.
pub fn plan_crop(position: u32, queue_count: u32) -> (r: Option<((u32, u32), (u32, u32))>)
    ensures
        r == (if queue_count < 1 {
            None::<((u32, u32), (u32, u32))>
        } else {
            Some(((0u32, position), (1u32, queue_count)))
        }),
{
    if queue_count < 1 {
        None
    } else {
        Some(((0, position), (1, queue_count)))
    }
}

/// The crossfade seconds a command asks for: zero when no argument was
/// given, otherwise the argument as a signed integer, rejected when it
/// does not parse.
pub fn resolve_crossfade(seconds: Option<&str>) -> (r: Result<i64, Error>)
    ensures
        match r {
            Ok(v) => match seconds {
                Some(s) => parse_signed_i64(s@) == Some(v),
                None => v == 0,
            },
            Err(e) => {
                &&& e is InvalidCrossfade
                &&& match seconds {
                    Some(s) => parse_signed_i64(s@) is None,
                    None => false,
                }
            },
        },
{
    match seconds {
        Some(s) => match parse_signed_str(s) {
            Some(v) => Ok(v),
            None => Err(Error::InvalidCrossfade),
        },
        None => Ok(0),
    }
}

/// A priority value within the protocol's 0–255 range, read the way
/// `str::parse::<u32>` followed by a `u8` conversion reads it.
pub open spec fn prio_value(s: Seq<char>) -> Option<u8> {
    match parse_unsigned(s) {
        Some(v) => if v <= 255 {
            Some(v as u8)
        } else {
            None
        },
        None => None,
    }
}

/// A planned priority assignment: over a range of queue positions, or at
/// a single one.
#[derive(Clone, Copy, Debug, PartialEq, Eq, Structural)]
pub enum PrioPlan {
    Range(u32, u32, u8),
    Single(u32, u8),
}

/// Resolves a priority command: the priority must be 0–255, the position
/// text a valid range or index, and the start position at most the queue
/// length.
pub fn resolve_prio(priority: &str, position_or_range: &str, queue_size: u32) -> (r: Result<
    PrioPlan,
    Error,
>)
    ensures
        match r {
            Ok(plan) => {
                &&& prio_value(priority@) is Some
                &&& match parse_range(position_or_range@) {
                    Some((a, b, is_range)) => a <= queue_size && plan == (if is_range {
                        PrioPlan::Range(a, b, prio_value(priority@)->Some_0)
                    } else {
                        PrioPlan::Single(a, prio_value(priority@)->Some_0)
                    }),
                    None => false,
                }
            },
            Err(e) => match e {
                Error::InvalidPriority => prio_value(priority@) is None,
                Error::InvalidRange => prio_value(priority@) is Some && parse_range(
                    position_or_range@,
                ) is None,
                Error::PositionOutOfBounds => prio_value(priority@) is Some && match parse_range(
                    position_or_range@,
                ) {
                    Some((a, b, is_range)) => a > queue_size,
                    None => false,
                },
                _ => false,
            },
        },
{
    let parsed = parse_unsigned_str(priority);
    let prio: u8 = match parsed {
        Some(v) => {
            if v <= 255 {
                v as u8
            } else {
                return Err(Error::InvalidPriority);
            }
        },
        None => {
            return Err(Error::InvalidPriority);
        },
    };
    let parser = match Parser::new(position_or_range) {
        Ok(p) => p,
        Err(_) => {
            return Err(Error::InvalidRange);
        },
    };
    if parser.index > queue_size {
        return Err(Error::PositionOutOfBounds);
    }
    if parser.is_range {
        Ok(PrioPlan::Range(parser.range.start, parser.range.end, prio))
    } else {
        Ok(PrioPlan::Single(parser.index, prio))
    }
}

/// Validates the range given to a playlist load: only a true `N:M` range
/// is accepted there, a bare index is rejected like malformed text.
pub fn resolve_load_range(range: &str) -> (r: Result<(u32, u32), Error>)
    ensures
        match r {
            Ok((a, b)) => parse_range(range@) == Some((a, b, true)),
            Err(e) => {
                &&& e is InvalidRange
                &&& match parse_range(range@) {
                    Some((a, b, is_range)) => !is_range,
                    None => true,
                }
            },
        },
{
    match Parser::new(range) {
        Ok(p) => {
            if p.is_range {
                Ok((p.range.start, p.range.end))
            } else {
                Err(Error::InvalidRange)
            }
        },
        Err(_) => Err(Error::InvalidRange),
    }
}

/// The file names that begin with the given prefix, in order.
pub open spec fn files_with_prefix(files: Seq<String>, prefix: Seq<char>) -> Seq<Seq<char>>
    decreases files.len(),
{
    if files.len() == 0 {
        Seq::<Seq<char>>::empty()
    } else if files.last()@.len() >= prefix.len() && files.last()@.subrange(0, prefix.len() as int)
        == prefix {
        files_with_prefix(files.drop_last(), prefix).push(files.last()@)
    } else {
        files_with_prefix(files.drop_last(), prefix)
    }
}

/// Keeps the files that begin with the prefix; with no prefix the whole
/// listing is kept.
pub fn filter_files(files: &Vec<String>, prefix: Option<&str>) -> (r: Vec<String>)
    ensures
        match prefix {
            Some(p) => r@.map_values(|s: String| s@) == files_with_prefix(files@, p@),
            None => r@.map_values(|s: String| s@) == files@.map_values(|s: String| s@),
        },
{
    let n = files.len();
    let mut r: Vec<String> = Vec::new();
    match prefix {
        Some(p) => {
            let mut i: usize = 0;
            while i < n
                invariant
                    i <= n,
                    n == files@.len(),
                    r@.map_values(|s: String| s@) == files_with_prefix(
                        files@.subrange(0, i as int),
                        p@,
                    ),
                decreases n - i,
            {
                proof {
                    assert(files@.subrange(0, i as int + 1).drop_last() =~= files@.subrange(
                        0,
                        i as int,
                    ));
                    assert(files@.subrange(0, i as int + 1).last() == files@[i as int]);
                }
                if starts_with_str(files[i].as_str(), p) {
                    r.push(files[i].clone());
                    proof {
                        assert(r@.map_values(|s: String| s@) =~= files_with_prefix(
                            files@.subrange(0, i as int + 1),
                            p@,
                        ));
                    }
                }
                i += 1;
            }
            proof {
                assert(files@.subrange(0, n as int) =~= files@);
            }
        },
        None => {
            let mut i: usize = 0;
            while i < n
                invariant
                    i <= n,
                    n == files@.len(),
                    r@.len() == i,
                    forall|k: int| 0 <= k < i ==> (#[trigger] r@[k])@ == files@[k]@,
                decreases n - i,
            {
                r.push(files[i].clone());
                i += 1;
            }
            proof {
                assert(r@.map_values(|s: String| s@) =~= files@.map_values(|s: String| s@));
            }
        },
    }
    r
}

/// The way a path is put under a directory: an empty directory or an
/// absolute path leaves the path alone, otherwise a single separator
/// joins the two.
pub open spec fn path_join(dir: Seq<char>, v: Seq<char>) -> Seq<char> {
    if dir.len() == 0 {
        v
    } else if v.len() > 0 && v[0] == '/' {
        v
    } else if dir.last() == '/' {
        dir + v
    } else {
        dir + "/"@ + v
    }
}

/// Joins a directory and an entry the way path pushing does.
pub fn join_path(dir: &str, v: &str) -> (r: String)
    ensures
        r@ == path_join(dir@, v@),
{
    let dn = dir.unicode_len();
    let vn = v.unicode_len();
    if dn == 0 {
        return v.to_owned();
    }
    if vn > 0 && v.get_char(0) == '/' {
        return v.to_owned();
    }
    let mut s = dir.to_owned();
    if dir.get_char(dn - 1) != '/' {
        s.append("/");
    }
    s.append(v);
    s
}

/// The path a queued file is addressed by: as given when it already
/// lies under the music directory, otherwise joined onto it.
pub fn absolute_path(music_dir: &str, path: &str) -> (r: String)
    ensures
        r@ == (if path@.len() >= music_dir@.len() && path@.subrange(0, music_dir@.len() as int)
            == music_dir@ {
            path@
        } else {
            path_join(music_dir@, path@)
        }),
{
    if starts_with_str(path, music_dir) {
        path.to_owned()
    } else {
        join_path(music_dir, path)
    }
}

/// The directory entries a listing command prints: the entries whose key
/// matches the first entry's key (`directory` when the listing is
/// empty), each joined onto the listed directory.
pub open spec fn ls_values(listing: Seq<(String, String)>, filter_for: Seq<char>, dir: Seq<char>) -> Seq<
    Seq<char>,
>
    decreases listing.len(),
{
    if listing.len() == 0 {
        Seq::<Seq<char>>::empty()
    } else if listing.last().0@ == filter_for {
        ls_values(listing.drop_last(), filter_for, dir).push(path_join(dir, listing.last().1@))
    } else {
        ls_values(listing.drop_last(), filter_for, dir)
    }
}

/// The key whose entries a listing shows: the first entry's key, or
/// `directory` for an empty listing.
pub open spec fn ls_filter_key(listing: Seq<(String, String)>) -> Seq<char> {
    if listing.len() > 0 {
        listing[0].0@
    } else {
        "directory"@
    }
}

/// Filters a raw `(key, value)` listing to the entries of its leading
/// key and joins each value onto the listed directory.
pub fn ls_entries(listing: &Vec<(String, String)>, directory: &str) -> (r: Vec<String>)
    ensures
        r@.map_values(|s: String| s@) == ls_values(listing@, ls_filter_key(listing@), directory@),
{
    let n = listing.len();
    let mut r: Vec<String> = Vec::new();
    let mut i: usize = 0;
    while i < n
        invariant
            i <= n,
            n == listing@.len(),
            r@.map_values(|s: String| s@) == ls_values(
                listing@.subrange(0, i as int),
                ls_filter_key(listing@),
                directory@,
            ),
        decreases n - i,
    {
        proof {
            assert(listing@.subrange(0, i as int + 1).drop_last() =~= listing@.subrange(
                0,
                i as int,
            ));
            assert(listing@.subrange(0, i as int + 1).last() == listing@[i as int]);
        }
        let matches_key = if i == 0 {
            true
        } else {
            str_eq(listing[i].0.as_str(), listing[0].0.as_str())
        };
        proof {
            assert(ls_filter_key(listing@) == listing@[0].0@);
        }
        if matches_key {
            let joined = join_path(directory, listing[i].1.as_str());
            r.push(joined);
            proof {
                assert(r@.map_values(|s: String| s@) =~= ls_values(
                    listing@.subrange(0, i as int + 1),
                    ls_filter_key(listing@),
                    directory@,
                ));
            }
        }
        i += 1;
    }
    proof {
        assert(listing@.subrange(0, n as int) =~= listing@);
    }
    r
}

} // verus!
