//! In-track seek resolution and cross-track seeking over a cyclic queue.
use vstd::prelude::*;

use crate::Error;
use crate::song::Song;
use crate::text::contains_char;
use crate::text::contains_char_str;
use crate::text::parse_unsigned;
use crate::text::parse_unsigned_chars;
use crate::time::MAX_TIME_SECS;
use crate::time::Time;
use crate::time::parse_time_secs;

verus! {

/// `s` with every `%` removed, as `str::replace` leaves it.
pub open spec fn strip_percent(s: Seq<char>) -> Seq<char>
    decreases s.len(),
{
    if s.len() == 0 {
        Seq::<char>::empty()
    } else if s.last() == '%' {
        strip_percent(s.drop_last())
    } else {
        strip_percent(s.drop_last()).push(s.last())
    }
}

/// The percent a seek string denotes once its `%` signs are stripped,
/// read the way `str::parse::<u8>` would; `None` when that parse fails.
pub open spec fn percent_of(s: Seq<char>) -> Option<nat> {
    match parse_unsigned(strip_percent(s)) {
        Some(v) => if v <= 255 {
            Some(v)
        } else {
            None
        },
        None => None,
    }
}

/// The absolute in-track second a seek string asks for: a percentage of
/// the track length (floor division, rejected outside 0–100), a signed
/// offset from the elapsed time, or an absolute time.
pub open spec fn seek_target(s: Seq<char>, length: int, elapsed: int) -> Option<int> {
    if contains_char(s, '%') {
        match percent_of(s) {
            Some(p) => if p <= 100 {
                Some(length * p / 100)
            } else {
                None
            },
            None => None,
        }
    } else if contains_char(s, '-') {
        Some(elapsed - parse_time_secs(s))
    } else if contains_char(s, '+') {
        Some(elapsed + parse_time_secs(s))
    } else {
        Some(parse_time_secs(s) as int)
    }
}

/// Resolves a seek position string against the current track's length
/// and elapsed time; the result is the second to seek to within the
/// current queue entry. Only a malformed or out-of-range percentage is
/// an error; a relative target may be negative, which the daemon rejects
/// on its own.
pub fn resolve_seek(position: &str, elapsed: &Time, track_length: &Time) -> (r: Result<i64, Error>)
    requires
        elapsed.wf(),
        track_length.wf(),
    ensures
        match r {
            Ok(t) => seek_target(position@, track_length.as_secs as int, elapsed.as_secs as int)
                == Some(t as int),
            Err(e) => {
                &&& seek_target(
                    position@,
                    track_length.as_secs as int,
                    elapsed.as_secs as int,
                ) is None
                &&& e is InvalidPercent
            },
        },
{
    if contains_char_str(position, '%') {
        let n = position.unicode_len();
        let mut kept: Vec<char> = Vec::new();
        let mut i: usize = 0;
        while i < n
            invariant
                i <= n,
                n == position@.len(),
                kept@ == strip_percent(position@.subrange(0, i as int)),
            decreases n - i,
        {
            let c = position.get_char(i);
            proof {
                assert(position@.subrange(0, i as int + 1).drop_last() =~= position@.subrange(
                    0,
                    i as int,
                ));
                assert(position@.subrange(0, i as int + 1).last() == c);
            }
            if c != '%' {
                kept.push(c);
            }
            i += 1;
        }
        proof {
            assert(position@.subrange(0, n as int) =~= position@);
        }
        let parsed = parse_unsigned_chars(&kept);
        match parsed {
            Some(v) => {
                if v > 100 {
                    Err(Error::InvalidPercent)
                } else {
                    proof {
                        assert(track_length.as_secs * (v as i64) <= 0x7fff_ffff_ffff * 100)
                            by (nonlinear_arith)
                            requires
                                0 <= track_length.as_secs <= 0x7fff_ffff_ffff,
                                0 <= v <= 100,
                        ;
                    }
                    Ok(track_length.as_secs * (v as i64) / 100)
                }
            },
            None => Err(Error::InvalidPercent),
        }
    } else if contains_char_str(position, '+') || contains_char_str(position, '-') {
        Ok(elapsed.compute_offset(position))
    } else {
        let t = Time::parse(position);
        Ok(t.as_secs)
    }
}

/// Where a cross-track walk ends: a landing on a queue entry at an
/// in-track offset, a visited entry with no duration, or the wrap bound
/// running out before any entry absorbs the offset.
pub enum WalkEnd {
    Land(usize, u64),
    MissingDuration,
    Exhausted,
}

/// The forward walk: starting at `idx` with `elapsed` seconds already
/// played there, carry `place` seconds across entries, wrapping past the
/// end, until an entry's duration absorbs it; at most one full wrap per
/// queue entry before giving up.
pub open spec fn fwd_walk(queue: Seq<Song>, idx: int, elapsed: int, place: int, wraps: int) -> WalkEnd
    recommends
        0 <= idx < queue.len(),
    decreases queue.len() + 1 - wraps, queue.len() - idx
        when 0 <= idx < queue.len() && 0 <= wraps <= queue.len() + 1
{
    if wraps > queue.len() {
        WalkEnd::Exhausted
    } else {
        match queue[idx].duration {
            None => WalkEnd::MissingDuration,
            Some(d) => if d >= elapsed + place {
                WalkEnd::Land(idx as usize, (elapsed + place) as u64)
            } else {
                if idx + 1 == queue.len() {
                    fwd_walk(queue, 0, 0, elapsed + place - d, wraps + 1)
                } else {
                    fwd_walk(queue, idx + 1, 0, elapsed + place - d, wraps)
                }
            },
        }
    }
}

/// The backward walk: while time has elapsed on the current entry the
/// offset is taken out of it, afterwards out of each previous entry's
/// full duration, wrapping to the tail; at most one full wrap per queue
/// entry before giving up.
pub open spec fn rev_walk(queue: Seq<Song>, idx: int, elapsed: int, place: int, wraps: int) -> WalkEnd
    recommends
        0 <= idx < queue.len(),
    decreases queue.len() + 1 - wraps, idx
        when 0 <= idx < queue.len() && 0 <= wraps <= queue.len() + 1
{
    if wraps > queue.len() {
        WalkEnd::Exhausted
    } else {
        match queue[idx].duration {
            None => WalkEnd::MissingDuration,
            Some(d) => if elapsed > 0 {
                if elapsed >= place {
                    WalkEnd::Land(idx as usize, (elapsed - place) as u64)
                } else {
                    if idx == 0 {
                        rev_walk(queue, queue.len() - 1, 0, place - elapsed, wraps + 1)
                    } else {
                        rev_walk(queue, idx - 1, 0, place - elapsed, wraps)
                    }
                }
            } else {
                if d >= place {
                    WalkEnd::Land(idx as usize, (d - place) as u64)
                } else {
                    if idx == 0 {
                        rev_walk(queue, queue.len() - 1, 0, place - d, wraps + 1)
                    } else {
                        rev_walk(queue, idx - 1, 0, place - d, wraps)
                    }
                }
            },
        }
    }
}

/// A forward walk never lands outside the landed entry: the offset is at
/// most that entry's duration, which is known.
pub proof fn lemma_fwd_land_in_track(
    queue: Seq<Song>,
    idx: int,
    elapsed: int,
    place: int,
    wraps: int,
)
    requires
        queue.len() <= usize::MAX,
        0 <= idx < queue.len(),
        0 <= wraps <= queue.len() + 1,
        0 <= elapsed,
        0 <= place,
    ensures
        match fwd_walk(queue, idx, elapsed, place, wraps) {
            WalkEnd::Land(i, off) => {
                &&& i < queue.len()
                &&& queue[i as int].duration is Some
                &&& off <= queue[i as int].duration->Some_0
            },
            _ => true,
        },
    decreases queue.len() + 1 - wraps, queue.len() - idx,
{
    if wraps > queue.len() {
    } else {
        match queue[idx].duration {
            None => {},
            Some(d) => {
                if d >= elapsed + place {
                } else {
                    if idx + 1 == queue.len() {
                        lemma_fwd_land_in_track(queue, 0, 0, elapsed + place - d, wraps + 1);
                    } else {
                        lemma_fwd_land_in_track(queue, idx + 1, 0, elapsed + place - d, wraps);
                    }
                }
            },
        }
    }
}

/// A backward walk lands inside the landed entry as well, except on the
/// starting entry, where the landing lies within the already elapsed
/// time instead (which the daemon may report past the duration).
pub proof fn lemma_rev_land_in_track(
    queue: Seq<Song>,
    idx: int,
    elapsed: int,
    place: int,
    wraps: int,
)
    requires
        queue.len() <= usize::MAX,
        0 <= idx < queue.len(),
        0 <= wraps <= queue.len() + 1,
        0 <= elapsed,
        0 <= place,
    ensures
        match rev_walk(queue, idx, elapsed, place, wraps) {
            WalkEnd::Land(i, off) => {
                &&& i < queue.len()
                &&& queue[i as int].duration is Some
                &&& off <= queue[i as int].duration->Some_0 || (i == idx && off <= elapsed)
            },
            _ => true,
        },
    decreases queue.len() + 1 - wraps, idx,
{
    if wraps > queue.len() {
    } else {
        match queue[idx].duration {
            None => {},
            Some(d) => {
                if elapsed > 0 {
                    if elapsed >= place {
                    } else {
                        if idx == 0 {
                            lemma_rev_land_in_track(
                                queue,
                                queue.len() - 1,
                                0,
                                place - elapsed,
                                wraps + 1,
                            );
                        } else {
                            lemma_rev_land_in_track(queue, idx - 1, 0, place - elapsed, wraps);
                        }
                    }
                } else {
                    if d >= place {
                    } else {
                        if idx == 0 {
                            lemma_rev_land_in_track(
                                queue,
                                queue.len() - 1,
                                0,
                                place - d,
                                wraps + 1,
                            );
                        } else {
                            lemma_rev_land_in_track(queue, idx - 1, 0, place - d, wraps);
                        }
                    }
                }
            },
        }
    }
}

/// What a seekthrough string means against the fetched queue state: a
/// backward walk when the text carries `-`, a forward walk otherwise.
pub open spec fn seekthrough_walk(s: Seq<char>, queue: Seq<Song>, start: int, elapsed: int) -> WalkEnd {
    if contains_char(s, '-') {
        rev_walk(queue, start, elapsed, parse_time_secs(s) as int, 0)
    } else {
        fwd_walk(queue, start, elapsed, parse_time_secs(s) as int, 0)
    }
}

/// A cross-track landing point: which queue entry, and the second within
/// it, to seek to.
#[derive(Clone, Copy, Debug, PartialEq, Eq, Structural)]
pub struct SeekLanding {
    pub index: usize,
    pub offset: u64,
}

/// Resolves a signed seekthrough offset to a landing point by walking
/// the queue cyclically from the current position. Percent input is
/// rejected outright; a visited entry with no duration is an error, and
/// so is a walk that wraps more often than the queue is long.
pub fn resolve_seekthrough(position: &str, queue: &Vec<Song>, start: usize, elapsed: u64) -> (r:
    Result<SeekLanding, Error>)
    requires
        queue@.len() > 0,
        start < queue@.len(),
        elapsed <= MAX_TIME_SECS as u64,
    ensures
        match r {
            Ok(l) => {
                &&& !contains_char(position@, '%')
                &&& seekthrough_walk(position@, queue@, start as int, elapsed as int)
                    == WalkEnd::Land(l.index, l.offset)
                &&& l.index < queue@.len()
                &&& queue@[l.index as int].duration is Some
            },
            Err(e) => match e {
                Error::SeekthroughPercentUnsupported => contains_char(position@, '%'),
                Error::MissingTrackDuration => !contains_char(position@, '%')
                    && seekthrough_walk(position@, queue@, start as int, elapsed as int)
                    == WalkEnd::MissingDuration,
                Error::SeekTargetUnreachable => !contains_char(position@, '%')
                    && seekthrough_walk(position@, queue@, start as int, elapsed as int)
                    == WalkEnd::Exhausted,
                _ => false,
            },
        },
{
    if contains_char_str(position, '%') {
        return Err(Error::SeekthroughPercentUnsupported);
    }
    let t = Time::parse(position);
    let reverse = contains_char_str(position, '-');
    let n = queue.len();
    let mut idx = start;
    let mut el = elapsed;
    let mut pl = t.as_secs as u64;
    let mut wraps: usize = 0;
    if reverse {
        loop
            invariant
                n == queue@.len(),
                n > 0,
                idx < n,
                start < n,
                wraps <= n,
                el as int + pl as int <= 2 * (MAX_TIME_SECS as int),
                contains_char(position@, '-'),
                !contains_char(position@, '%'),
                rev_walk(queue@, start as int, elapsed as int, parse_time_secs(position@) as int, 0)
                    == rev_walk(queue@, idx as int, el as int, pl as int, wraps as int),
            decreases n - wraps, idx,
        {
            match queue[idx].duration {
                None => {
                    return Err(Error::MissingTrackDuration);
                },
                Some(d) => {
                    if el > 0 {
                        if el >= pl {
                            return Ok(SeekLanding { index: idx, offset: el - pl });
                        }
                        pl = pl - el;
                        el = 0;
                    } else {
                        if d >= pl {
                            return Ok(SeekLanding { index: idx, offset: d - pl });
                        }
                        pl = pl - d;
                    }
                    if idx == 0 {
                        idx = n - 1;
                        if wraps >= n {
                            proof {
                                assert(rev_walk(
                                    queue@,
                                    idx as int,
                                    el as int,
                                    pl as int,
                                    wraps as int + 1,
                                ) == WalkEnd::Exhausted);
                            }
                            return Err(Error::SeekTargetUnreachable);
                        }
                        wraps = wraps + 1;
                    } else {
                        idx = idx - 1;
                    }
                },
            }
        }
    } else {
        loop
            invariant
                n == queue@.len(),
                n > 0,
                idx < n,
                start < n,
                wraps <= n,
                el as int + pl as int <= 2 * (MAX_TIME_SECS as int),
                !contains_char(position@, '-'),
                !contains_char(position@, '%'),
                fwd_walk(queue@, start as int, elapsed as int, parse_time_secs(position@) as int, 0)
                    == fwd_walk(queue@, idx as int, el as int, pl as int, wraps as int),
            decreases n - wraps, n - idx,
        {
            match queue[idx].duration {
                None => {
                    return Err(Error::MissingTrackDuration);
                },
                Some(d) => {
                    let sum = el + pl;
                    if d >= sum {
                        return Ok(SeekLanding { index: idx, offset: sum });
                    }
                    pl = sum - d;
                    el = 0;
                    if idx + 1 == n {
                        idx = 0;
                        if wraps >= n {
                            proof {
                                assert(fwd_walk(
                                    queue@,
                                    idx as int,
                                    el as int,
                                    pl as int,
                                    wraps as int + 1,
                                ) == WalkEnd::Exhausted);
                            }
                            return Err(Error::SeekTargetUnreachable);
                        }
                        wraps = wraps + 1;
                    } else {
                        idx = idx + 1;
                    }
                },
            }
        }
    }
}

} // verus!
