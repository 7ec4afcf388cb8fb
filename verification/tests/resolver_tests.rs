use mpd_easy::Error;
use mpd_easy::OnOff;
use mpd_easy::client::CdPrevAction;
use mpd_easy::client::PlayerOp;
use mpd_easy::client::PrioPlan;
use mpd_easy::client::absolute_path;
use mpd_easy::client::filter_files;
use mpd_easy::client::ls_entries;
use mpd_easy::client::pause_if_playing_action;
use mpd_easy::client::plan_cdprev;
use mpd_easy::client::plan_crop;
use mpd_easy::client::plan_position_jump;
use mpd_easy::client::plan_toggle_playback;
use mpd_easy::client::resolve_crossfade;
use mpd_easy::client::resolve_load_range;
use mpd_easy::client::resolve_mode;
use mpd_easy::client::resolve_prio;
use mpd_easy::seek::SeekLanding;
use mpd_easy::seek::resolve_seek;
use mpd_easy::seek::resolve_seekthrough;
use mpd_easy::song::Song;
use mpd_easy::status::State;
use mpd_easy::time::Time;
use mpd_easy::volume::resolve_volume;

#[test]
fn test_volume_plus_clamps_at_hundred() {
    assert_eq!(resolve_volume(50, "+60").unwrap(), 100);
}

#[test]
fn test_volume_minus_clamps_at_zero() {
    assert_eq!(resolve_volume(10, "-50").unwrap(), 0);
}

#[test]
fn test_volume_absolute() {
    assert_eq!(resolve_volume(30, "45").unwrap(), 45);
}

#[test]
fn test_volume_absolute_unparsable_reads_zero() {
    assert_eq!(resolve_volume(30, "loud").unwrap(), 0);
    assert_eq!(resolve_volume(30, "200").unwrap(), 0);
}

#[test]
fn test_volume_bad_delta_is_rejected() {
    assert!(matches!(resolve_volume(50, "+abc"), Err(Error::InvalidVolumeDelta)));
    assert!(matches!(resolve_volume(50, "-200"), Err(Error::InvalidVolumeDelta)));
}

fn seek_state(elapsed: u64, length: u64) -> (Time, Time) {
    (Time::from_secs(elapsed), Time::from_secs(length))
}

#[test]
fn test_seek_percent() {
    let (elapsed, length) = seek_state(0, 300);
    assert_eq!(resolve_seek("50%", &elapsed, &length).unwrap(), 150);
}

#[test]
fn test_seek_percent_out_of_range() {
    let (elapsed, length) = seek_state(0, 300);
    assert!(matches!(resolve_seek("101%", &elapsed, &length), Err(Error::InvalidPercent)));
    assert!(matches!(resolve_seek("x%", &elapsed, &length), Err(Error::InvalidPercent)));
}

#[test]
fn test_seek_relative() {
    let (elapsed, length) = seek_state(5, 300);
    assert_eq!(resolve_seek("+0:15", &elapsed, &length).unwrap(), 20);
    let (elapsed, length) = seek_state(60, 300);
    assert_eq!(resolve_seek("-0:30", &elapsed, &length).unwrap(), 30);
}

#[test]
fn test_seek_absolute() {
    let (elapsed, length) = seek_state(5, 300);
    assert_eq!(resolve_seek("1:02:03", &elapsed, &length).unwrap(), 3723);
}

fn queued_song(duration: Option<u64>, place: u32) -> Song {
    Song { file: String::new(), artist: None, title: None, duration, place: Some(place) }
}

#[test]
fn test_seekthrough_forward_carries_over() {
    let queue = vec![queued_song(Some(100), 0), queued_song(Some(100), 1)];
    let landing = resolve_seekthrough("+20", &queue, 0, 90).unwrap();
    assert_eq!(landing, SeekLanding { index: 1, offset: 10 });
}

#[test]
fn test_seekthrough_forward_stays_in_track() {
    let queue = vec![queued_song(Some(100), 0), queued_song(Some(100), 1)];
    let landing = resolve_seekthrough("+5", &queue, 0, 90).unwrap();
    assert_eq!(landing, SeekLanding { index: 0, offset: 95 });
}

#[test]
fn test_seekthrough_reverse_within_elapsed() {
    let queue = vec![queued_song(Some(100), 0), queued_song(Some(100), 1)];
    let landing = resolve_seekthrough("-20", &queue, 0, 50).unwrap();
    assert_eq!(landing, SeekLanding { index: 0, offset: 30 });
}

#[test]
fn test_seekthrough_reverse_wraps_to_tail() {
    let queue = vec![queued_song(Some(100), 0), queued_song(Some(100), 1)];
    let landing = resolve_seekthrough("-70", &queue, 0, 50).unwrap();
    assert_eq!(landing, SeekLanding { index: 1, offset: 80 });
}

#[test]
fn test_seekthrough_rejects_percent() {
    let queue = vec![queued_song(Some(100), 0)];
    assert!(matches!(
        resolve_seekthrough("50%", &queue, 0, 0),
        Err(Error::SeekthroughPercentUnsupported)
    ));
}

#[test]
fn test_seekthrough_missing_duration() {
    let queue = vec![queued_song(Some(100), 0), queued_song(None, 1)];
    assert!(matches!(
        resolve_seekthrough("+150", &queue, 0, 0),
        Err(Error::MissingTrackDuration)
    ));
}

#[test]
fn test_seekthrough_zero_durations_give_up() {
    let queue = vec![queued_song(Some(0), 0), queued_song(Some(0), 1)];
    assert!(matches!(
        resolve_seekthrough("+10", &queue, 0, 0),
        Err(Error::SeekTargetUnreachable)
    ));
}

#[test]
fn test_crossfade_values() {
    assert_eq!(resolve_crossfade(Some("5")).unwrap(), 5);
    assert_eq!(resolve_crossfade(None).unwrap(), 0);
    assert!(matches!(resolve_crossfade(Some("soon")), Err(Error::InvalidCrossfade)));
}

#[test]
fn test_prio_single_and_range() {
    assert_eq!(resolve_prio("10", "5", 10).unwrap(), PrioPlan::Single(5, 10));
    assert_eq!(resolve_prio("10", "2:4", 10).unwrap(), PrioPlan::Range(2, 4, 10));
}

#[test]
fn test_prio_errors() {
    assert!(matches!(resolve_prio("300", "5", 10), Err(Error::InvalidPriority)));
    assert!(matches!(resolve_prio("ten", "5", 10), Err(Error::InvalidPriority)));
    assert!(matches!(resolve_prio("10", "5:3", 10), Err(Error::InvalidRange)));
    assert!(matches!(resolve_prio("10", "15", 10), Err(Error::PositionOutOfBounds)));
}

#[test]
fn test_load_range_must_be_a_range() {
    assert_eq!(resolve_load_range("2:5").unwrap(), (2, 5));
    assert!(matches!(resolve_load_range("5"), Err(Error::InvalidRange)));
    assert!(matches!(resolve_load_range("nope"), Err(Error::InvalidRange)));
}

#[test]
fn test_position_jump_backwards() {
    let ops = plan_position_jump(5, 2);
    assert_eq!(
        ops,
        vec![
            PlayerOp::Pause,
            PlayerOp::Previous,
            PlayerOp::Previous,
            PlayerOp::Previous,
            PlayerOp::Play
        ]
    );
}

#[test]
fn test_position_jump_forwards() {
    let ops = plan_position_jump(2, 4);
    assert_eq!(ops, vec![PlayerOp::Pause, PlayerOp::Next, PlayerOp::Next, PlayerOp::Play]);
}

#[test]
fn test_position_jump_in_place() {
    assert_eq!(plan_position_jump(3, 3), vec![PlayerOp::Pause, PlayerOp::Play]);
}

#[test]
fn test_cdprev_decision() {
    assert_eq!(plan_cdprev(2, Some(7)), CdPrevAction::GoPrevious);
    assert_eq!(plan_cdprev(10, Some(7)), CdPrevAction::SeekStart(7));
    assert_eq!(plan_cdprev(10, None), CdPrevAction::SeekStart(0));
}

#[test]
fn test_toggle_and_pause_decisions() {
    assert_eq!(plan_toggle_playback(State::Play), PlayerOp::Pause);
    assert_eq!(plan_toggle_playback(State::Stop), PlayerOp::Play);
    assert_eq!(pause_if_playing_action(State::Play), Some(PlayerOp::Pause));
    assert_eq!(pause_if_playing_action(State::Pause), None);
}

#[test]
fn test_mode_resolution() {
    assert!(resolve_mode(Some(OnOff::On), false));
    assert!(!resolve_mode(Some(OnOff::Off), true));
    assert!(resolve_mode(None, false));
    assert!(!resolve_mode(None, true));
}

#[test]
fn test_crop_plan() {
    assert_eq!(plan_crop(3, 10), Some(((0, 3), (1, 10))));
    assert_eq!(plan_crop(3, 0), None);
}

#[test]
fn test_filter_files() {
    let files = vec!["abc".to_string(), "abd".to_string(), "x".to_string()];
    let kept = filter_files(&files, Some("ab"));
    assert_eq!(kept, vec!["abc".to_string(), "abd".to_string()]);
    assert_eq!(filter_files(&files, None), files);
}

#[test]
fn test_ls_entries_keep_leading_key() {
    let listing = vec![
        ("directory".to_string(), "d1".to_string()),
        ("file".to_string(), "f1".to_string()),
        ("directory".to_string(), "d2".to_string()),
    ];
    assert_eq!(ls_entries(&listing, "root"), vec!["root/d1".to_string(), "root/d2".to_string()]);
    assert_eq!(ls_entries(&listing, ""), vec!["d1".to_string(), "d2".to_string()]);
    let empty: Vec<(String, String)> = Vec::new();
    assert_eq!(ls_entries(&empty, "root"), Vec::<String>::new());
}

#[test]
fn test_absolute_path() {
    assert_eq!(absolute_path("/music", "/music/a.mp3"), "/music/a.mp3");
    assert_eq!(absolute_path("/music", "a.mp3"), "/music/a.mp3");
}
