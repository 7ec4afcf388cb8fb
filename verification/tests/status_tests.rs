use mpd_easy::OnOff;
use mpd_easy::input_or_stdin;
use mpd_easy::song::Current;
use mpd_easy::song::Finder;
use mpd_easy::song::Playlist;
use mpd_easy::song::Playlists;
use mpd_easy::song::Song;
use mpd_easy::song::Tag;
use mpd_easy::song::TrackList;
use mpd_easy::stats::Stats;
use mpd_easy::stats::Versions;
use mpd_easy::stats::version_text;
use mpd_easy::status::State;
use mpd_easy::status::Status;
use mpd_easy::time::Time;

#[test]
fn test_status_display_format() {
    let status = Status {
        volume: "100".to_string(),
        state: State::Play,
        artist: "Phish".to_string(),
        album: "A Picture Of Nectar".to_string(),
        title: "Chalk Dust Torture".to_string(),
        position: 3,
        queue_count: 10,
        elapsed: Time::from_secs(60),
        track_length: Time::from_secs(300),
        repeat: OnOff::Off,
        random: OnOff::On,
        single: OnOff::Off,
        consume: OnOff::Off,
        file_path: Some("path/to/file".to_string()),
    };

    let display_output = status.render();
    let expected_output = "volume=100\nstate=play\nartist=Phish\nalbum=A Picture Of Nectar\ntitle=Chalk Dust Torture\nposition=3\nqueue_count=10\nelapsed=00:01:00\ntrack_length=00:05:00\nrepeat=off\nrandom=on\nsingle=off\nconsume=off";

    assert_eq!(display_output, expected_output);
}

#[test]
fn test_stats_creation() {
    let stats = Stats::new(100, 200, 300, 1000, 5000, 6000, 1_000_000);

    assert_eq!(stats.artists, 100);
    assert_eq!(stats.albums, 200);
    assert_eq!(stats.songs, 300);
    assert_eq!(stats.uptime, "0 days, 0:16:40");
    assert_eq!(stats.playtime, "0 days, 1:23:20");
    assert_eq!(stats.db_playtime, "0 days, 1:40:00");

    assert!(!stats.db_update.is_empty());
}

#[test]
fn test_stats_db_update_date() {
    // The rendered update date depends on the epoch second alone.
    let stats = Stats::new(0, 0, 0, 0, 0, 0, 1_000_000);
    assert_eq!(stats.db_update, "Mon Jan 12 13:46:40 1970");
}

#[test]
fn test_stats_render() {
    let stats = Stats::new(1, 2, 3, 0, 0, 0, 0);
    let text = stats.render();
    assert!(text.starts_with("artists=1\nalbums=2\nsongs=3\nuptime=0 days, 0:00:00\n"));
}

#[test]
fn test_input_or_stdin_with_path() {
    let path = Some("some_path".to_string());

    let result = input_or_stdin(path, "not_used");
    assert_eq!(result, "some_path");
}

#[test]
fn main_test_input_or_stdin_with_path() {
    let path = Some("some_path".to_string());

    let result = input_or_stdin(path, "not_used");
    assert_eq!(result, "some_path");
}

#[test]
fn test_input_or_stdin_with_stdin() {
    let result = input_or_stdin(None, "from_stdin\n");
    assert_eq!(result, "from_stdin");
}

#[test]
fn main_test_input_or_stdin_with_stdin() {
    let result = input_or_stdin(None, "from_stdin\n");
    assert_eq!(result, "from_stdin");
}

#[test]
fn test_input_or_stdin_trims_both_ends() {
    assert_eq!(input_or_stdin(None, "  some song \r\n"), "some song");
    assert_eq!(input_or_stdin(None, " \n"), "");
}

#[test]
fn test_is_music_file() {
    assert!(Finder::is_music_file("test.mp3"));
    assert!(!Finder::is_music_file("test.txt"));
}

#[test]
fn test_is_music_file_edge_names() {
    assert!(Finder::is_music_file("/a/b/test.flac"));
    assert!(!Finder::is_music_file(".mp3"));
    assert!(!Finder::is_music_file("noext"));
    assert!(!Finder::is_music_file("dir.mp3/file"));
}

#[test]
fn test_finder_file_for() {
    let finder = Finder::new("/music".to_string());
    let file = finder.file_for("/music/song.mp3").unwrap();
    assert_eq!(file.full_path, "/music/song.mp3");
    assert_eq!(file.relative_path, "song.mp3");
    assert!(finder.file_for("/music/notes.txt").is_none());
    let outside = finder.file_for("/other/song.mp3").unwrap();
    assert_eq!(outside.relative_path, "other/song.mp3");
}

#[test]
fn test_current_from_song() {
    let song = Song {
        file: "f".to_string(),
        artist: Some("Phish".to_string()),
        title: None,
        duration: None,
        place: None,
    };
    let current = Current::from_song(&song);
    assert_eq!(current.artist, "Phish");
    assert_eq!(current.title, "");
    assert_eq!(current.render(), "Phish - \n");
}

#[test]
fn test_track_list_render() {
    let list = TrackList {
        songs: vec![
            Current { artist: "A".to_string(), title: "T".to_string() },
            Current { artist: "B".to_string(), title: "U".to_string() },
        ],
    };
    assert_eq!(list.render(), "0=A - T\n1=B - U\n");
}

#[test]
fn test_playlists_render() {
    let lists = Playlists {
        playlists: vec![
            Playlist::from_name("first".to_string()),
            Playlist::from_name("second".to_string()),
        ],
    };
    assert_eq!(lists.render(), "0=first1=second");
}

#[test]
fn test_versions_render() {
    let versions = Versions { mpd: "0.23.5".to_string(), mp_cli: "0.1.0".to_string() };
    assert_eq!(versions.render(), "mpd=0.23.5\nmp-cli=0.1.0");
    assert_eq!(version_text(0, 23, 5), "0.23.5");
}

#[test]
fn test_tag_names() {
    assert_eq!(Tag::AlbumArtist.to_str(), "AlbumArtist");
    assert_eq!(Tag::Any.to_str(), "Any");
}

#[test]
fn test_state_words() {
    assert_eq!(State::Play.render(), "play");
    assert_eq!(State::Pause.render(), "pause");
    assert_eq!(State::Stop.render(), "stop");
    assert_eq!(OnOff::On.render(), "on");
    assert_eq!(OnOff::Off.render(), "off");
}

#[test]
fn test_album_tag_case_folds() {
    let tags = vec![
        ("Genre".to_string(), "Rock".to_string()),
        ("ALBUM".to_string(), "A Picture Of Nectar".to_string()),
        ("album".to_string(), "Other".to_string()),
    ];
    assert_eq!(mpd_easy::song::album_tag(&tags), Some("A Picture Of Nectar".to_string()));

    let none = vec![("Genre".to_string(), "Rock".to_string())];
    assert_eq!(mpd_easy::song::album_tag(&none), None);
}
