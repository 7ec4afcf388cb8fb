//! Songs, track listings, playlists, and the music-file finder.
use vstd::prelude::*;

use crate::text::dec_digits;
use crate::text::str_eq;
use crate::text::starts_with_str;
use crate::text::u64_to_string;

verus! {

/// One song as the daemon reports it: its file, optional tags, its
/// duration in seconds when known, and its queue id when queued.
#[derive(Clone, Debug)]
pub struct Song {
    pub file: String,
    pub artist: Option<String>,
    pub title: Option<String>,
    pub duration: Option<u64>,
    pub place: Option<u32>,
}

/// The artist/title pair a track listing shows for one song.
#[derive(Clone, Debug)]
pub struct Current {
    pub artist: String,
    pub title: String,
}

/// What a `Current` built from a song shows: the tag when present, empty
/// text otherwise.
pub open spec fn tag_or_empty(tag: Option<String>) -> Seq<char> {
    match tag {
        Some(s) => s@,
        None => Seq::<char>::empty(),
    }
}

impl Current {
    /// The listing entry for a song: absent tags read as empty text.
    pub fn from_song(song: &Song) -> (r: Current)
        ensures
            r.artist@ == tag_or_empty(song.artist),
            r.title@ == tag_or_empty(song.title),
    {
        let artist = match &song.artist {
            Some(a) => a.clone(),
            None => String::new(),
        };
        let title = match &song.title {
            Some(t) => t.clone(),
            None => String::new(),
        };
        Current { artist, title }
    }

    /// The listing entry for a status snapshot.
    pub fn from_status(status: &crate::status::Status) -> (r: Current)
        ensures
            r.artist@ == status.artist@,
            r.title@ == status.title@,
    {
        Current { artist: status.artist.clone(), title: status.title.clone() }
    }

    /// One listing line: `artist - title`, newline-terminated.
    pub fn render(&self) -> (r: String)
        ensures
            r@ == current_text(self),
    {
        let mut s = self.artist.clone();
        s.append(" - ");
        s.append(self.title.as_str());
        s.append("\n");
        s
    }
}

/// The text of one listing entry.
pub open spec fn current_text(c: &Current) -> Seq<char> {
    c.artist@ + " - "@ + c.title@ + "\n"@
}

/// An ordered track listing.
#[derive(Clone, Debug)]
pub struct TrackList {
    pub songs: Vec<Current>,
}

/// The listing text: each entry on its own numbered line.
pub open spec fn track_list_text(songs: Seq<Current>) -> Seq<char>
    decreases songs.len(),
{
    if songs.len() == 0 {
        Seq::<char>::empty()
    } else {
        track_list_text(songs.drop_last()) + dec_digits((songs.len() - 1) as nat) + "="@
            + current_text(&songs.last())
    }
}

impl TrackList {
    /// Renders the listing as numbered `index=artist - title` lines.
    pub fn render(&self) -> (r: String)
        ensures
            r@ == track_list_text(self.songs@),
    {
        let n = self.songs.len();
        let mut s = String::new();
        let mut i: usize = 0;
        while i < n
            invariant
                i <= n,
                n == self.songs@.len(),
                s@ == track_list_text(self.songs@.subrange(0, i as int)),
            decreases n - i,
        {
            let num = u64_to_string(i as u64);
            s.append(num.as_str());
            s.append("=");
            let line = self.songs[i].render();
            s.append(line.as_str());
            proof {
                assert(self.songs@.subrange(0, i as int + 1).drop_last() =~= self.songs@.subrange(
                    0,
                    i as int,
                ));
                assert(self.songs@.subrange(0, i as int + 1).last() == self.songs@[i as int]);
            }
            i += 1;
        }
        proof {
            assert(self.songs@.subrange(0, n as int) =~= self.songs@);
        }
        s
    }
}

/// A stored playlist: its name, and its songs where they were fetched.
#[derive(Clone, Debug)]
pub struct Playlist {
    pub name: String,
    pub songs: Vec<Song>,
}

impl Playlist {
    /// A playlist known by name alone.
    pub fn from_name(name: String) -> (r: Playlist)
        ensures
            r.name@ == name@,
            r.songs@.len() == 0,
    {
        Playlist { name, songs: Vec::new() }
    }
}

/// The daemon's stored playlists.
#[derive(Clone, Debug)]
pub struct Playlists {
    pub playlists: Vec<Playlist>,
}

/// The playlists text: each name on a numbered `index=name` entry.
pub open spec fn playlists_text(ps: Seq<Playlist>) -> Seq<char>
    decreases ps.len(),
{
    if ps.len() == 0 {
        Seq::<char>::empty()
    } else {
        playlists_text(ps.drop_last()) + dec_digits((ps.len() - 1) as nat) + "="@
            + ps.last().name@
    }
}

impl Playlists {
    /// Renders the stored playlists as numbered `index=name` entries.
    pub fn render(&self) -> (r: String)
        ensures
            r@ == playlists_text(self.playlists@),
    {
        let n = self.playlists.len();
        let mut s = String::new();
        let mut i: usize = 0;
        while i < n
            invariant
                i <= n,
                n == self.playlists@.len(),
                s@ == playlists_text(self.playlists@.subrange(0, i as int)),
            decreases n - i,
        {
            let num = u64_to_string(i as u64);
            s.append(num.as_str());
            s.append("=");
            s.append(self.playlists[i].name.as_str());
            proof {
                assert(self.playlists@.subrange(0, i as int + 1).drop_last()
                    =~= self.playlists@.subrange(0, i as int));
                assert(self.playlists@.subrange(0, i as int + 1).last() == self.playlists@[i as int]);
            }
            i += 1;
        }
        proof {
            assert(self.playlists@.subrange(0, n as int) =~= self.playlists@);
        }
        s
    }
}

/// A found music file: where it lives, and its path relative to the
/// music directory.
#[derive(Clone, Debug)]
pub struct File {
    pub full_path: String,
    pub relative_path: String,
}

/// Walks paths under a music directory, keeping the music files.
#[derive(Clone, Debug)]
pub struct Finder {
    pub music_dir: String,
    pub found: Vec<File>,
}

/// Index of the last occurrence of `c` in `s`, or `-1`.
pub open spec fn last_index_of(s: Seq<char>, c: char) -> int
    decreases s.len(),
{
    if s.len() == 0 {
        -1
    } else if s.last() == c {
        s.len() - 1
    } else {
        last_index_of(s.drop_last(), c)
    }
}

proof fn lemma_last_index_of(s: Seq<char>, c: char)
    ensures
        -1 <= last_index_of(s, c) < s.len(),
        last_index_of(s, c) >= 0 ==> s[last_index_of(s, c)] == c,
        forall|k: int| last_index_of(s, c) < k < s.len() ==> s[k] != c,
    decreases s.len(),
{
    if s.len() > 0 && s.last() != c {
        lemma_last_index_of(s.drop_last(), c);
        assert(forall|k: int| 0 <= k < s.len() - 1 ==> s[k] == s.drop_last()[k]);
    }
}

/// The file-name extension: the text after the last `.` of the last path
/// component, provided that `.` is not the component's first character.
pub open spec fn extension_of(path: Seq<char>) -> Option<Seq<char>> {
    let name = path.subrange(last_index_of(path, '/') + 1, path.len() as int);
    let dot = last_index_of(name, '.');
    if dot <= 0 {
        None
    } else {
        Some(name.subrange(dot + 1, name.len() as int))
    }
}

/// The extensions the finder treats as music.
pub open spec fn is_music_extension(e: Seq<char>) -> bool {
    ||| e == "mp3"@
    ||| e == "ogg"@
    ||| e == "flac"@
    ||| e == "wav"@
    ||| e == "aac"@
    ||| e == "m4a"@
    ||| e == "wma"@
    ||| e == "opus"@
    ||| e == "dffs"@
    ||| e == "dsf"@
    ||| e == "ape"@
    ||| e == "tta"@
}

/// Whether a path names a music file: its extension is one of the known
/// music extensions.
pub open spec fn is_music_path(path: Seq<char>) -> bool {
    match extension_of(path) {
        Some(e) => is_music_extension(e),
        None => false,
    }
}

/// Finds the index just past the last occurrence of `c`, or 0.
fn index_past_last(s: &str, c: char) -> (r: usize)
    ensures
        r == last_index_of(s@, c) + 1,
{
    let n = s.unicode_len();
    let mut i: usize = n;
    while i > 0
        invariant
            i <= n,
            n == s@.len(),
            forall|k: int| i <= k < s@.len() ==> s@[k] != c,
        decreases i,
    {
        if s.get_char(i - 1) == c {
            proof {
                lemma_index_from_suffix(s@, c, i as int - 1);
            }
            return i;
        }
        i -= 1;
    }
    proof {
        lemma_no_occurrence(s@, c);
    }
    0
}

proof fn lemma_index_from_suffix(s: Seq<char>, c: char, at: int)
    requires
        0 <= at < s.len(),
        s[at] == c,
        forall|k: int| at < k < s.len() ==> s[k] != c,
    ensures
        last_index_of(s, c) == at,
    decreases s.len(),
{
    if at == s.len() - 1 {
    } else {
        assert(s.last() != c);
        assert(forall|k: int| 0 <= k < s.len() - 1 ==> s[k] == s.drop_last()[k]);
        lemma_index_from_suffix(s.drop_last(), c, at);
    }
}

proof fn lemma_no_occurrence(s: Seq<char>, c: char)
    requires
        forall|k: int| 0 <= k < s.len() ==> s[k] != c,
    ensures
        last_index_of(s, c) == -1,
    decreases s.len(),
{
    if s.len() > 0 {
        assert(forall|k: int| 0 <= k < s.len() - 1 ==> s[k] == s.drop_last()[k]);
        lemma_no_occurrence(s.drop_last(), c);
    }
}

impl Finder {
    /// A finder rooted at the given music directory, with nothing found.
    pub fn new(music_dir: String) -> (r: Finder)
        ensures
            r.music_dir@ == music_dir@,
            r.found@.len() == 0,
    {
        Finder { music_dir, found: Vec::<File>::new() }
    }

    /// Whether the path names a music file, judged by its extension.
    pub fn is_music_file(path: &str) -> (r: bool)
        ensures
            r == is_music_path(path@),
    {
        let n = path.unicode_len();
        let name_start = index_past_last(path, '/');
        proof {
            lemma_last_index_of(path@, '/');
        }
        let name = path.substring_char(name_start, n);
        let name_len = name.unicode_len();
        let ext_start = index_past_last(name, '.');
        proof {
            lemma_last_index_of(name@, '.');
        }
        if ext_start <= 1 {
            proof {
                lemma_last_index_of(name@, '.');
            }
            return false;
        }
        let ext = name.substring_char(ext_start, name_len);
        str_eq(ext, "mp3") || str_eq(ext, "ogg") || str_eq(ext, "flac") || str_eq(ext, "wav")
            || str_eq(ext, "aac") || str_eq(ext, "m4a") || str_eq(ext, "wma") || str_eq(
            ext,
            "opus",
        ) || str_eq(ext, "dffs") || str_eq(ext, "dsf") || str_eq(ext, "ape") || str_eq(ext, "tta")
    }
}

/// What `str::to_lowercase` returns: a function of the characters alone.
pub uninterp spec fn lower_of(s: Seq<char>) -> Seq<char>;

/// Relies on `str::to_lowercase`: the result depends on the characters
/// alone, in every process and on every machine.
#[verifier::external_body]
fn lowercase(s: &str) -> (r: String)
    ensures
        r@ == lower_of(s@),
{
    s.to_lowercase()
}

/// The value of the first tag whose lowercased key reads `album`.
pub open spec fn album_of(tags: Seq<(String, String)>) -> Option<Seq<char>>
    decreases tags.len(),
{
    if tags.len() == 0 {
        None
    } else if lower_of(tags.first().0@) == "album"@ {
        Some(tags.first().1@)
    } else {
        album_of(tags.drop_first())
    }
}

/// Picks the album out of a song's tag list: the first entry whose key,
/// case folded, is `album`.
pub fn album_tag(tags: &Vec<(String, String)>) -> (r: Option<String>)
    ensures
        match r {
            Some(v) => album_of(tags@) == Some(v@),
            None => album_of(tags@) is None,
        },
{
    let n = tags.len();
    let mut i: usize = 0;
    proof {
        assert(tags@.subrange(0, n as int) =~= tags@);
    }
    while i < n
        invariant
            i <= n,
            n == tags@.len(),
            album_of(tags@) == album_of(tags@.subrange(i as int, n as int)),
        decreases n - i,
    {
        proof {
            assert(tags@.subrange(i as int, n as int).first() == tags@[i as int]);
            assert(tags@.subrange(i as int, n as int).drop_first() =~= tags@.subrange(
                i as int + 1,
                n as int,
            ));
        }
        let folded = lowercase(tags[i].0.as_str());
        if str_eq(folded.as_str(), "album") {
            return Some(tags[i].1.clone());
        }
        i += 1;
    }
    proof {
        assert(tags@.subrange(n as int, n as int) =~= Seq::<(String, String)>::empty());
    }
    None
}

/// A tag a search or find command can query by.
#[derive(Clone, Copy, Debug, PartialEq, Eq, Structural)]
pub enum Tag {
    Artist,
    ArtistSort,
    Album,
    AlbumSort,
    AlbumArtist,
    AlbumSortOrder,
    Title,
    Track,
    Name,
    Genre,
    Date,
    Composer,
    Performer,
    Conductor,
    Work,
    Grouping,
    Comment,
    Disc,
    Label,
    MusicbrainzArtistId,
    MusicbrainzAlbumId,
    MusicbrainzAlbumArtistId,
    MusicbrainzTrackId,
    MusicbrainzReleaseTrackId,
    MusicbrainzWorkId,
    Any,
}

/// The protocol name of each query tag.
pub open spec fn tag_text(t: Tag) -> Seq<char> {
    match t {
        Tag::Artist => "Artist"@,
        Tag::ArtistSort => "ArtistSort"@,
        Tag::Album => "Album"@,
        Tag::AlbumSort => "AlbumSort"@,
        Tag::AlbumArtist => "AlbumArtist"@,
        Tag::AlbumSortOrder => "AlbumSortOrder"@,
        Tag::Title => "Title"@,
        Tag::Track => "Track"@,
        Tag::Name => "Name"@,
        Tag::Genre => "Genre"@,
        Tag::Date => "Date"@,
        Tag::Composer => "Composer"@,
        Tag::Performer => "Performer"@,
        Tag::Conductor => "Conductor"@,
        Tag::Work => "Work"@,
        Tag::Grouping => "Grouping"@,
        Tag::Comment => "Comment"@,
        Tag::Disc => "Disc"@,
        Tag::Label => "Label"@,
        Tag::MusicbrainzArtistId => "MusicbrainzArtistId"@,
        Tag::MusicbrainzAlbumId => "MusicbrainzAlbumId"@,
        Tag::MusicbrainzAlbumArtistId => "MusicbrainzAlbumArtistId"@,
        Tag::MusicbrainzTrackId => "MusicbrainzTrackId"@,
        Tag::MusicbrainzReleaseTrackId => "MusicbrainzReleaseTrackId"@,
        Tag::MusicbrainzWorkId => "MusicbrainzWorkId"@,
        Tag::Any => "Any"@,
    }
}

impl Tag {
    /// The tag's name as the protocol spells it.
    pub fn to_str(&self) -> (r: &'static str)
        ensures
            r@ == tag_text(*self),
    {
        match self {
            Tag::Artist => "Artist",
            Tag::ArtistSort => "ArtistSort",
            Tag::Album => "Album",
            Tag::AlbumSort => "AlbumSort",
            Tag::AlbumArtist => "AlbumArtist",
            Tag::AlbumSortOrder => "AlbumSortOrder",
            Tag::Title => "Title",
            Tag::Track => "Track",
            Tag::Name => "Name",
            Tag::Genre => "Genre",
            Tag::Date => "Date",
            Tag::Composer => "Composer",
            Tag::Performer => "Performer",
            Tag::Conductor => "Conductor",
            Tag::Work => "Work",
            Tag::Grouping => "Grouping",
            Tag::Comment => "Comment",
            Tag::Disc => "Disc",
            Tag::Label => "Label",
            Tag::MusicbrainzArtistId => "MusicbrainzArtistId",
            Tag::MusicbrainzAlbumId => "MusicbrainzAlbumId",
            Tag::MusicbrainzAlbumArtistId => "MusicbrainzAlbumArtistId",
            Tag::MusicbrainzTrackId => "MusicbrainzTrackId",
            Tag::MusicbrainzReleaseTrackId => "MusicbrainzReleaseTrackId",
            Tag::MusicbrainzWorkId => "MusicbrainzWorkId",
            Tag::Any => "Any",
        }
    }
}

/// The path relative to the music directory: the directory prefix is
/// stripped when present, and one leading `/` after it is dropped.
pub open spec fn relative_of(music_dir: Seq<char>, path: Seq<char>) -> Seq<char> {
    let base = if music_dir.len() <= path.len() && path.subrange(0, music_dir.len() as int)
        == music_dir {
        path.subrange(music_dir.len() as int, path.len() as int)
    } else {
        path
    };
    if base.len() > 0 && base[0] == '/' {
        base.subrange(1, base.len() as int)
    } else {
        base
    }
}

impl Finder {
    /// The `File` entry for a path: `Some` exactly for music files, with
    /// the path both in full and relative to the music directory.
    pub fn file_for(&self, path: &str) -> (r: Option<File>)
        ensures
            match r {
                Some(f) => {
                    &&& is_music_path(path@)
                    &&& f.full_path@ == path@
                    &&& f.relative_path@ == relative_of(self.music_dir@, path@)
                },
                None => !is_music_path(path@),
            },
    {
        let n = path.unicode_len();
        let dir_len = self.music_dir.unicode_len();
        let base = if starts_with_str(path, self.music_dir.as_str()) {
            path.substring_char(dir_len, n)
        } else {
            path
        };
        let base_len = base.unicode_len();
        let rel = if base_len > 0 && base.get_char(0) == '/' {
            base.substring_char(1, base_len)
        } else {
            base
        };
        if Self::is_music_file(path) {
            Some(File { full_path: path.to_owned(), relative_path: rel.to_owned() })
        } else {
            None
        }
    }
}

} // verus!
