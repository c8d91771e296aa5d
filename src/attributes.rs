//! The unified attribute model, and its exchange with the tag containers.

use vstd::prelude::*;
use metaflac::block::VorbisComment;
use crate::error::SyncError;
use crate::paths::{extension, extension_of, flac_ext, mp3_ext};
use crate::text::{decimal, parse_i32, parse_i32_str, parse_u32, same_text};

verus! {

/// The descriptive metadata of one audio file.
#[derive(Clone, Debug)]
pub struct Attributes {
    pub album: Option<String>,
    pub artist: Vec<String>,
    pub title: Option<String>,
    pub track: Option<u32>,
    pub year: Option<i32>,
}

pub ghost struct AttributesView {
    pub album: Option<Seq<char>>,
    pub artist: Seq<Seq<char>>,
    pub title: Option<Seq<char>>,
    pub track: Option<u32>,
    pub year: Option<i32>,
}

pub open spec fn opt_text(o: Option<String>) -> Option<Seq<char>> {
    match o {
        Some(s) => Some(s@),
        None => None,
    }
}

impl View for Attributes {
    type V = AttributesView;

    open spec fn view(&self) -> AttributesView {
        AttributesView {
            album: opt_text(self.album),
            artist: self.artist.deep_view(),
            title: opt_text(self.title),
            track: self.track,
            year: self.year,
        }
    }
}

/// Attributes keyed by the path of the file they describe.
#[derive(Clone, Debug)]
pub struct FileAttributes {
    pub path: String,
    pub album: Option<String>,
    pub artist: Vec<String>,
    pub title: Option<String>,
    pub track: Option<u32>,
    pub year: Option<i32>,
}

pub ghost struct FileAttributesView {
    pub path: Seq<char>,
    pub attrs: AttributesView,
}

impl View for FileAttributes {
    type V = FileAttributesView;

    open spec fn view(&self) -> FileAttributesView {
        FileAttributesView {
            path: self.path@,
            attrs: AttributesView {
                album: opt_text(self.album),
                artist: self.artist.deep_view(),
                title: opt_text(self.title),
                track: self.track,
                year: self.year,
            },
        }
    }
}

/// The frames of an ID3v2 tag that the model reads.
#[derive(Clone, Debug)]
pub struct Id3Frames {
    pub album: Option<String>,
    pub artist: Option<String>,
    pub title: Option<String>,
    pub track: Option<u32>,
    pub year: Option<i32>,
}

/// The tag containers the model can read.
#[derive(Clone, Copy, Debug, PartialEq, Eq)]
pub enum TagFormat {
    Flac,
    Mp3,
}

pub open spec fn album_key() -> Seq<char> {
    seq!['A', 'L', 'B', 'U', 'M']
}

pub open spec fn album_sort_key() -> Seq<char> {
    seq!['A', 'L', 'B', 'U', 'M', 'S', 'O', 'R', 'T']
}

pub open spec fn artist_key() -> Seq<char> {
    seq!['A', 'R', 'T', 'I', 'S', 'T']
}

pub open spec fn artist_sort_key() -> Seq<char> {
    seq!['A', 'R', 'T', 'I', 'S', 'T', 'S', 'O', 'R', 'T']
}

pub open spec fn title_key() -> Seq<char> {
    seq!['T', 'I', 'T', 'L', 'E']
}

pub open spec fn title_sort_key() -> Seq<char> {
    seq!['T', 'I', 'T', 'L', 'E', 'S', 'O', 'R', 'T']
}

pub open spec fn track_key() -> Seq<char> {
    seq!['T', 'R', 'A', 'C', 'K', 'N', 'U', 'M', 'B', 'E', 'R']
}

pub open spec fn year_key() -> Seq<char> {
    seq!['Y', 'E', 'A', 'R']
}

#[verifier::external_type_specification]
#[verifier::external_body]
pub struct ExVorbisComment(VorbisComment);

/// The comments of a Vorbis comment block: each key with its values.
pub uninterp spec fn vorbis_entries(c: VorbisComment) -> Map<Seq<char>, Seq<Seq<char>>>;

/// The first value under `key`, if there is one.
pub open spec fn first_value(m: Map<Seq<char>, Seq<Seq<char>>>, key: Seq<char>) -> Option<Seq<char>> {
    if m.contains_key(key) && m[key].len() > 0 {
        Some(m[key][0])
    } else {
        None
    }
}

/// What the model reads from a Vorbis comment block.
pub open spec fn attributes_of_vorbis(m: Map<Seq<char>, Seq<Seq<char>>>) -> AttributesView {
    AttributesView {
        album: first_value(m, album_key()),
        artist: if m.contains_key(artist_key()) { m[artist_key()] } else { Seq::empty() },
        title: first_value(m, title_key()),
        track: match first_value(m, track_key()) {
            Some(v) => parse_u32(v),
            None => None,
        },
        year: match first_value(m, year_key()) {
            Some(v) => parse_i32(v),
            None => None,
        },
    }
}

/// A comment block after an update: album, title and track are set where
/// the update holds them, and the artists are always replaced. Setting
/// album, title or artist drops the matching sort key.
pub open spec fn vorbis_updated(
    m: Map<Seq<char>, Seq<Seq<char>>>,
    a: AttributesView,
) -> Map<Seq<char>, Seq<Seq<char>>> {
    let m1 = match a.album {
        Some(x) => m.remove(album_sort_key()).insert(album_key(), seq![x]),
        None => m,
    };
    let m2 = match a.title {
        Some(x) => m1.remove(title_sort_key()).insert(title_key(), seq![x]),
        None => m1,
    };
    let m3 = match a.track {
        Some(t) => m2.insert(track_key(), seq![decimal(t as nat)]),
        None => m2,
    };
    m3.remove(artist_sort_key()).insert(artist_key(), a.artist)
}

/// Relies on `VorbisComment::get`: the values stored under exactly `key`.
#[verifier::external_body]
fn vorbis_get(c: &VorbisComment, key: &str) -> (r: Option<Vec<String>>)
    ensures
        match r {
            Some(v) => vorbis_entries(*c).contains_key(key@) && v.deep_view() == vorbis_entries(
                *c,
            )[key@],
            None => !vorbis_entries(*c).contains_key(key@),
        },
{
    c.get(key).cloned()
}

/// Relies on `VorbisComment::track`: the first `TRACKNUMBER` value read by
/// `str::parse::<u32>`.
#[verifier::external_body]
fn vorbis_track(c: &VorbisComment) -> (r: Option<u32>)
    ensures
        r == match first_value(vorbis_entries(*c), track_key()) {
            Some(v) => parse_u32(v),
            None => None,
        },
{
    c.track()
}

/// Relies on `VorbisComment::set_album`: drops `ALBUMSORT` and stores the
/// values under `ALBUM`.
#[verifier::external_body]
fn vorbis_set_album(c: &mut VorbisComment, values: Vec<String>)
    ensures
        vorbis_entries(*final(c)) == vorbis_entries(*old(c)).remove(album_sort_key()).insert(
            album_key(),
            values.deep_view(),
        ),
{
    c.set_album(values)
}

/// Relies on `VorbisComment::set_title`: drops `TITLESORT` and stores the
/// values under `TITLE`.
#[verifier::external_body]
fn vorbis_set_title(c: &mut VorbisComment, values: Vec<String>)
    ensures
        vorbis_entries(*final(c)) == vorbis_entries(*old(c)).remove(title_sort_key()).insert(
            title_key(),
            values.deep_view(),
        ),
{
    c.set_title(values)
}

/// Relies on `VorbisComment::set_artist`: drops `ARTISTSORT` and stores the
/// values under `ARTIST`.
#[verifier::external_body]
fn vorbis_set_artist(c: &mut VorbisComment, values: Vec<String>)
    ensures
        vorbis_entries(*final(c)) == vorbis_entries(*old(c)).remove(artist_sort_key()).insert(
            artist_key(),
            values.deep_view(),
        ),
{
    c.set_artist(values)
}

/// Relies on `VorbisComment::set_track`: stores the decimal form of the
/// number as the one `TRACKNUMBER` value.
#[verifier::external_body]
fn vorbis_set_track(c: &mut VorbisComment, track: u32)
    ensures
        vorbis_entries(*final(c)) == vorbis_entries(*old(c)).insert(
            track_key(),
            seq![decimal(track as nat)],
        ),
{
    c.set_track(track)
}

fn first_of(values: Option<Vec<String>>) -> (r: Option<String>)
    ensures
        match values {
            Some(v) => r == if v.len() > 0 { Some(v[0]) } else { None::<String> },
            None => r.is_none(),
        },
{
    match values {
        Some(mut v) => {
            if v.len() > 0 {
                Some(v.swap_remove(0))
            } else {
                None
            }
        },
        None => None,
    }
}

/// Which tag container the path's extension names.
pub open spec fn format_of(p: Seq<char>) -> Option<TagFormat> {
    if extension(p) == Some(flac_ext()) {
        Some(TagFormat::Flac)
    } else if extension(p) == Some(mp3_ext()) {
        Some(TagFormat::Mp3)
    } else {
        None
    }
}

impl Attributes {
    /// Picks the tag container to read by the path's extension, before any
    /// file is touched.
    pub fn format_of_path(path: &str) -> (r: Result<TagFormat, SyncError>)
        ensures
            match r {
                Ok(f) => format_of(path@) == Some(f),
                Err(SyncError::UnsupportedFileType(p)) => format_of(path@).is_none() && p@ == path@,
                Err(_) => false,
            },
    {
        proof {
            reveal_strlit("flac");
            reveal_strlit("mp3");
            assert("flac"@ =~= flac_ext());
            assert("mp3"@ =~= mp3_ext());
        }
        match extension_of(path) {
            Some(e) => {
                if same_text(e, "flac") {
                    return Ok(TagFormat::Flac);
                }
                if same_text(e, "mp3") {
                    return Ok(TagFormat::Mp3);
                }
            },
            None => {},
        }
        Err(SyncError::UnsupportedFileType(path.to_owned()))
    }

    /// Reads the model out of a FLAC file's Vorbis comment block: the first
    /// album and title, every artist, and the track and the `YEAR` comment
    /// as numbers.
    pub fn from_vorbis(c: &VorbisComment) -> (r: Attributes)
        ensures
            r@ == attributes_of_vorbis(vorbis_entries(*c)),
    {
        proof {
            reveal_strlit("ALBUM");
            reveal_strlit("ARTIST");
            reveal_strlit("TITLE");
            reveal_strlit("YEAR");
            assert("ALBUM"@ =~= album_key());
            assert("ARTIST"@ =~= artist_key());
            assert("TITLE"@ =~= title_key());
            assert("YEAR"@ =~= year_key());
        }
        let album = first_of(vorbis_get(c, "ALBUM"));
        let artist = match vorbis_get(c, "ARTIST") {
            Some(v) => v,
            None => Vec::new(),
        };
        let title = first_of(vorbis_get(c, "TITLE"));
        let track = vorbis_track(c);
        let year = match first_of(vorbis_get(c, "YEAR")) {
            Some(y) => parse_i32_str(y.as_str()),
            None => None,
        };
        let r = Attributes { album, artist, title, track, year };
        proof {
            if !vorbis_entries(*c).contains_key(artist_key()) {
                assert(r.artist.deep_view() =~= Seq::<Seq<char>>::empty());
            }
        }
        r
    }

    /// Reads the model out of an ID3v2 tag's frames; the one artist becomes a
    /// sequence of one.
    pub fn from_id3(frames: Id3Frames) -> (r: Attributes)
        ensures
            r.album == frames.album,
            r.title == frames.title,
            r.track == frames.track,
            r.year == frames.year,
            r@.artist == match frames.artist {
                Some(a) => seq![a@],
                None => Seq::<Seq<char>>::empty(),
            },
    {
        let artist = match frames.artist {
            Some(a) => vec![a],
            None => Vec::new(),
        };
        let r = Attributes {
            album: frames.album,
            artist,
            title: frames.title,
            track: frames.track,
            year: frames.year,
        };
        assert(r@.artist =~= match frames.artist {
            Some(a) => seq![a@],
            None => Seq::<Seq<char>>::empty(),
        });
        r
    }

    /// Writes the model into a Vorbis comment block: album, title and track
    /// only where present, and the artists always, so that an empty sequence
    /// clears them.
    pub fn apply_to_vorbis(&self, c: &mut VorbisComment)
        ensures
            vorbis_entries(*final(c)) == vorbis_updated(vorbis_entries(*old(c)), self@),
    {
        let ghost m = vorbis_entries(*c);
        if let Some(album) = &self.album {
            let v = vec![album.clone()];
            assert(v.deep_view() =~= seq![album@]);
            vorbis_set_album(c, v);
        }
        if let Some(title) = &self.title {
            let v = vec![title.clone()];
            assert(v.deep_view() =~= seq![title@]);
            vorbis_set_title(c, v);
        }
        if let Some(track) = self.track {
            vorbis_set_track(c, track);
        }
        let artists = self.artist.clone();
        assert(artists.deep_view() =~= self.artist.deep_view());
        vorbis_set_artist(c, artists);
    }

    /// The attributes keyed by `path`.
    pub fn with_path(self, path: &str) -> (r: FileAttributes)
        ensures
            r@.path == path@,
            r@.attrs == self@,
    {
        FileAttributes {
            path: path.to_owned(),
            album: self.album,
            artist: self.artist,
            title: self.title,
            track: self.track,
            year: self.year,
        }
    }
}

/// An update that holds only a title leaves album and track as they were,
/// sets the title, and replaces the artists with exactly the update's, even
/// when it holds none.
pub proof fn lemma_title_only_update(m: Map<Seq<char>, Seq<Seq<char>>>, a: AttributesView)
    requires
        a.album.is_none(),
        a.track.is_none(),
        a.title.is_some(),
    ensures
        ({
            let u = vorbis_updated(m, a);
            &&& u.contains_key(album_key()) == m.contains_key(album_key())
            &&& u.contains_key(album_key()) ==> u[album_key()] == m[album_key()]
            &&& u.contains_key(track_key()) == m.contains_key(track_key())
            &&& u.contains_key(track_key()) ==> u[track_key()] == m[track_key()]
            &&& u[title_key()] == seq![a.title.unwrap()]
            &&& u[artist_key()] == a.artist
            &&& attributes_of_vorbis(u).album == attributes_of_vorbis(m).album
            &&& attributes_of_vorbis(u).track == attributes_of_vorbis(m).track
            &&& attributes_of_vorbis(u).artist == a.artist
        }),
{
    assert(album_key() != title_sort_key()) by { assert(album_key().len() != title_sort_key().len()); }
    assert(album_key() != title_key()) by { assert(album_key()[0] != title_key()[0]); }
    assert(album_key() != artist_sort_key()) by { assert(album_key().len() != artist_sort_key().len()); }
    assert(album_key() != artist_key()) by { assert(album_key().len() != artist_key().len()); }
    assert(track_key() != title_sort_key()) by { assert(track_key().len() != title_sort_key().len()); }
    assert(track_key() != title_key()) by { assert(track_key().len() != title_key().len()); }
    assert(track_key() != artist_sort_key()) by { assert(track_key().len() != artist_sort_key().len()); }
    assert(track_key() != artist_key()) by { assert(track_key().len() != artist_key().len()); }
    assert(title_key() != artist_sort_key()) by { assert(title_key().len() != artist_sort_key().len()); }
    assert(title_key() != artist_key()) by { assert(title_key().len() != artist_key().len()); }
}

} // verus!
