//! What the library shows of an audio file: its tags, with the defaults used
//! where a tag is missing, its length as `mm:ss`, and its cover as a data URL.
use vstd::prelude::*;
use vstd::string::*;

use crate::text::{concat2, concat3, decimal, decimal_string, str_eq};

verus! {

/// `n` as `{:02}` prints it: at least two digits, padded with zeros.
pub open spec fn two_digits(n: nat) -> Seq<char> {
    if n < 10 {
        "0"@ + decimal(n)
    } else {
        decimal(n)
    }
}

/// A length in seconds as `mm:ss` (minutes may take more than two digits).
pub open spec fn duration_text(secs: u32) -> Seq<char> {
    two_digits((secs / 60) as nat) + ":"@ + two_digits((secs % 60) as nat)
}

fn padded(n: u32) -> (r: String)
    ensures
        r@ == two_digits(n as nat),
{
    let digits = decimal_string(n as u64);
    if n < 10 {
        concat2("0", digits.as_str())
    } else {
        digits
    }
}

/// A length in seconds as `mm:ss`.
pub fn duration_label(secs: u32) -> (r: String)
    ensures
        r@ == duration_text(secs),
{
    let minutes = padded(secs / 60);
    let seconds = padded(secs % 60);
    concat3(minutes.as_str(), ":", seconds.as_str())
}

/// The file extensions (in lower case) of the audio files the library lists.
pub open spec fn is_music_ext(ext: Seq<char>) -> bool {
    ext == "mp3"@ || ext == "flac"@ || ext == "wav"@ || ext == "ogg"@ || ext == "m4a"@ || ext
        == "aac"@
}

/// Whether a file with extension `ext` (in lower case) is listed.
pub fn is_music_extension(ext: &str) -> (r: bool)
    ensures
        r == is_music_ext(ext@),
{
    str_eq(ext, "mp3") || str_eq(ext, "flac") || str_eq(ext, "wav") || str_eq(ext, "ogg")
        || str_eq(ext, "m4a") || str_eq(ext, "aac")
}

/// The text that `base64`'s standard engine (with padding) writes for `bytes`.
pub uninterp spec fn base64_standard(bytes: Seq<u8>) -> Seq<char>;

/// `base64::engine::general_purpose::STANDARD.encode`: the standard base64
/// text of `bytes`, named by `base64_standard`.
#[verifier::external_body]
fn encode_base64(bytes: &[u8]) -> (r: String)
    ensures
        r@ == base64_standard(bytes@),
{
    base64::Engine::encode(&base64::engine::general_purpose::STANDARD, bytes)
}

/// The MIME type of a cover that names none.
pub open spec fn default_mime() -> Seq<char> {
    "image/jpeg"@
}

/// The data URL of a cover picture: its MIME type (`image/jpeg` when it
/// names none) and its bytes in base64.
pub open spec fn cover_url(mime: Option<Seq<char>>, data: Seq<u8>) -> Seq<char> {
    let m = match mime {
        Some(t) => t,
        None => default_mime(),
    };
    "data:"@ + m + ";base64,"@ + base64_standard(data)
}

/// The data URL of a cover picture.
pub fn cover_data_url(mime: Option<&str>, data: &[u8]) -> (r: String)
    ensures
        r@ == cover_url(
            match mime {
                Some(t) => Some(t@),
                None => None,
            },
            data@,
        ),
{
    let encoded = encode_base64(data);
    let m = match mime {
        Some(t) => t,
        None => "image/jpeg",
    };
    let head = concat3("data:", m, ";base64,");
    concat2(head.as_str(), encoded.as_str())
}

/// A picture embedded in an audio file.
#[derive(Debug, Clone)]
pub struct CoverArt {
    pub mime: Option<String>,
    pub data: Vec<u8>,
}

/// What the tags of an audio file say.
#[derive(Debug, Clone)]
pub struct TrackTags {
    pub title: Option<String>,
    pub artist: Option<String>,
    pub album: Option<String>,
    pub track_number: Option<u32>,
    /// The front cover, else the back cover, if there is either.
    pub cover: Option<CoverArt>,
}

/// What the audio stream of a file is.
#[derive(Debug, Clone, Copy)]
pub struct AudioFacts {
    pub duration_secs: u32,
    pub sample_rate: u32,
    /// The overall bit rate, else the audio bit rate, else 0.
    pub bit_rate: u32,
    pub channels: u8,
}

/// An audio file as the library lists it.
#[derive(Debug, Clone)]
pub struct MusicFile {
    pub path: String,
    pub title: String,
    pub artist: String,
    pub album: String,
    pub duration_secs: u32,
    pub duration_formatted: String,
    pub sample_rate: u32,
    pub bit_rate: u32,
    pub channels: u8,
    pub track_number: Option<u32>,
    pub cover_base64: String,
}

/// The text of `o`, or `fallback` when there is none.
pub open spec fn text_or(o: Option<String>, fallback: Seq<char>) -> Seq<char> {
    match o {
        Some(s) => s@,
        None => fallback,
    }
}

/// The title shown: the tag's, else the file's stem, else `Unknown`.
pub open spec fn title_of(tags: Option<TrackTags>, stem: Option<String>) -> Seq<char> {
    match tags {
        Some(t) => match t.title {
            Some(s) => s@,
            None => text_or(stem, "Unknown"@),
        },
        None => text_or(stem, "Unknown"@),
    }
}

/// A tag's text, or `fallback` when the file has no tags or lacks it.
pub open spec fn tag_or(tag: Option<Option<String>>, fallback: Seq<char>) -> Seq<char> {
    match tag {
        Some(Some(s)) => s@,
        _ => fallback,
    }
}

fn text_or_exec(o: Option<String>, fallback: &str) -> (r: String)
    ensures
        r@ == text_or(o, fallback@),
{
    match o {
        Some(s) => s,
        None => String::from_str(fallback),
    }
}

impl MusicFile {
    /// The listing of the file at `path` (with stem `stem`), from what its
    /// audio stream and tags say; a file that could not be read has neither.
    pub fn assemble(
        path: String,
        stem: Option<String>,
        facts: Option<AudioFacts>,
        tags: Option<TrackTags>,
    ) -> (r: MusicFile)
        ensures
            r.path == path,
            r.title@ == title_of(tags, stem),
            r.artist@ == tag_or(
                match tags {
                    Some(t) => Some(t.artist),
                    None => None,
                },
                "Unknown Artist"@,
            ),
            r.album@ == tag_or(
                match tags {
                    Some(t) => Some(t.album),
                    None => None,
                },
                "Unknown Album"@,
            ),
            r.duration_secs == (match facts {
                Some(f) => f.duration_secs,
                None => 0,
            }),
            r.duration_formatted@ == duration_text(r.duration_secs),
            r.sample_rate == (match facts {
                Some(f) => f.sample_rate,
                None => 0,
            }),
            r.bit_rate == (match facts {
                Some(f) => f.bit_rate,
                None => 0,
            }),
            r.channels == (match facts {
                Some(f) => f.channels,
                None => 0,
            }),
            r.track_number == (match tags {
                Some(t) => t.track_number,
                None => None,
            }),
            r.cover_base64@ == (match tags {
                Some(t) => match t.cover {
                    Some(c) => cover_url(
                        match c.mime {
                            Some(m) => Some(m@),
                            None => None,
                        },
                        c.data@,
                    ),
                    None => Seq::<char>::empty(),
                },
                None => Seq::<char>::empty(),
            }),
    {
        let (duration_secs, sample_rate, bit_rate, channels) = match facts {
            Some(f) => (f.duration_secs, f.sample_rate, f.bit_rate, f.channels),
            None => (0, 0, 0, 0),
        };
        let duration_formatted = duration_label(duration_secs);
        let (title, artist, album, track_number, cover_base64) = match tags {
            Some(t) => {
                let title = match t.title {
                    Some(s) => s,
                    None => text_or_exec(stem, "Unknown"),
                };
                let cover = match t.cover {
                    Some(c) => {
                        let mime = match &c.mime {
                            Some(m) => Some(m.as_str()),
                            None => None,
                        };
                        cover_data_url(mime, c.data.as_slice())
                    },
                    None => String::new(),
                };
                (
                    title,
                    text_or_exec(t.artist, "Unknown Artist"),
                    text_or_exec(t.album, "Unknown Album"),
                    t.track_number,
                    cover,
                )
            },
            None => (
                text_or_exec(stem, "Unknown"),
                String::from_str("Unknown Artist"),
                String::from_str("Unknown Album"),
                None,
                String::new(),
            ),
        };
        MusicFile {
            path,
            title,
            artist,
            album,
            duration_secs,
            duration_formatted,
            sample_rate,
            bit_rate,
            channels,
            track_number,
            cover_base64,
        }
    }

    /// The length as `mm:ss`.
    pub fn display_duration(&self) -> (r: &str)
        ensures
            r@ == self.duration_formatted@,
    {
        self.duration_formatted.as_str()
    }
}

} // verus!
