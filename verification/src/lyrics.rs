//! Lyrics: the timestamped lines of an LRC text, and the whole document.
//!
//! A line is read in one of three ways. A tag line is no lyric line, whatever
//! else it holds. Another line with a timestamp is a lyric line: its time is
//! that of its first timestamp, its text is the line without that token, with
//! furigana rewritten as ruby markup. A line without a timestamp is passed
//! over. A timestamp that cannot be read as a time (a digit beyond ASCII in a
//! field, or a time beyond 64 bits of milliseconds) makes its line malformed,
//! and the first malformed line fails the whole text.

use vstd::prelude::*;
use crate::classes::{is_digit, is_plain_digit};
use crate::furigana::{annotate, ruby};
use crate::lines::{line_views, lines_of, split_lines};
use crate::tags::{extract_metadata, is_tag_line, tag_at_start, tags_of, Tag, TagValues};
use crate::text::{chars_of, push_range, string_of};
use crate::timestamp::{
    all_plain, find_stamp, first_stamp, lemma_digits_end_is, number, read_time, stamp_at,
    stamp_time, time_millis, Span,
};

verus! {

/// A lyric line: the time at which it is sung, in milliseconds from the
/// start, and its text.
#[derive(Debug)]
pub struct Lyric {
    pub time_millis: u64,
    pub text: String,
}

/// A lyric line as a value of specifications.
pub struct LyricLine {
    pub time_millis: nat,
    pub text: Seq<char>,
}

impl View for Lyric {
    type V = LyricLine;

    open spec fn view(&self) -> LyricLine {
        LyricLine { time_millis: self.time_millis as nat, text: self.text@ }
    }
}

/// The lyric lines behind a vector of lyrics.
pub open spec fn lyric_views(lyrics: Seq<Lyric>) -> Seq<LyricLine> {
    lyrics.map_values(|lyric: Lyric| lyric@)
}

/// How a line reads.
pub enum Reading {
    /// A tag line, or a line without a timestamp.
    NoLyric,
    /// A line whose timestamp gives no time.
    Malformed,
    /// A lyric line.
    Line(LyricLine),
}

/// How `line` reads.
pub open spec fn read_line(line: Seq<char>) -> Reading {
    if is_tag_line(line) {
        Reading::NoLyric
    } else {
        match first_stamp(line) {
            None => Reading::NoLyric,
            Some(span) => match stamp_time(line, span) {
                None => Reading::Malformed,
                Some(time) => Reading::Line(
                    LyricLine { time_millis: time, text: ruby(span.rest(line)) },
                ),
            },
        }
    }
}

/// The lyric lines among `lines`, in their order.
pub open spec fn lyrics_in(lines: Seq<Seq<char>>) -> Seq<LyricLine>
    decreases lines.len(),
{
    if lines.len() == 0 {
        Seq::empty()
    } else {
        let before = lyrics_in(lines.drop_last());
        match read_line(lines.last()) {
            Reading::Line(lyric) => before.push(lyric),
            _ => before,
        }
    }
}

/// The index of the first malformed line among `lines`, if there is one.
pub open spec fn first_malformed(lines: Seq<Seq<char>>) -> Option<int>
    decreases lines.len(),
{
    if lines.len() == 0 {
        None
    } else {
        match first_malformed(lines.drop_last()) {
            Some(index) => Some(index),
            None => if read_line(lines.last()) is Malformed {
                Some(lines.len() - 1)
            } else {
                None
            },
        }
    }
}

/// The lyrics of the text `content`: its lyric lines in their order, or the
/// index of its first malformed line.
pub open spec fn lyrics_of(content: Seq<char>) -> Result<Seq<LyricLine>, int> {
    let lines = lines_of(content);
    match first_malformed(lines) {
        Some(index) => Err(index),
        None => Ok(lyrics_in(lines)),
    }
}

/// A malformed timestamp; `line` is the index of its line, from 0.
#[derive(Debug)]
pub struct ParseError {
    pub line: usize,
}

/// A lyrics document: the tags of the song and its lyric lines.
#[derive(Debug)]
pub struct LyricMetadata {
    pub artist: String,
    pub album: String,
    pub title: String,
    pub lyrics: Vec<Lyric>,
}

/// A lyrics document as a value of specifications.
pub struct Document {
    pub tags: TagValues,
    pub lyrics: Seq<LyricLine>,
}

impl View for LyricMetadata {
    type V = Document;

    open spec fn view(&self) -> Document {
        Document {
            tags: TagValues { artist: self.artist@, album: self.album@, title: self.title@ },
            lyrics: lyric_views(self.lyrics@),
        }
    }
}

/// The document that the text `content` holds, or the index of its first
/// malformed line.
pub open spec fn document_of(content: Seq<char>) -> Result<Document, int> {
    match lyrics_of(content) {
        Ok(lyrics) => Ok(Document { tags: tags_of(content), lyrics }),
        Err(index) => Err(index),
    }
}

/// What was found at the path of a lyrics file.
#[derive(Debug)]
pub enum LyricsSource {
    /// Nothing is there.
    Missing,
    /// The file could not be read as text.
    Unreadable,
    /// The text of the file.
    Text(String),
}

/// Why a lyrics file gave no document.
#[derive(Debug)]
pub enum LyricsError {
    NotFound,
    ReadError,
    /// A malformed timestamp; `line` is the index of its line, from 0.
    ParseError { line: usize },
}

/// What a lyrics file gives: its document, or the reason why it gives none.
pub open spec fn file_outcome(source: LyricsSource) -> Result<Document, LyricsError> {
    match source {
        LyricsSource::Missing => Err(LyricsError::NotFound),
        LyricsSource::Unreadable => Err(LyricsError::ReadError),
        LyricsSource::Text(text) => match document_of(text@) {
            Ok(document) => Ok(document),
            Err(index) => Err(LyricsError::ParseError { line: index as usize }),
        },
    }
}

/// A tag line is never a lyric line, whatever timestamps it holds.
pub proof fn lemma_tag_line_is_no_lyric(line: Seq<char>)
    requires
        is_tag_line(line),
    ensures
        read_line(line) == Reading::NoLyric,
{
}

/// The line written as `[minutes:seconds.fraction]` in ASCII digits, with
/// `rest` behind it, is a lyric line. Its time is
/// `(minutes * 60 + seconds) * 1000 + fraction` milliseconds, and its text is
/// `rest` with furigana rewritten.
pub proof fn lemma_time_of_stamped_line(
    minutes: Seq<char>,
    seconds: Seq<char>,
    fraction: Seq<char>,
    rest: Seq<char>,
)
    requires
        minutes.len() > 0 && all_plain(minutes),
        seconds.len() > 0 && all_plain(seconds),
        fraction.len() > 0 && all_plain(fraction),
        time_millis(number(minutes), number(seconds), number(fraction)) <= u64::MAX,
    ensures
        read_line(
            seq!['['] + minutes + seq![':'] + seconds + seq!['.'] + fraction + seq![']'] + rest,
        ) == Reading::Line(
            LyricLine {
                time_millis: (number(minutes) * 60 + number(seconds)) * 1000 + number(fraction),
                text: ruby(rest),
            },
        ),
{
    let line = seq!['['] + minutes + seq![':'] + seconds + seq!['.'] + fraction + seq![']'] + rest;
    let colon = 1 + minutes.len() as int;
    let dot = colon + 1 + seconds.len();
    let close = dot + 1 + fraction.len();
    assert(line[0] == '[' && line[colon] == ':' && line[dot] == '.' && line[close] == ']');
    assert forall|i: int| 1 <= i < colon implies is_digit(#[trigger] line[i]) by {
        assert(line[i] == minutes[i - 1]);
    }
    assert forall|i: int| colon + 1 <= i < dot implies is_digit(#[trigger] line[i]) by {
        assert(line[i] == seconds[i - colon - 1]);
    }
    assert forall|i: int| dot + 1 <= i < close implies is_digit(#[trigger] line[i]) by {
        assert(line[i] == fraction[i - dot - 1]);
    }
    lemma_digits_end_is(line, 1, colon);
    lemma_digits_end_is(line, colon + 1, dot);
    lemma_digits_end_is(line, dot + 1, close);
    let span = Span { open: 0, colon, dot, close };
    assert(stamp_at(line, 0) == Some(span));
    assert(span.minutes(line) == minutes);
    assert(span.seconds(line) == seconds);
    assert(span.fraction(line) == fraction);
    assert(span.rest(line) == rest);
    assert(!is_tag_line(line)) by {
        assert(line[1] == minutes[0]);
        assert(is_plain_digit(line[1]));
        assert(Tag::Artist.opening()[1] == 'a');
        assert(Tag::Album.opening()[1] == 'a');
        assert(Tag::Title.opening()[1] == 't');
    }
}

/// How a line read.
#[derive(Debug)]
pub enum LineRead {
    /// A tag line, or a line without a timestamp.
    NoLyric,
    /// A line whose timestamp gives no time.
    Malformed,
    /// A lyric line.
    Line(Lyric),
}

impl View for LineRead {
    type V = Reading;

    open spec fn view(&self) -> Reading {
        match self {
            LineRead::NoLyric => Reading::NoLyric,
            LineRead::Malformed => Reading::Malformed,
            LineRead::Line(lyric) => Reading::Line(lyric@),
        }
    }
}

/// Reads one line.
pub fn read_lyric_line(line: &Vec<char>) -> (read: LineRead)
    ensures
        read@ == read_line(line@),
{
    if tag_at_start(line).is_some() {
        return LineRead::NoLyric;
    }
    match find_stamp(line) {
        None => LineRead::NoLyric,
        Some(stamp) => {
            match read_time(line, &stamp) {
                None => LineRead::Malformed,
                Some(time) => {
                    let n: usize = line.len();
                    let mut rest: Vec<char> = Vec::new();
                    push_range(&mut rest, line, 0, stamp.open);
                    push_range(&mut rest, line, stamp.close + 1, n);
                    assert(rest@ == stamp@.rest(line@));
                    let marked = annotate(&rest);
                    LineRead::Line(Lyric { time_millis: time, text: string_of(&marked) })
                },
            }
        },
    }
}

/// Reads the lyric lines of an LRC text, in their order. The call fails with
/// the index of the first malformed line where there is one.
pub fn extract_lyrics(content: &str) -> (read: Result<Vec<Lyric>, ParseError>)
    ensures
        match read {
            Ok(lyrics) => lyrics_of(content@) == Ok::<Seq<LyricLine>, int>(lyric_views(lyrics@)),
            Err(error) => lyrics_of(content@) == Err::<Seq<LyricLine>, int>(error.line as int),
        },
{
    let chars = chars_of(content);
    let lines = split_lines(&chars);
    let mut lyrics: Vec<Lyric> = Vec::new();
    let mut i: usize = 0;
    while i < lines.len()
        invariant
            i <= lines@.len(),
            line_views(lines@) == lines_of(content@),
            first_malformed(line_views(lines@).take(i as int)) is None,
            lyric_views(lyrics@) == lyrics_in(line_views(lines@).take(i as int)),
        decreases lines@.len() - i,
    {
        let ghost seen = line_views(lines@).take(i + 1);
        assert(seen.drop_last() == line_views(lines@).take(i as int));
        assert(seen.last() == lines@[i as int]@);
        match read_lyric_line(&lines[i]) {
            LineRead::NoLyric => {},
            LineRead::Malformed => {
                proof {
                    lemma_first_malformed_stays(line_views(lines@), i + 1);
                }
                return Err(ParseError { line: i });
            },
            LineRead::Line(lyric) => {
                let ghost before = lyric_views(lyrics@);
                lyrics.push(lyric);
                assert(lyric_views(lyrics@) == before.push(lyric@));
            },
        }
        i = i + 1;
    }
    assert(line_views(lines@).take(i as int) == line_views(lines@));
    Ok(lyrics)
}

/// Lines that follow a malformed one do not change which is first.
proof fn lemma_first_malformed_stays(lines: Seq<Seq<char>>, n: int)
    requires
        0 <= n <= lines.len(),
        first_malformed(lines.take(n)) is Some,
    ensures
        first_malformed(lines) == first_malformed(lines.take(n)),
    decreases lines.len() - n,
{
    if n < lines.len() {
        assert(lines.take(n + 1).drop_last() == lines.take(n));
        lemma_first_malformed_stays(lines, n + 1);
    } else {
        assert(lines.take(n) == lines);
    }
}

/// Reads an LRC text: its tags and its lyric lines. The call fails with the
/// index of the first malformed line where there is one.
pub fn parse_lyrics(content: &str) -> (parsed: Result<LyricMetadata, ParseError>)
    ensures
        match parsed {
            Ok(document) => document_of(content@) == Ok::<Document, int>(document@),
            Err(error) => document_of(content@) == Err::<Document, int>(error.line as int),
        },
{
    match extract_lyrics(content) {
        Err(error) => Err(error),
        Ok(lyrics) => {
            let metadata = extract_metadata(content);
            Ok(
                LyricMetadata {
                    artist: metadata.artist,
                    album: metadata.album,
                    title: metadata.title,
                    lyrics,
                },
            )
        },
    }
}

/// Turns what was found at the path of a lyrics file into its document. A
/// missing file gives `NotFound`, one that could not be read as text gives
/// `ReadError`, and a text with a malformed timestamp gives `ParseError` with
/// the index of the first such line.
pub fn parse_lyrics_file(source: &LyricsSource) -> (parsed: Result<LyricMetadata, LyricsError>)
    ensures
        match parsed {
            Ok(document) => file_outcome(*source) == Ok::<Document, LyricsError>(document@),
            Err(error) => file_outcome(*source) == Err::<Document, LyricsError>(error),
        },
{
    match source {
        LyricsSource::Missing => Err(LyricsError::NotFound),
        LyricsSource::Unreadable => Err(LyricsError::ReadError),
        LyricsSource::Text(text) => match parse_lyrics(text.as_str()) {
            Ok(document) => Ok(document),
            Err(error) => Err(LyricsError::ParseError { line: error.line }),
        },
    }
}

impl LyricsError {
    /// The failure in words.
    pub fn message(&self) -> (text: String)
        ensures
            text@ == match self {
                LyricsError::NotFound => "File not found"@,
                LyricsError::ReadError => "Failed to read file"@,
                LyricsError::ParseError { .. } => "Malformed timestamp"@,
            },
    {
        match self {
            LyricsError::NotFound => "File not found".to_string(),
            LyricsError::ReadError => "Failed to read file".to_string(),
            LyricsError::ParseError { .. } => "Malformed timestamp".to_string(),
        }
    }
}

} // verus!
