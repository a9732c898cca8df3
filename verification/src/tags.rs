//! Metadata tags of an LRC text: `[ar:..]`, `[al:..]` and `[ti:..]`.
//!
//! A line that begins with one of the three openings is a tag line. Its value
//! is what stands between the opening and the first `]` (or the end of the
//! line), trimmed; whatever follows that bracket is dropped. Where a tag comes
//! more than once, its last line counts.

use vstd::prelude::*;
use crate::lines::{line_views, lines_of, split_lines, strip_cr, lemma_lines_hold_no_line_feed, lemma_lines_of_joined};
use crate::text::{
    chars_of, copy_range, find_stop, is_trimmed, len_until, lemma_len_until, lemma_len_until_is,
    lemma_trim_is_trimmed, lemma_trim_keeps_absence, lemma_trimmed_is_fixed, string_of, trim,
    trim_range,
};

verus! {

/// The three tags that are read.
#[derive(Clone, Copy, Debug)]
pub enum Tag {
    Artist,
    Album,
    Title,
}

impl Tag {
    /// The four characters with which a line of this tag begins.
    pub open spec fn opening(self) -> Seq<char> {
        match self {
            Tag::Artist => seq!['[', 'a', 'r', ':'],
            Tag::Album => seq!['[', 'a', 'l', ':'],
            Tag::Title => seq!['[', 't', 'i', ':'],
        }
    }
}

/// The tag whose opening `line` begins with, if any.
pub open spec fn tag_of_line(line: Seq<char>) -> Option<Tag> {
    if Tag::Artist.opening().is_prefix_of(line) {
        Some(Tag::Artist)
    } else if Tag::Album.opening().is_prefix_of(line) {
        Some(Tag::Album)
    } else if Tag::Title.opening().is_prefix_of(line) {
        Some(Tag::Title)
    } else {
        None
    }
}

/// Whether `line` is a tag line.
pub open spec fn is_tag_line(line: Seq<char>) -> bool {
    tag_of_line(line) is Some
}

/// The value that a tag line carries.
pub open spec fn tag_value(line: Seq<char>) -> Seq<char> {
    let body = line.skip(4);
    trim(body.take(len_until(body, ']') as int))
}

/// The value of the last line of `lines` that carries `tag`; empty where no
/// line does.
pub open spec fn last_value(lines: Seq<Seq<char>>, tag: Tag) -> Seq<char>
    decreases lines.len(),
{
    if lines.len() == 0 {
        Seq::empty()
    } else if tag_of_line(lines.last()) == Some(tag) {
        tag_value(lines.last())
    } else {
        last_value(lines.drop_last(), tag)
    }
}

/// The tags of a song as texts.
pub struct TagValues {
    pub artist: Seq<char>,
    pub album: Seq<char>,
    pub title: Seq<char>,
}

/// The tags that the text `content` carries.
pub open spec fn tags_of(content: Seq<char>) -> TagValues {
    let lines = lines_of(content);
    TagValues {
        artist: last_value(lines, Tag::Artist),
        album: last_value(lines, Tag::Album),
        title: last_value(lines, Tag::Title),
    }
}

/// The tags of a song. A tag that the lyrics do not carry is empty.
#[derive(Debug)]
pub struct SongMetadata {
    pub artist: String,
    pub album: String,
    pub title: String,
}

impl View for SongMetadata {
    type V = TagValues;

    open spec fn view(&self) -> TagValues {
        TagValues { artist: self.artist@, album: self.album@, title: self.title@ }
    }
}

/// A value as tag lines yield it: trimmed, on one line, without a closing
/// bracket.
pub open spec fn is_tag_text(value: Seq<char>) -> bool {
    &&& is_trimmed(value)
    &&& !value.contains(']')
    &&& !value.contains('\n')
}

/// The line that carries `value` under `tag`, closed by a line feed.
pub open spec fn tag_line(tag: Tag, value: Seq<char>) -> Seq<char> {
    tag.opening() + value + seq![']'] + seq!['\n']
}

/// The three tag lines of `tags`: artist, album, title.
pub open spec fn tag_lines(tags: TagValues) -> Seq<char> {
    tag_line(Tag::Artist, tags.artist) + tag_line(Tag::Album, tags.album) + tag_line(
        Tag::Title,
        tags.title,
    )
}

/// The value of a tag line written under any tag is the value written.
pub proof fn lemma_value_of_written_line(tag: Tag, value: Seq<char>)
    requires
        is_tag_text(value),
    ensures
        tag_of_line(tag.opening() + value + seq![']']) == Some(tag),
        tag_value(tag.opening() + value + seq![']']) == value,
{
    let line = tag.opening() + value + seq![']'];
    assert(line.subrange(0, 4) == tag.opening());
    assert(tag.opening()[1] == line[1]);
    assert(tag.opening()[2] == line[2]);
    assert(Tag::Artist.opening()[2] == 'r' && Tag::Album.opening()[2] == 'l');
    assert(Tag::Title.opening()[1] == 't' && Tag::Artist.opening()[1] == 'a');
    assert(Tag::Album.opening()[1] == 'a');
    let body = line.skip(4);
    assert(body == value + seq![']']);
    assert forall|i: int| 0 <= i < value.len() implies body[i] != ']' by {
        assert(value.contains(value[i]));
    }
    lemma_len_until_is(body, ']', value.len() as int);
    assert(body.take(value.len() as int) == value);
    lemma_trimmed_is_fixed(value);
}

/// Every tag value read from lines without line feeds is a tag text.
pub proof fn lemma_last_value_is_tag_text(lines: Seq<Seq<char>>, tag: Tag)
    requires
        forall|k: int| 0 <= k < lines.len() ==> !(#[trigger] lines[k]).contains('\n'),
    ensures
        is_tag_text(last_value(lines, tag)),
    decreases lines.len(),
{
    if lines.len() == 0 {
    } else if tag_of_line(lines.last()) == Some(tag) {
        let line = lines.last();
        let body = line.skip(4);
        let n = len_until(body, ']') as int;
        let raw = body.take(n);
        lemma_len_until(body, ']');
        assert(!raw.contains(']'));
        assert(!raw.contains('\n')) by {
            if raw.contains('\n') {
                let i = choose|i: int| 0 <= i < raw.len() && raw[i] == '\n';
                assert(line[i + 4] == '\n');
            }
        }
        lemma_trim_keeps_absence(raw, ']');
        lemma_trim_keeps_absence(raw, '\n');
        lemma_trim_is_trimmed(raw);
    } else {
        let front = lines.drop_last();
        assert forall|k: int| 0 <= k < front.len() implies !(#[trigger] front[k]).contains(
            '\n',
        ) by {
            assert(front[k] == lines[k]);
        }
        lemma_last_value_is_tag_text(front, tag);
    }
}

/// Tag texts survive being written as tag lines and read back.
pub proof fn lemma_written_tags_read_back(tags: TagValues)
    requires
        is_tag_text(tags.artist),
        is_tag_text(tags.album),
        is_tag_text(tags.title),
    ensures
        tags_of(tag_lines(tags)) == tags,
{
    let a = Tag::Artist.opening() + tags.artist + seq![']'];
    let b = Tag::Album.opening() + tags.album + seq![']'];
    let c = Tag::Title.opening() + tags.title + seq![']'];
    let none = Seq::<char>::empty();
    lemma_value_of_written_line(Tag::Artist, tags.artist);
    lemma_value_of_written_line(Tag::Album, tags.album);
    lemma_value_of_written_line(Tag::Title, tags.title);
    lemma_written_line_holds_no_line_feed(Tag::Artist, tags.artist);
    lemma_written_line_holds_no_line_feed(Tag::Album, tags.album);
    lemma_written_line_holds_no_line_feed(Tag::Title, tags.title);
    assert(tag_lines(tags) == a + seq!['\n'] + (b + seq!['\n'] + (c + seq!['\n'] + none)));
    lemma_lines_of_joined(c, none);
    lemma_lines_of_joined(b, c + seq!['\n'] + none);
    lemma_lines_of_joined(a, b + seq!['\n'] + (c + seq!['\n'] + none));
    assert(strip_cr(a) == a && strip_cr(b) == b && strip_cr(c) == c);
    let lines = lines_of(tag_lines(tags));
    assert(lines == seq![a, b, c]);
    let two = lines.drop_last();
    let one = two.drop_last();
    assert(two == seq![a, b]);
    assert(one == seq![a]);
    assert(one.drop_last() == Seq::<Seq<char>>::empty());
    assert(last_value(one, Tag::Artist) == tags.artist);
    assert(last_value(two, Tag::Artist) == tags.artist);
    assert(last_value(two, Tag::Album) == tags.album);
}

/// A written tag line, before its line feed, holds none.
proof fn lemma_written_line_holds_no_line_feed(tag: Tag, value: Seq<char>)
    requires
        !value.contains('\n'),
    ensures
        !(tag.opening() + value + seq![']']).contains('\n'),
{
    let line = tag.opening() + value + seq![']'];
    if line.contains('\n') {
        let i = choose|i: int| 0 <= i < line.len() && line[i] == '\n';
        if 4 <= i < 4 + value.len() {
            assert(value[i - 4] == '\n');
        }
    }
}

/// Round trip: the tags read from any text, written as three tag lines and
/// read again, are the same tags.
pub proof fn lemma_tags_round_trip(content: Seq<char>)
    ensures
        tags_of(tag_lines(tags_of(content))) == tags_of(content),
{
    let lines = lines_of(content);
    lemma_lines_hold_no_line_feed(content);
    lemma_last_value_is_tag_text(lines, Tag::Artist);
    lemma_last_value_is_tag_text(lines, Tag::Album);
    lemma_last_value_is_tag_text(lines, Tag::Title);
    lemma_written_tags_read_back(tags_of(content));
}

/// A text without tag lines carries three empty tags.
pub proof fn lemma_no_tag_lines_no_tags(content: Seq<char>)
    requires
        forall|k: int| 0 <= k < lines_of(content).len() ==> !is_tag_line(#[trigger] lines_of(content)[k]),
    ensures
        tags_of(content) == (TagValues {
            artist: Seq::empty(),
            album: Seq::empty(),
            title: Seq::empty(),
        }),
{
    let lines = lines_of(content);
    lemma_untagged_lines(lines, Tag::Artist);
    lemma_untagged_lines(lines, Tag::Album);
    lemma_untagged_lines(lines, Tag::Title);
}

proof fn lemma_untagged_lines(lines: Seq<Seq<char>>, tag: Tag)
    requires
        forall|k: int| 0 <= k < lines.len() ==> !is_tag_line(#[trigger] lines[k]),
    ensures
        last_value(lines, tag) == Seq::<char>::empty(),
    decreases lines.len(),
{
    if lines.len() > 0 {
        let front = lines.drop_last();
        assert(!is_tag_line(lines[lines.len() - 1]));
        assert forall|k: int| 0 <= k < front.len() implies !is_tag_line(#[trigger] front[k]) by {
            assert(front[k] == lines[k]);
        }
        lemma_untagged_lines(front, tag);
    }
}

/// The tag whose opening `line` begins with, if any.
pub fn tag_at_start(line: &Vec<char>) -> (tag: Option<Tag>)
    ensures
        tag == tag_of_line(line@),
{
    if line.len() < 4 || line[0] != '[' || line[3] != ':' {
        assert(Tag::Artist.opening()[0] == '[' && Tag::Artist.opening()[3] == ':');
        assert(Tag::Album.opening()[0] == '[' && Tag::Album.opening()[3] == ':');
        assert(Tag::Title.opening()[0] == '[' && Tag::Title.opening()[3] == ':');
        return None;
    }
    let first = line[1];
    let second = line[2];
    assert(Tag::Artist.opening()[1] == 'a' && Tag::Artist.opening()[2] == 'r');
    assert(Tag::Album.opening()[1] == 'a' && Tag::Album.opening()[2] == 'l');
    assert(Tag::Title.opening()[1] == 't' && Tag::Title.opening()[2] == 'i');
    if first == 'a' && second == 'r' {
        assert(line@.subrange(0, 4) == Tag::Artist.opening());
        Some(Tag::Artist)
    } else if first == 'a' && second == 'l' {
        assert(line@.subrange(0, 4) == Tag::Album.opening());
        Some(Tag::Album)
    } else if first == 't' && second == 'i' {
        assert(line@.subrange(0, 4) == Tag::Title.opening());
        Some(Tag::Title)
    } else {
        None
    }
}

/// The value of the tag line `line`.
pub fn value_of_tag_line(line: &Vec<char>) -> (value: Vec<char>)
    requires
        is_tag_line(line@),
    ensures
        value@ == tag_value(line@),
{
    let n: usize = line.len();
    let close = find_stop(line, 4, n, ']');
    let bounds = trim_range(line, 4, close);
    proof {
        let body = line@.skip(4);
        assert(line@.subrange(4, n as int) == body);
        assert(line@.subrange(4, close as int) == body.take(len_until(body, ']') as int));
    }
    copy_range(line, bounds.0, bounds.1)
}

/// Reads the artist, album and title tags of an LRC text. A tag that no line
/// carries comes out empty; the call never fails.
pub fn extract_metadata(content: &str) -> (metadata: SongMetadata)
    ensures
        metadata@ == tags_of(content@),
{
    let chars = chars_of(content);
    let lines = split_lines(&chars);
    let mut artist: Vec<char> = Vec::new();
    let mut album: Vec<char> = Vec::new();
    let mut title: Vec<char> = Vec::new();
    let mut i: usize = 0;
    while i < lines.len()
        invariant
            i <= lines@.len(),
            artist@ == last_value(line_views(lines@).take(i as int), Tag::Artist),
            album@ == last_value(line_views(lines@).take(i as int), Tag::Album),
            title@ == last_value(line_views(lines@).take(i as int), Tag::Title),
        decreases lines@.len() - i,
    {
        let ghost seen = line_views(lines@).take(i + 1);
        assert(seen.drop_last() == line_views(lines@).take(i as int));
        assert(seen.last() == lines@[i as int]@);
        match tag_at_start(&lines[i]) {
            Some(Tag::Artist) => {
                artist = value_of_tag_line(&lines[i]);
            },
            Some(Tag::Album) => {
                album = value_of_tag_line(&lines[i]);
            },
            Some(Tag::Title) => {
                title = value_of_tag_line(&lines[i]);
            },
            None => {},
        }
        i = i + 1;
    }
    assert(line_views(lines@).take(i as int) == line_views(lines@));
    SongMetadata {
        artist: string_of(&artist),
        album: string_of(&album),
        title: string_of(&title),
    }
}

} // verus!
