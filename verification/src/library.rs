//! The media library: one work per folder, its files sorted by what they are.
//!
//! The caller lists the root folder and hands over what it found; the rules
//! that turn a listing into works are here. Each file of a folder plays at
//! most one part, decided by its extension (compared in lower case) and, for
//! lyrics, by its stem: the lyrics file whose stem is the folder's name is
//! the primary one, another whose stem begins with that name is a
//! translation, and any other lyrics file is passed over.

use vstd::prelude::*;
use crate::filename::{extension, extension_is, lower, split_point, stem};
use crate::tags::{extract_metadata, tags_of};
use crate::text::{chars_of, copy_range, has_prefix, push_str, string_of};

verus! {

/// The part a file plays in its folder.
#[derive(Clone, Copy, Debug)]
pub enum Role {
    PrimaryLyrics,
    Translation,
    Video,
    Audio,
    Poster,
    Ignored,
}

/// The part that the file called `name` plays in the folder called `folder`.
pub open spec fn role_of(folder: Seq<char>, name: Seq<char>) -> Role {
    match extension(name) {
        None => Role::Ignored,
        Some(ext) => {
            let kind = lower(ext);
            if kind == "lrc"@ {
                if stem(name) == folder {
                    Role::PrimaryLyrics
                } else if folder.is_prefix_of(stem(name)) {
                    Role::Translation
                } else {
                    Role::Ignored
                }
            } else if kind == "webm"@ || kind == "mp4"@ {
                Role::Video
            } else if kind == "mp3"@ {
                Role::Audio
            } else if kind == "jpg"@ || kind == "png"@ {
                Role::Poster
            } else {
                Role::Ignored
            }
        },
    }
}

/// A file of a folder: its name within the folder, and the path under which
/// the work lists it.
#[derive(Debug)]
pub struct FileEntry {
    pub name: String,
    pub path: String,
}

/// A folder as it was found: its name, its files in the order in which they
/// were listed, and the text of the lyrics file named after the folder where
/// that file could be read.
#[derive(Debug)]
pub struct Folder {
    pub name: String,
    pub files: Vec<FileEntry>,
    pub lyrics: Option<String>,
}

/// An entry of the root folder.
#[derive(Debug)]
pub enum RootEntry {
    /// The entry, or the folder behind it, could not be read; the text says
    /// why.
    Unreadable(String),
    /// The entry is no folder.
    NotAFolder,
    /// The entry is a folder.
    Folder(Folder),
}

/// What was found at the root path.
#[derive(Debug)]
pub enum Root {
    /// Nothing is there.
    Missing,
    /// Something is there that is no folder.
    NotADirectory,
    /// The folder could not be listed; the text says why.
    Unreadable(String),
    /// The folder's entries, in the order in which they were listed.
    Entries(Vec<RootEntry>),
}

/// Why a scan failed.
#[derive(Debug)]
pub enum ScanError {
    NotFound,
    NotADirectory,
    IoError(String),
}

/// A scan failure as a value of specifications.
pub enum ScanFailure {
    NotFound,
    NotADirectory,
    IoError(Seq<char>),
}

impl View for ScanError {
    type V = ScanFailure;

    open spec fn view(&self) -> ScanFailure {
        match self {
            ScanError::NotFound => ScanFailure::NotFound,
            ScanError::NotADirectory => ScanFailure::NotADirectory,
            ScanError::IoError(why) => ScanFailure::IoError(why@),
        }
    }
}

/// A work: the music video of one folder.
#[derive(Debug)]
pub struct MusicVideo {
    pub title: String,
    pub has_lrc: bool,
    pub artist: Option<String>,
    pub album: Option<String>,
    pub video_sources: Vec<String>,
    pub audio_sources: Vec<String>,
    pub image_poster: Option<String>,
    pub original_lyrics: Option<String>,
    pub translations: Vec<String>,
}

/// A work as a value of specifications.
pub struct Work {
    pub title: Seq<char>,
    pub has_lrc: bool,
    pub artist: Option<Seq<char>>,
    pub album: Option<Seq<char>>,
    pub video_sources: Seq<Seq<char>>,
    pub audio_sources: Seq<Seq<char>>,
    pub image_poster: Option<Seq<char>>,
    pub original_lyrics: Option<Seq<char>>,
    pub translations: Seq<Seq<char>>,
}

/// The text of an optional string.
pub open spec fn text_of(s: Option<String>) -> Option<Seq<char>> {
    match s {
        Some(s) => Some(s@),
        None => None,
    }
}

/// The texts of a sequence of strings.
pub open spec fn texts_of(strings: Seq<String>) -> Seq<Seq<char>> {
    strings.map_values(|s: String| s@)
}

impl View for MusicVideo {
    type V = Work;

    open spec fn view(&self) -> Work {
        Work {
            title: self.title@,
            has_lrc: self.has_lrc,
            artist: text_of(self.artist),
            album: text_of(self.album),
            video_sources: texts_of(self.video_sources@),
            audio_sources: texts_of(self.audio_sources@),
            image_poster: text_of(self.image_poster),
            original_lyrics: text_of(self.original_lyrics),
            translations: texts_of(self.translations@),
        }
    }
}

/// The paths of those of `files` that play `role` in `folder`, in the order
/// of `files`.
pub open spec fn paths_in_role(folder: Seq<char>, files: Seq<FileEntry>, role: Role) -> Seq<
    Seq<char>,
>
    decreases files.len(),
{
    if files.len() == 0 {
        Seq::empty()
    } else {
        let before = paths_in_role(folder, files.drop_last(), role);
        if role_of(folder, files.last().name@) == role {
            before.push(files.last().path@)
        } else {
            before
        }
    }
}

/// The last of `paths`, if there is any.
pub open spec fn last_of(paths: Seq<Seq<char>>) -> Option<Seq<char>> {
    if paths.len() == 0 {
        None
    } else {
        Some(paths.last())
    }
}

/// Whether `files` hold a primary lyrics file for `folder`.
pub open spec fn has_primary(folder: Seq<char>, files: Seq<FileEntry>) -> bool {
    paths_in_role(folder, files, Role::PrimaryLyrics).len() > 0
}

/// The work that `folder` holds. Artist and album are set where the folder
/// has a primary lyrics file and the lyrics text could be read.
pub open spec fn work_of(folder: Folder) -> Work {
    let name = folder.name@;
    let files = folder.files@;
    let tagged = has_primary(name, files) && folder.lyrics is Some;
    Work {
        title: name,
        has_lrc: has_primary(name, files),
        artist: if tagged {
            Some(tags_of(folder.lyrics->0@).artist)
        } else {
            None
        },
        album: if tagged {
            Some(tags_of(folder.lyrics->0@).album)
        } else {
            None
        },
        video_sources: paths_in_role(name, files, Role::Video),
        audio_sources: paths_in_role(name, files, Role::Audio),
        image_poster: last_of(paths_in_role(name, files, Role::Poster)),
        original_lyrics: last_of(paths_in_role(name, files, Role::PrimaryLyrics)),
        translations: paths_in_role(name, files, Role::Translation),
    }
}

/// The reason given by the first unreadable entry among `entries`, if any.
pub open spec fn first_unreadable(entries: Seq<RootEntry>) -> Option<Seq<char>>
    decreases entries.len(),
{
    if entries.len() == 0 {
        None
    } else {
        match first_unreadable(entries.drop_last()) {
            Some(why) => Some(why),
            None => match entries.last() {
                RootEntry::Unreadable(why) => Some(why@),
                _ => None,
            },
        }
    }
}

/// The works of the folders among `entries`, in the order of `entries`.
pub open spec fn works_of(entries: Seq<RootEntry>) -> Seq<Work>
    decreases entries.len(),
{
    if entries.len() == 0 {
        Seq::empty()
    } else {
        let before = works_of(entries.drop_last());
        match entries.last() {
            RootEntry::Folder(folder) => before.push(work_of(folder)),
            _ => before,
        }
    }
}

/// The outcome of a scan of `root`: the works of its folders, or the failure
/// of the root or of its first unreadable entry.
pub open spec fn scan_of(root: Root) -> Result<Seq<Work>, ScanFailure> {
    match root {
        Root::Missing => Err(ScanFailure::NotFound),
        Root::NotADirectory => Err(ScanFailure::NotADirectory),
        Root::Unreadable(why) => Err(ScanFailure::IoError(why@)),
        Root::Entries(entries) => match first_unreadable(entries@) {
            Some(why) => Err(ScanFailure::IoError(why)),
            None => Ok(works_of(entries@)),
        },
    }
}

/// The works behind a vector of music videos.
pub open spec fn work_views(videos: Seq<MusicVideo>) -> Seq<Work> {
    videos.map_values(|video: MusicVideo| video@)
}

/// A file plays one part only: it adds its path to the list of its own part
/// and to no other.
pub proof fn lemma_one_role_per_file(
    folder: Seq<char>,
    files: Seq<FileEntry>,
    file: FileEntry,
    role: Role,
)
    ensures
        paths_in_role(folder, files.push(file), role) == if role_of(folder, file.name@) == role {
            paths_in_role(folder, files, role).push(file.path@)
        } else {
            paths_in_role(folder, files, role)
        },
{
    assert(files.push(file).drop_last() == files);
}

/// A work has lyrics exactly where it names a primary lyrics file, and it
/// carries an artist and an album only where it has lyrics: both or neither.
pub proof fn lemma_work_is_coherent(folder: Folder)
    ensures
        work_of(folder).has_lrc <==> work_of(folder).original_lyrics is Some,
        work_of(folder).artist is Some ==> work_of(folder).has_lrc,
        work_of(folder).artist is Some <==> work_of(folder).album is Some,
        work_of(folder).title == folder.name@,
{
}

/// The part that the file called `name` plays in the folder called `folder`.
pub fn classify(folder: &Vec<char>, name: &Vec<char>) -> (role: Role)
    ensures
        role == role_of(folder@, name@),
{
    if extension_is(name, "lrc") {
        let at = split_point(name);
        let dot: usize = at.unwrap();
        let stem_chars = copy_range(name, 0, dot);
        assert(stem_chars@ == stem(name@));
        if !has_prefix(&stem_chars, folder) {
            Role::Ignored
        } else if stem_chars.len() == folder.len() {
            assert(stem_chars@.subrange(0, folder@.len() as int) == stem_chars@);
            Role::PrimaryLyrics
        } else {
            Role::Translation
        }
    } else if extension_is(name, "webm") || extension_is(name, "mp4") {
        Role::Video
    } else if extension_is(name, "mp3") {
        Role::Audio
    } else if extension_is(name, "jpg") || extension_is(name, "png") {
        Role::Poster
    } else {
        Role::Ignored
    }
}

/// Whether `files` hold a primary lyrics file for the folder called
/// `folder`: whether its lyrics are worth reading.
pub fn has_primary_lyrics(folder: &str, files: &Vec<FileEntry>) -> (found: bool)
    ensures
        found == has_primary(folder@, files@),
{
    let folder_chars = chars_of(folder);
    let mut found = false;
    let mut i: usize = 0;
    while i < files.len()
        invariant
            i <= files@.len(),
            folder_chars@ == folder@,
            found == has_primary(folder@, files@.take(i as int)),
        decreases files@.len() - i,
    {
        assert(files@.take(i + 1).drop_last() == files@.take(i as int));
        let name_chars = chars_of(files[i].name.as_str());
        if let Role::PrimaryLyrics = classify(&folder_chars, &name_chars) {
            found = true;
        }
        i = i + 1;
    }
    assert(files@.take(i as int) == files@);
    found
}

/// The name of the lyrics file that is read for the tags of the folder
/// called `folder`: the folder's name with `.lrc` after it.
pub fn lyrics_file_name(folder: &str) -> (name: String)
    ensures
        name@ == folder@ + ".lrc"@,
{
    let mut chars = chars_of(folder);
    push_str(&mut chars, ".lrc");
    string_of(&chars)
}

impl MusicVideo {
    /// The work that `folder` holds.
    pub fn from_folder(folder: &Folder) -> (video: MusicVideo)
        ensures
            video@ == work_of(*folder),
    {
        let folder_chars = chars_of(folder.name.as_str());
        let mut video_sources: Vec<String> = Vec::new();
        let mut audio_sources: Vec<String> = Vec::new();
        let mut image_poster: Option<String> = None;
        let mut original_lyrics: Option<String> = None;
        let mut translations: Vec<String> = Vec::new();
        let ghost name = folder.name@;
        let ghost files = folder.files@;
        let mut i: usize = 0;
        while i < folder.files.len()
            invariant
                i <= files.len(),
                files == folder.files@,
                name == folder.name@,
                folder_chars@ == name,
                texts_of(video_sources@) == paths_in_role(name, files.take(i as int), Role::Video),
                texts_of(audio_sources@) == paths_in_role(name, files.take(i as int), Role::Audio),
                texts_of(translations@) == paths_in_role(
                    name,
                    files.take(i as int),
                    Role::Translation,
                ),
                text_of(image_poster) == last_of(
                    paths_in_role(name, files.take(i as int), Role::Poster),
                ),
                text_of(original_lyrics) == last_of(
                    paths_in_role(name, files.take(i as int), Role::PrimaryLyrics),
                ),
            decreases files.len() - i,
        {
            let file = &folder.files[i];
            assert(files.take(i + 1).drop_last() == files.take(i as int));
            assert(files.take(i + 1).last() == *file);
            let name_chars = chars_of(file.name.as_str());
            let path = file.path.clone();
            match classify(&folder_chars, &name_chars) {
                Role::PrimaryLyrics => {
                    original_lyrics = Some(path);
                },
                Role::Translation => {
                    let ghost before = texts_of(translations@);
                    translations.push(path);
                    assert(texts_of(translations@) == before.push(path@));
                },
                Role::Video => {
                    let ghost before = texts_of(video_sources@);
                    video_sources.push(path);
                    assert(texts_of(video_sources@) == before.push(path@));
                },
                Role::Audio => {
                    let ghost before = texts_of(audio_sources@);
                    audio_sources.push(path);
                    assert(texts_of(audio_sources@) == before.push(path@));
                },
                Role::Poster => {
                    image_poster = Some(path);
                },
                Role::Ignored => {},
            }
            i = i + 1;
        }
        assert(files.take(i as int) == files);
        let has_lrc = original_lyrics.is_some();
        let mut artist: Option<String> = None;
        let mut album: Option<String> = None;
        if has_lrc {
            if let Some(text) = &folder.lyrics {
                let metadata = extract_metadata(text.as_str());
                artist = Some(metadata.artist);
                album = Some(metadata.album);
            }
        }
        MusicVideo {
            title: folder.name.clone(),
            has_lrc,
            artist,
            album,
            video_sources,
            audio_sources,
            image_poster,
            original_lyrics,
            translations,
        }
    }
}

/// Lists the works of a root folder: one per folder among its entries, in
/// the order in which the entries were listed. Entries that are no folders
/// are passed over. The scan fails where the root is missing, is no folder
/// or could not be listed, and where any entry could not be read: then with
/// the reason of the first such entry.
pub fn list_media_files(root: &Root) -> (listed: Result<Vec<MusicVideo>, ScanError>)
    ensures
        match listed {
            Ok(videos) => scan_of(*root) == Ok::<Seq<Work>, ScanFailure>(work_views(videos@)),
            Err(error) => scan_of(*root) == Err::<Seq<Work>, ScanFailure>(error@),
        },
{
    match root {
        Root::Missing => Err(ScanError::NotFound),
        Root::NotADirectory => Err(ScanError::NotADirectory),
        Root::Unreadable(why) => Err(ScanError::IoError(why.clone())),
        Root::Entries(entries) => {
            let mut videos: Vec<MusicVideo> = Vec::new();
            let mut i: usize = 0;
            while i < entries.len()
                invariant
                    i <= entries@.len(),
                    *root == Root::Entries(*entries),
                    first_unreadable(entries@.take(i as int)) is None,
                    work_views(videos@) == works_of(entries@.take(i as int)),
                decreases entries@.len() - i,
            {
                assert(entries@.take(i + 1).drop_last() == entries@.take(i as int));
                match &entries[i] {
                    RootEntry::Unreadable(why) => {
                        let reason = why.clone();
                        proof {
                            lemma_first_unreadable_stays(entries@, i + 1);
                        }
                        return Err(ScanError::IoError(reason));
                    },
                    RootEntry::NotAFolder => {},
                    RootEntry::Folder(folder) => {
                        let ghost before = work_views(videos@);
                        let video = MusicVideo::from_folder(folder);
                        videos.push(video);
                        assert(work_views(videos@) == before.push(video@));
                    },
                }
                i = i + 1;
            }
            assert(entries@.take(i as int) == entries@);
            Ok(videos)
        },
    }
}

/// Entries that follow an unreadable one do not change which is first.
proof fn lemma_first_unreadable_stays(entries: Seq<RootEntry>, n: int)
    requires
        0 <= n <= entries.len(),
        first_unreadable(entries.take(n)) is Some,
    ensures
        first_unreadable(entries) == first_unreadable(entries.take(n)),
    decreases entries.len() - n,
{
    if n < entries.len() {
        assert(entries.take(n + 1).drop_last() == entries.take(n));
        lemma_first_unreadable_stays(entries, n + 1);
    } else {
        assert(entries.take(n) == entries);
    }
}

impl ScanError {
    /// The failure in words.
    pub fn message(&self) -> (text: String)
        ensures
            text@ == match self@ {
                ScanFailure::NotFound => "Media directory not found."@,
                ScanFailure::NotADirectory => "Media is not a directory."@,
                ScanFailure::IoError(why) => why,
            },
    {
        match self {
            ScanError::NotFound => "Media directory not found.".to_string(),
            ScanError::NotADirectory => "Media is not a directory.".to_string(),
            ScanError::IoError(why) => why.clone(),
        }
    }
}

} // verus!
