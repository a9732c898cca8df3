use lrc_media::library::{
    has_primary_lyrics, list_media_files, lyrics_file_name, FileEntry, Folder, MusicVideo, Root,
    RootEntry, ScanError,
};

fn file(folder: &str, name: &str) -> FileEntry {
    FileEntry { name: name.to_string(), path: format!("{}/{}", folder, name) }
}

fn folder(name: &str, files: &[&str], lyrics: Option<&str>) -> Folder {
    Folder {
        name: name.to_string(),
        files: files.iter().map(|f| file(name, f)).collect(),
        lyrics: lyrics.map(|text| text.to_string()),
    }
}

fn strings(values: &[&str]) -> Vec<String> {
    values.iter().map(|v| v.to_string()).collect()
}

#[test]
fn folder_with_lyrics_video_and_poster() {
    let root = Root::Entries(vec![RootEntry::Folder(folder(
        "Song1",
        &["Song1.lrc", "Song1.mp4", "Song1.jpg"],
        Some("[ar:A]\n[al:B]\n[00:01.500]Hello\n"),
    ))]);
    let works = list_media_files(&root).expect("readable root");
    assert_eq!(works.len(), 1);
    let work = &works[0];
    assert_eq!(work.title, "Song1");
    assert!(work.has_lrc);
    assert_eq!(work.artist.as_deref(), Some("A"));
    assert_eq!(work.album.as_deref(), Some("B"));
    assert_eq!(work.video_sources, strings(&["Song1/Song1.mp4"]));
    assert_eq!(work.audio_sources, strings(&[]));
    assert_eq!(work.image_poster.as_deref(), Some("Song1/Song1.jpg"));
    assert_eq!(work.original_lyrics.as_deref(), Some("Song1/Song1.lrc"));
    assert_eq!(work.translations, strings(&[]));
}

#[test]
fn lyrics_with_a_longer_stem_are_translations() {
    let work = MusicVideo::from_folder(&folder(
        "Song1",
        &["Song1.en.lrc", "Song1.lrc", "Song1.zh.lrc", "Song1 (karaoke).lrc"],
        Some("[ar:A]\n[al:B]\n"),
    ));
    assert!(work.has_lrc);
    assert_eq!(work.original_lyrics.as_deref(), Some("Song1/Song1.lrc"));
    assert_eq!(
        work.translations,
        strings(&["Song1/Song1.en.lrc", "Song1/Song1.zh.lrc", "Song1/Song1 (karaoke).lrc"])
    );
    assert_eq!(work.artist.as_deref(), Some("A"));
    assert_eq!(work.album.as_deref(), Some("B"));
}

#[test]
fn translations_alone_are_no_lyrics() {
    let work = MusicVideo::from_folder(&folder(
        "Song1",
        &["Song1.en.lrc"],
        Some("[ar:A]\n[al:B]\n"),
    ));
    assert!(!work.has_lrc);
    assert_eq!(work.original_lyrics, None);
    assert_eq!(work.translations, strings(&["Song1/Song1.en.lrc"]));
    assert_eq!(work.artist, None);
    assert_eq!(work.album, None);
}

#[test]
fn lyrics_of_another_stem_are_passed_over() {
    let work = MusicVideo::from_folder(&folder("Song1", &["Other.lrc", "Song.lrc", "song1.lrc"], None));
    assert!(!work.has_lrc);
    assert_eq!(work.original_lyrics, None);
    assert_eq!(work.translations, strings(&[]));
}

#[test]
fn unreadable_lyrics_leave_artist_and_album_unset() {
    let work = MusicVideo::from_folder(&folder("Song1", &["Song1.lrc"], None));
    assert!(work.has_lrc);
    assert_eq!(work.original_lyrics.as_deref(), Some("Song1/Song1.lrc"));
    assert_eq!(work.artist, None);
    assert_eq!(work.album, None);
}

#[test]
fn lyrics_without_tags_give_empty_artist_and_album() {
    let work = MusicVideo::from_folder(&folder("Song1", &["Song1.lrc"], Some("[00:01.500]Hello")));
    assert!(work.has_lrc);
    assert_eq!(work.artist.as_deref(), Some(""));
    assert_eq!(work.album.as_deref(), Some(""));
}

#[test]
fn files_are_sorted_by_extension() {
    let work = MusicVideo::from_folder(&folder(
        "Live",
        &["a.webm", "b.mp3", "c.mp4", "d.png", "e.txt", "f.mp3", "g", "h.mkv", "i.jpg"],
        None,
    ));
    assert_eq!(work.title, "Live");
    assert!(!work.has_lrc);
    assert_eq!(work.video_sources, strings(&["Live/a.webm", "Live/c.mp4"]));
    assert_eq!(work.audio_sources, strings(&["Live/b.mp3", "Live/f.mp3"]));
    assert_eq!(work.image_poster.as_deref(), Some("Live/i.jpg"));
    assert_eq!(work.original_lyrics, None);
    assert_eq!(work.translations, strings(&[]));
}

#[test]
fn extension_is_compared_in_lower_case() {
    let work = MusicVideo::from_folder(&folder(
        "Song1",
        &["Song1.LRC", "clip.Mp4", "clip.WEBM", "track.MP3", "cover.PNG"],
        Some("[ar:A]"),
    ));
    assert!(work.has_lrc);
    assert_eq!(work.original_lyrics.as_deref(), Some("Song1/Song1.LRC"));
    assert_eq!(work.artist.as_deref(), Some("A"));
    assert_eq!(work.video_sources, strings(&["Song1/clip.Mp4", "Song1/clip.WEBM"]));
    assert_eq!(work.audio_sources, strings(&["Song1/track.MP3"]));
    assert_eq!(work.image_poster.as_deref(), Some("Song1/cover.PNG"));
}

#[test]
fn extension_is_what_follows_the_last_dot() {
    let work = MusicVideo::from_folder(&folder(
        "Song1",
        &[".mp3", "..", "a.tar.mp3", "b.mp3.bak", "c.", "mp4", ".hidden.mp4", "d.mp3 "],
        None,
    ));
    assert_eq!(work.audio_sources, strings(&["Song1/a.tar.mp3"]));
    assert_eq!(work.video_sources, strings(&["Song1/.hidden.mp4"]));
}

#[test]
fn the_last_poster_wins() {
    let work = MusicVideo::from_folder(&folder("Song1", &["a.jpg", "b.png", "c.mp4", "d.jpg"], None));
    assert_eq!(work.image_poster.as_deref(), Some("Song1/d.jpg"));
    let work = MusicVideo::from_folder(&folder("Song1", &["c.mp4"], None));
    assert_eq!(work.image_poster, None);
}

#[test]
fn folder_with_a_dot_in_its_name() {
    let work = MusicVideo::from_folder(&folder(
        "Vol.1",
        &["Vol.1.lrc", "Vol.1.en.lrc", "Vol.lrc"],
        Some("[al:Volumes]"),
    ));
    assert!(work.has_lrc);
    assert_eq!(work.original_lyrics.as_deref(), Some("Vol.1/Vol.1.lrc"));
    assert_eq!(work.translations, strings(&["Vol.1/Vol.1.en.lrc"]));
    assert_eq!(work.album.as_deref(), Some("Volumes"));
    assert_eq!(work.artist.as_deref(), Some(""));
}

#[test]
fn empty_folder_is_an_empty_work() {
    let work = MusicVideo::from_folder(&folder("Empty", &[], Some("[ar:A]")));
    assert_eq!(work.title, "Empty");
    assert!(!work.has_lrc);
    assert_eq!(work.artist, None);
    assert_eq!(work.album, None);
    assert!(work.video_sources.is_empty());
    assert!(work.audio_sources.is_empty());
    assert_eq!(work.image_poster, None);
    assert_eq!(work.original_lyrics, None);
    assert!(work.translations.is_empty());
}

#[test]
fn missing_root_is_not_found() {
    let failed = list_media_files(&Root::Missing).expect_err("missing root");
    assert!(matches!(failed, ScanError::NotFound));
    assert_eq!(failed.message(), "Media directory not found.");
}

#[test]
fn root_that_is_a_file_is_not_a_directory() {
    let failed = list_media_files(&Root::NotADirectory).expect_err("file as root");
    assert!(matches!(failed, ScanError::NotADirectory));
    assert_eq!(failed.message(), "Media is not a directory.");
}

#[test]
fn unreadable_root_is_an_io_error() {
    let failed = list_media_files(&Root::Unreadable("permission denied".to_string()))
        .expect_err("unreadable root");
    assert!(matches!(&failed, ScanError::IoError(why) if why == "permission denied"));
    assert_eq!(failed.message(), "permission denied");
}

#[test]
fn unreadable_entry_fails_the_scan() {
    let root = Root::Entries(vec![
        RootEntry::Folder(folder("A", &["A.mp4"], None)),
        RootEntry::Unreadable("first".to_string()),
        RootEntry::Folder(folder("B", &["B.mp4"], None)),
        RootEntry::Unreadable("second".to_string()),
    ]);
    let failed = list_media_files(&root).expect_err("unreadable entry");
    assert!(matches!(&failed, ScanError::IoError(why) if why == "first"));
}

#[test]
fn entries_that_are_no_folders_are_passed_over() {
    let root = Root::Entries(vec![
        RootEntry::NotAFolder,
        RootEntry::Folder(folder("B", &["B.mp4"], None)),
        RootEntry::NotAFolder,
        RootEntry::Folder(folder("A", &["A.mp3"], None)),
    ]);
    let works = list_media_files(&root).expect("readable root");
    assert_eq!(works.len(), 2);
    assert_eq!(works[0].title, "B");
    assert_eq!(works[0].video_sources, strings(&["B/B.mp4"]));
    assert_eq!(works[1].title, "A");
    assert_eq!(works[1].audio_sources, strings(&["A/A.mp3"]));
}

#[test]
fn empty_root_has_no_works() {
    let works = list_media_files(&Root::Entries(Vec::new())).expect("readable root");
    assert!(works.is_empty());
}

#[test]
fn primary_lyrics_are_looked_for_by_name() {
    assert!(has_primary_lyrics("Song1", &vec![file("Song1", "a.mp4"), file("Song1", "Song1.lrc")]));
    assert!(!has_primary_lyrics("Song1", &vec![file("Song1", "Song1.en.lrc")]));
    assert!(!has_primary_lyrics("Song1", &vec![file("Song1", "Song1.mp4")]));
    assert!(!has_primary_lyrics("Song1", &Vec::new()));
}

#[test]
fn lyrics_file_is_named_after_the_folder() {
    assert_eq!(lyrics_file_name("Song1"), "Song1.lrc");
    assert_eq!(lyrics_file_name(""), ".lrc");
    assert_eq!(lyrics_file_name("歌.1"), "歌.1.lrc");
}
