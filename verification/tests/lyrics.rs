use lrc_media::lyrics::{
    extract_lyrics, parse_lyrics, parse_lyrics_file, Lyric, LyricsError, LyricsSource,
};
use lrc_media::tags::extract_metadata;

fn lines_of(content: &str) -> Vec<(u64, String)> {
    extract_lyrics(content)
        .expect("well-formed lyrics")
        .into_iter()
        .map(|lyric: Lyric| (lyric.time_millis, lyric.text))
        .collect()
}

fn seconds(time_millis: u64) -> f64 {
    time_millis as f64 / 1000.0
}

#[test]
fn tags_are_read_from_their_lines() {
    let metadata = extract_metadata("[ar:A]\n[al:B]\n[ti:T]\n[00:01.500]Hello");
    assert_eq!(metadata.artist, "A");
    assert_eq!(metadata.album, "B");
    assert_eq!(metadata.title, "T");
}

#[test]
fn text_without_tag_lines_has_empty_tags() {
    let metadata = extract_metadata("[00:01.500]Hello\n[00:02.000]World\n");
    assert_eq!(metadata.artist, "");
    assert_eq!(metadata.album, "");
    assert_eq!(metadata.title, "");
}

#[test]
fn empty_text_has_empty_tags_and_no_lyrics() {
    let metadata = extract_metadata("");
    assert_eq!(metadata.artist, "");
    assert_eq!(metadata.album, "");
    assert_eq!(metadata.title, "");
    assert!(lines_of("").is_empty());
}

#[test]
fn last_tag_line_wins() {
    let metadata = extract_metadata("[ar:First]\n[ti:One]\n[ar:Second]\n");
    assert_eq!(metadata.artist, "Second");
    assert_eq!(metadata.title, "One");
    assert_eq!(metadata.album, "");
}

#[test]
fn tag_value_is_trimmed() {
    let metadata = extract_metadata("[ar: \t Some Artist \u{3000}]\n[al:\u{a0}B\u{2003}]");
    assert_eq!(metadata.artist, "Some Artist");
    assert_eq!(metadata.album, "B");
}

#[test]
fn what_follows_the_bracket_is_dropped() {
    let metadata = extract_metadata("[ar:X] and more\n[al:Y][ti:Z]\n");
    assert_eq!(metadata.artist, "X");
    assert_eq!(metadata.album, "Y");
    assert_eq!(metadata.title, "");
}

#[test]
fn tag_without_closing_bracket_runs_to_the_end_of_the_line() {
    let metadata = extract_metadata("[ti:  Open ended  \n[ar:A]");
    assert_eq!(metadata.title, "Open ended");
    assert_eq!(metadata.artist, "A");
}

#[test]
fn tag_must_start_its_line() {
    let metadata = extract_metadata(" [ar:A]\nx[al:B]\n[AR:C]\n");
    assert_eq!(metadata.artist, "");
    assert_eq!(metadata.album, "");
}

#[test]
fn carriage_return_before_line_feed_ends_the_line() {
    let metadata = extract_metadata("[ar:A\r\n[al:B]\r\n");
    assert_eq!(metadata.artist, "A");
    assert_eq!(metadata.album, "B");
    assert_eq!(
        lines_of("[00:01.000]a\r\n[00:02.000]b\rc\n[00:03.000]d\r"),
        vec![
            (1000, "a".to_string()),
            (2000, "b\rc".to_string()),
            (3000, "d\r".to_string()),
        ]
    );
}

#[test]
fn empty_lines_are_passed_over() {
    assert_eq!(
        lines_of("\n\n[00:01.000]a\n\n[00:02.000]b\n\n"),
        vec![(1000, "a".to_string()), (2000, "b".to_string())]
    );
}

#[test]
fn tags_survive_writing_and_reading_back() {
    let first = extract_metadata("[ar: The Band ]x\n[00:01.00]la\n[ti:Song (live)\n[al:]\n");
    let written = format!("[ar:{}]\n[al:{}]\n[ti:{}]\n", first.artist, first.album, first.title);
    let second = extract_metadata(&written);
    assert_eq!(first.artist, "The Band");
    assert_eq!(first.album, "");
    assert_eq!(first.title, "Song (live)");
    assert_eq!(second.artist, first.artist);
    assert_eq!(second.album, first.album);
    assert_eq!(second.title, first.title);
}

#[test]
fn time_is_minutes_seconds_and_milliseconds() {
    assert_eq!(lines_of("[00:01.500]Hello"), vec![(1500, "Hello".to_string())]);
    assert_eq!(lines_of("[01:02.345]x"), vec![(62345, "x".to_string())]);
    assert_eq!(lines_of("[123:45.678]x"), vec![(7425678, "x".to_string())]);
    assert!((seconds(lines_of("[01:02.345]x")[0].0) - 62.345).abs() < 1e-9);
}

#[test]
fn fraction_counts_as_milliseconds_whatever_its_width() {
    assert_eq!(lines_of("[00:01.5]x"), vec![(1005, "x".to_string())]);
    assert_eq!(lines_of("[00:01.50]x"), vec![(1050, "x".to_string())]);
    assert_eq!(lines_of("[0:0.5000]x"), vec![(5000, "x".to_string())]);
    assert_eq!(lines_of("[00:75.000]x"), vec![(75000, "x".to_string())]);
}

#[test]
fn parsing_a_line_with_furigana() {
    let lines = lines_of("[01:02.345]漢字(かんじ)");
    assert_eq!(lines.len(), 1);
    assert!((seconds(lines[0].0) - 62.345).abs() < 1e-9);
    assert_eq!(lines[0].1, "<ruby>漢字<rt>かんじ</rt></ruby>");
}

#[test]
fn han_run_with_reading_becomes_ruby() {
    assert_eq!(
        lines_of("[00:00.000]私(わたし)は学生(がくせい)です"),
        vec![(
            0,
            "<ruby>私<rt>わたし</rt></ruby>は<ruby>学生<rt>がくせい</rt></ruby>です".to_string()
        )]
    );
}

#[test]
fn han_run_without_reading_is_untouched() {
    assert_eq!(lines_of("[00:00.000]漢字です"), vec![(0, "漢字です".to_string())]);
    assert_eq!(lines_of("[00:00.000]漢字 (かんじ)"), vec![(0, "漢字 (かんじ)".to_string())]);
    assert_eq!(lines_of("[00:00.000]漢字(かんじ"), vec![(0, "漢字(かんじ".to_string())]);
    assert_eq!(lines_of("[00:00.000]漢字"), vec![(0, "漢字".to_string())]);
}

#[test]
fn only_han_characters_take_a_reading() {
    assert_eq!(lines_of("[00:00.000]かな(kana)"), vec![(0, "かな(kana)".to_string())]);
    assert_eq!(lines_of("[00:00.000]abc(def)"), vec![(0, "abc(def)".to_string())]);
    assert_eq!(lines_of("[00:00.000]한글(hangul)"), vec![(0, "한글(hangul)".to_string())]);
    assert_eq!(
        lines_of("[00:00.000]お前(まえ)"),
        vec![(0, "お<ruby>前<rt>まえ</rt></ruby>".to_string())]
    );
}

#[test]
fn reading_ends_at_the_first_closing_parenthesis() {
    assert_eq!(
        lines_of("[00:00.000]漢(a)b)"),
        vec![(0, "<ruby>漢<rt>a</rt></ruby>b)".to_string())]
    );
    assert_eq!(
        lines_of("[00:00.000]漢()字((x)"),
        vec![(0, "<ruby>漢<rt></rt></ruby><ruby>字<rt>(x</rt></ruby>".to_string())]
    );
}

#[test]
fn markup_in_the_text_is_not_escaped() {
    assert_eq!(
        lines_of("[00:00.000]<b>漢(<i>)</b>"),
        vec![(0, "<b><ruby>漢<rt><i></rt></ruby></b>".to_string())]
    );
}

#[test]
fn text_around_the_timestamp_is_kept() {
    assert_eq!(lines_of("abc[00:01.00]def"), vec![(1000, "abcdef".to_string())]);
    assert_eq!(lines_of("[00:01.00]"), vec![(1000, String::new())]);
}

#[test]
fn only_the_first_timestamp_is_taken() {
    assert_eq!(
        lines_of("[00:01.00][00:02.00]x"),
        vec![(1000, "[00:02.00]x".to_string())]
    );
    assert_eq!(lines_of("[[00:03.00]x"), vec![(3000, "[x".to_string())]);
    assert_eq!(lines_of("[1:2][00:04.00]x"), vec![(4000, "[1:2]x".to_string())]);
}

#[test]
fn lines_without_a_timestamp_are_passed_over() {
    assert!(lines_of("just text\n[00:01]x\n[00.01:00]y\n[:01.00]z\n[a:01.00]\n[00:01.é]\n").is_empty());
    assert!(lines_of("[00:01.00\n00:01.00]\n[00 :01.00]\n").is_empty());
}

#[test]
fn tag_line_is_never_a_lyric_line() {
    let content = "[ar:X][00:01.00]foo\n[ti:[00:02.00]]\n[00:03.00]bar\n";
    assert_eq!(lines_of(content), vec![(3000, "bar".to_string())]);
    let metadata = extract_metadata(content);
    assert_eq!(metadata.artist, "X");
    assert_eq!(metadata.title, "[00:02.00");
}

#[test]
fn digits_beyond_ascii_make_a_timestamp_malformed() {
    let failed = extract_lyrics("[00:01.000]a\n[٠١:02.345]b\n[00:03.000]c\n");
    assert_eq!(failed.expect_err("malformed").line, 1);
    let failed = extract_lyrics("[01:０２.345]b");
    assert_eq!(failed.expect_err("malformed").line, 0);
}

#[test]
fn time_beyond_64_bits_makes_a_timestamp_malformed() {
    let failed = extract_lyrics("[99999999999999999999:00.000]x");
    assert_eq!(failed.expect_err("malformed").line, 0);
    let failed = extract_lyrics("\n\n[307445734561826:00.000]x");
    assert_eq!(failed.expect_err("malformed").line, 2);
    assert_eq!(
        lines_of("[307445734561825:51.615]x"),
        vec![(18446744073709551615, "x".to_string())]
    );
    assert_eq!(
        lines_of("[0:0.18446744073709551615]x"),
        vec![(18446744073709551615, "x".to_string())]
    );
    let failed = extract_lyrics("[0:0.18446744073709551616]x");
    assert_eq!(failed.expect_err("malformed").line, 0);
}

#[test]
fn the_first_malformed_line_is_reported() {
    let failed = extract_lyrics("[٠:0.0]\n[٠:0.0]\n");
    assert_eq!(failed.expect_err("malformed").line, 0);
}

#[test]
fn document_holds_tags_and_lyrics() {
    let document = parse_lyrics("[ar:A]\n[al:B]\n[ti:T]\n[00:01.500]Hello\n[00:03.000]漢(かん)\n")
        .expect("well-formed lyrics");
    assert_eq!(document.artist, "A");
    assert_eq!(document.album, "B");
    assert_eq!(document.title, "T");
    assert_eq!(document.lyrics.len(), 2);
    assert_eq!(document.lyrics[0].time_millis, 1500);
    assert_eq!(document.lyrics[0].text, "Hello");
    assert_eq!(document.lyrics[1].time_millis, 3000);
    assert_eq!(document.lyrics[1].text, "<ruby>漢<rt>かん</rt></ruby>");
}

#[test]
fn lyric_lines_keep_the_order_of_the_file() {
    assert_eq!(
        lines_of("[00:05.000]late\n[00:01.000]early\n"),
        vec![(5000, "late".to_string()), (1000, "early".to_string())]
    );
}

#[test]
fn malformed_document_fails() {
    let failed = parse_lyrics("[ar:A]\n[٠:0.0]x\n");
    assert_eq!(failed.expect_err("malformed").line, 1);
}

#[test]
fn missing_lyrics_file_is_not_found() {
    let failed = parse_lyrics_file(&LyricsSource::Missing).expect_err("missing");
    assert!(matches!(failed, LyricsError::NotFound));
    assert_eq!(failed.message(), "File not found");
}

#[test]
fn unreadable_lyrics_file_is_a_read_error() {
    let failed = parse_lyrics_file(&LyricsSource::Unreadable).expect_err("unreadable");
    assert!(matches!(failed, LyricsError::ReadError));
    assert_eq!(failed.message(), "Failed to read file");
}

#[test]
fn malformed_lyrics_file_is_a_parse_error() {
    let source = LyricsSource::Text("x\n[٠:0.0]y".to_string());
    let failed = parse_lyrics_file(&source).expect_err("malformed");
    assert!(matches!(failed, LyricsError::ParseError { line: 1 }));
    assert_eq!(failed.message(), "Malformed timestamp");
}

#[test]
fn lyrics_file_with_text_is_parsed() {
    let source = LyricsSource::Text("[ti:T]\n[00:01.500]Hello".to_string());
    let document = parse_lyrics_file(&source).expect("well-formed lyrics");
    assert_eq!(document.title, "T");
    assert_eq!(document.artist, "");
    assert_eq!(document.lyrics.len(), 1);
    assert_eq!(document.lyrics[0].time_millis, 1500);
    assert_eq!(document.lyrics[0].text, "Hello");
}
