use lrc_media::lyrics::extract_lyrics;
use regex::Regex;

/// The timestamp grammar as a pattern.
fn time_pattern() -> Regex {
    Regex::new(r"\[(\d+):(\d+)\.(\d+)\]").unwrap()
}

/// The furigana grammar as a pattern.
fn furigana_pattern() -> Regex {
    Regex::new(r"(\p{Script=Han}+)\((.*?)\)").unwrap()
}

/// What the two patterns make of one line: the three fields and the text.
fn by_patterns(line: &str) -> Option<(String, String, String, String)> {
    let time = time_pattern();
    let captures = time.captures(line)?;
    let text = time.replace(line, "").to_string();
    let text = furigana_pattern().replace_all(&text, r"<ruby>$1<rt>$2</rt></ruby>").to_string();
    Some((captures[1].to_string(), captures[2].to_string(), captures[3].to_string(), text))
}

fn check_line(line: &str) {
    let read = extract_lyrics(line);
    match by_patterns(line) {
        None => assert!(read.expect("no timestamp").is_empty(), "{:?}", line),
        Some((minutes, seconds, fraction, text)) => {
            let fields = (minutes.parse::<u64>(), seconds.parse::<u64>(), fraction.parse::<u64>());
            let ascii = format!("{}{}{}", minutes, seconds, fraction).bytes().all(|b| b.is_ascii_digit());
            match fields {
                (Ok(m), Ok(s), Ok(f)) if ascii => {
                    let lyrics = read.expect("a lyric line");
                    assert_eq!(lyrics.len(), 1, "{:?}", line);
                    assert_eq!(lyrics[0].time_millis, (m * 60 + s) * 1000 + f, "{:?}", line);
                    assert_eq!(lyrics[0].text, text, "{:?}", line);
                }
                _ => assert_eq!(read.expect_err("malformed").line, 0, "{:?}", line),
            }
        }
    }
}

#[test]
fn timestamps_agree_with_the_pattern() {
    for line in [
        "[00:01.500]Hello",
        "[0:0.0]",
        "x[12:34.567]y[01:02.003]z",
        "[[1:2.3]]",
        "[1:2.3",
        "1:2.3]",
        "[1:2]",
        "[1.2:3]",
        "[:2.3]x",
        "[1:.3]x",
        "[1:2.]x",
        "[1 :2.3]x",
        "[-1:2.3]x",
        "[+1:2.3]x",
        "[1:2.3][4:5.6]",
        "[1:2.x][4:5.6]tail",
        "[1:[2:3.4]",
        "[١:٢.٣]arabic",
        "[1:2.３]fullwidth",
        "[१२:00.000]devanagari then [00:01.000]",
        "[²:2.3]superscript",
        "[Ⅷ:2.3]roman",
        "[é:2.3][7:8.9]e",
        "[00:01.500]\u{feff}bom",
        "\t[00:02.000] spaced ",
        "[00:03.000]a\rb",
        "",
        "no stamp at all",
    ] {
        check_line(line);
    }
}

#[test]
fn furigana_agrees_with_the_pattern() {
    for text in [
        "漢字(かんじ)",
        "漢字",
        "漢字(かんじ",
        "漢字)かんじ(",
        "漢字 (かんじ)",
        "(かんじ)漢字",
        "漢(a)字(b)",
        "漢((a))",
        "漢()",
        "漢(字(じ))",
        "漢(a)(b)",
        "今日(きょう)は良(よ)い天気(てんき)ですね",
        "かな(kana)カナ(kana)",
        "abc(def)",
        "한글(hangul)",
        "々(noma)",
        "〇(zero)",
        "㐀(ext a)",
        "𠀀(ext b)",
        "豈(compat)",
        "⺀(radical)",
        "。(stop)、(comma)",
        "〆(shime)",
        "ー(bar)",
        "漢\r(a)",
        "漢(a\rb)",
        "<b>漢</b>(a)",
        "漢(<rt>)",
        "$1漢($2)",
        "漢(",
        "(",
        ")",
    ] {
        check_line(&format!("[00:00.000]{}", text));
        check_line(&format!("{}[00:00.000]", text));
    }
}
