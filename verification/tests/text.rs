use cow_utils::CowUtils;
use mack::feat::{
    extract_feat, find_bracketed_feat, find_non_bracketed_feat, keyword_list,
    remove_keyword_from_content, split_artists,
};
use mack::fixers::{collapse_blanks, normalise_field};
use mack::rename::{collapse_dots, normalise_dirs, replace_illegal, strip_dots};
use mack::text::{
    chars_of, contains, find, has_at, is_whitespace, join, split, trim, trim_end, trim_start,
};
use regex::Regex;

fn chars(s: &str) -> Vec<char> {
    s.chars().collect()
}

fn text(v: &Vec<char>) -> String {
    v.iter().collect()
}

fn texts(v: &Vec<Vec<char>>) -> Vec<String> {
    v.iter().map(text).collect()
}

/// Texts over a small alphabet, the same on every run.
fn samples(alphabet: &[&str], count: usize, max_len: u32) -> Vec<String> {
    let mut state: u32 = 12345;
    let mut out = Vec::new();
    for _ in 0..count {
        state = state.wrapping_mul(1664525).wrapping_add(1013904223);
        let len = (state >> 24) % (max_len + 1);
        let mut s = String::new();
        for _ in 0..len {
            state = state.wrapping_mul(1664525).wrapping_add(1013904223);
            s.push_str(alphabet[(state >> 16) as usize % alphabet.len()]);
        }
        out.push(s);
    }
    out
}

#[test]
fn white_space_agrees_with_std_on_every_character() {
    for code in 0..=0x10FFFFu32 {
        if let Some(c) = char::from_u32(code) {
            assert_eq!(is_whitespace(c), c.is_whitespace(), "U+{:04X}", code);
        }
    }
}

#[test]
fn characters_of_a_string() {
    assert_eq!(chars_of(""), Vec::<char>::new());
    assert_eq!(chars_of("aé比"), vec!['a', 'é', '比']);
}

#[test]
fn trimming_agrees_with_std() {
    let alphabet = [" ", "\t", "\n", "\u{a0}", "\u{3000}", "a", "b", ".", "\u{200b}"];
    for s in samples(&alphabet, 3000, 8) {
        assert_eq!(text(&trim(&chars(&s))), s.trim(), "{:?}", s);
        assert_eq!(text(&trim_start(&chars(&s))), s.trim_start(), "{:?}", s);
        assert_eq!(text(&trim_end(&chars(&s))), s.trim_end(), "{:?}", s);
    }
}

#[test]
fn searching_agrees_with_std() {
    let alphabet = ["a", "b", " ", "é"];
    let all = samples(&alphabet, 1500, 9);
    for (i, s) in all.iter().enumerate() {
        let pat = &all[(i * 7 + 3) % all.len()];
        let pat: String = pat.chars().take(3).collect();
        let v = chars(s);
        let p = chars(&pat);
        assert_eq!(contains(&v, &p), s.contains(&pat), "{:?} in {:?}", pat, s);
        let expected = s.find(&pat).map(|b| s[..b].chars().count());
        assert_eq!(find(&v, &p, 0), expected, "{:?} in {:?}", pat, s);
        assert_eq!(has_at(&v, &p, 0), s.starts_with(&pat));
    }
    assert_eq!(find(&chars("abcabc"), &chars("bc"), 2), Some(4));
    assert_eq!(find(&chars("abcabc"), &chars("bc"), 5), None);
    assert_eq!(find(&chars("abc"), &chars(""), 3), Some(3));
    assert_eq!(find(&chars("abc"), &chars(""), 4), None);
}

#[test]
fn splitting_agrees_with_std() {
    let alphabet = ["a", ",", " ", "and", "&", "é"];
    for s in samples(&alphabet, 3000, 10) {
        for sep in [",", " and ", " & ", "aa"] {
            let expected: Vec<String> = s.split(sep).map(String::from).collect();
            assert_eq!(texts(&split(&chars(&s), &chars(sep))), expected, "{:?} at {:?}", s, sep);
        }
    }
    assert_eq!(texts(&split(&chars(""), &chars(","))), vec!["".to_string()]);
    assert_eq!(texts(&split(&chars("aaa"), &chars("aa"))), vec!["".to_string(), "a".to_string()]);
}

#[test]
fn joining_puts_the_separator_between() {
    let parts = |list: &[&str]| list.iter().map(|s| chars(s)).collect::<Vec<_>>();
    assert_eq!(text(&join(&parts(&[]), &chars("/"))), "");
    assert_eq!(text(&join(&parts(&["a"]), &chars("/"))), "a");
    assert_eq!(text(&join(&parts(&["a", "b", "c"]), &chars(", "))), "a, b, c");
    assert_eq!(text(&join(&parts(&["", ""]), &chars("/"))), "/");
}

#[test]
fn artists_are_split_as_by_std() {
    let alphabet = ["A", "b", ",", " ", " and ", " & ", "and", "&"];
    for s in samples(&alphabet, 3000, 9) {
        let expected: Vec<String> = s
            .split(',')
            .flat_map(|p| p.split(" and ").flat_map(|q| q.split(" & ")))
            .map(|p| p.trim())
            .filter(|p| !p.is_empty())
            .map(String::from)
            .collect();
        assert_eq!(texts(&split_artists(&chars(&s))), expected, "{:?}", s);
    }
}

#[test]
fn keyword_is_taken_off_as_by_std() {
    let keywords = ["feat", "ft", "f.", "featuring"];
    let alphabet = ["f", "F", "e", "a", "t", "T", ".", " ", "uring", "X", "İ", "é"];
    for s in samples(&alphabet, 6000, 8) {
        let trimmed = s.trim();
        let lower = trimmed.to_lowercase();
        let longest = keywords.iter().filter(|k| lower.starts_with(**k)).max_by_key(|k| k.len());
        let expected = match longest {
            Some(kw) => {
                let after = trimmed.get(kw.len()..).unwrap_or("").trim_start();
                match after.strip_prefix('.') {
                    Some(rest) => rest.trim_start(),
                    None => after,
                }
            }
            None => trimmed,
        };
        let got = remove_keyword_from_content(&chars(&s), &keyword_list());
        assert_eq!(text(&got), expected, "{:?}", s);
    }
}

#[test]
fn bare_keyword_is_found_where_the_pattern_matches() {
    let pattern = Regex::new(r"(?i)(?:^|\W)(feat|ft|f\.|featuring)(:?$|\W)").unwrap();
    let with_pattern = |s: &str| {
        pattern.captures(s).and_then(|caps| caps.get(1)).map(|m| s[..m.start()].chars().count())
    };
    let fixed = [
        "feat", "Xfeat", "feat:", "feat:x", "a_feat b", "a-feat b", "FEAT.", "Ft", "f.", "af. b",
        "a f.b", "é feat é", "aéfeat x", "a feat\u{301} b", "featuring", "a featuringx",
        "x ft:y", "1ft", "ft1", "\u{663}ft x", "a\u{203f}ft x", "\u{2167}ft x", "\u{b2}ft x",
        "a ft\u{b2}", "a ft\u{200d}", "a\u{200c}ft", "Lift Method", "soft ft", "ft ft",
        "a (feat. b)", "f. f.", "f", "", " ", "a  FeAtUrInG  b", "a fT. b", "x feat", "x f.",
    ];
    let alphabet =
        ["f", "F", "e", "a", "t", "T", ".", " ", "uring", "x", "(", ":", "_", "é", "\u{301}", "1"];
    let mut all: Vec<String> = fixed.iter().map(|s| s.to_string()).collect();
    all.extend(samples(&alphabet, 12000, 9));
    let kws = keyword_list();
    for s in all {
        assert_eq!(find_non_bracketed_feat(&chars(&s), &kws), with_pattern(&s), "{:?}", s);
    }
}

#[test]
fn bracketed_clause_is_found_with_balanced_brackets() {
    let kws = keyword_list();
    let at = |s: &str| find_bracketed_feat(&chars(s), &kws);
    assert_eq!(at("X (feat. A)"), Some((2, 10)));
    assert_eq!(at("X [ft A]"), Some((2, 7)));
    assert_eq!(at("X (  FEAT A (B))"), Some((2, 15)));
    assert_eq!(at("X (live) (f. A)"), Some((9, 14)));
    assert_eq!(at("X (live (feat. A))"), None);
    assert_eq!(at("X (feat. A"), None);
    assert_eq!(at("X (live [feat. A]"), None);
    assert_eq!(at("X (feat. A]"), None);
    assert_eq!(at("X [feat. A) ]"), Some((2, 12)));
    assert_eq!(at("X (feathers)"), Some((2, 11)));
    assert_eq!(at("X (a feat. b)"), None);
    assert_eq!(at(") (ft.)"), Some((2, 6)));
    assert_eq!(at(""), None);
}

#[test]
fn extraction_keeps_the_text_it_was_given() {
    let alphabet = ["f", "e", "a", "t", ".", " ", "(", ")", "[", "]", ",", "X", "&", "and"];
    for s in samples(&alphabet, 3000, 12) {
        let got = extract_feat(&s);
        assert_eq!(got.original_title, s);
        for artist in &got.featured_artists {
            assert!(!artist.is_empty());
            assert_eq!(artist.trim(), artist);
            assert!(!artist.contains(','));
        }
    }
}

#[test]
fn blanks_collapse_as_the_pattern_does() {
    let pattern = Regex::new(r"[ \t]+").unwrap();
    let alphabet = [" ", "\t", "a", "\n", "\u{a0}", "b"];
    for s in samples(&alphabet, 4000, 10) {
        let expected = pattern.replace_all(&s, " ").to_string();
        assert_eq!(text(&collapse_blanks(&chars(&s))), expected, "{:?}", s);
    }
}

#[test]
fn field_is_normalised_as_by_pattern_and_replacement() {
    let pattern = Regex::new(r"[ \t]+").unwrap();
    let alphabet = [
        " ", "\t", "a", "\n", "[", "]", "\u{2026}", "\u{201C}", "\u{201D}", "\u{2018}",
        "\u{2019}", "(", ".", "\"", "'",
    ];
    for s in samples(&alphabet, 6000, 10) {
        let collapsed = pattern.replace_all(&s, " ").to_string();
        let expected = collapsed
            .trim()
            .cow_replace('[', "(")
            .cow_replace(']', ")")
            .cow_replace('\u{2026}', "...")
            .cow_replace('\u{201C}', "\"")
            .cow_replace('\u{201D}', "\"")
            .cow_replace('\u{2018}', "'")
            .cow_replace('\u{2019}', "'")
            .to_string();
        let got = normalise_field(&s);
        assert_eq!(got, expected, "{:?}", s);
        assert_eq!(normalise_field(&got), got, "{:?}", s);
    }
}

#[test]
fn path_parts_are_cleaned_as_the_patterns_do() {
    let dots = Regex::new(r"\.\.+").unwrap();
    let illegal = Regex::new(r#"[<>:"|?*]"#).unwrap();
    let alphabet = [".", " ", "a", "<", ">", ":", "\"", "|", "?", "*", "é", "\t"];
    for s in samples(&alphabet, 6000, 10) {
        let v = chars(&s);
        assert_eq!(text(&replace_illegal(&v)), illegal.replace_all(&s, "_"), "{:?}", s);
        assert_eq!(text(&collapse_dots(&v)), dots.replace_all(&s, "."), "{:?}", s);
        assert_eq!(text(&strip_dots(&v)), s.trim_matches('.'), "{:?}", s);
    }
}

#[test]
fn dirs_follow_the_parts_of_a_path() {
    let dots = Regex::new(r"\.\.+").unwrap();
    let illegal = Regex::new(r#"[<>:"|?*]"#).unwrap();
    let alphabet = [".", " ", "a", "/", "?", "é", "b"];
    for s in samples(&alphabet, 6000, 10) {
        let expected: std::path::PathBuf = std::path::Path::new(&s)
            .components()
            .map(|c| {
                let mut part = c.as_os_str().to_str().unwrap().to_string();
                if let Some((at, _)) = part.char_indices().nth(64) {
                    part.truncate(at);
                }
                let part = illegal.replace_all(&part, "_").to_string();
                let part = dots.replace_all(part.trim(), ".").to_string();
                let part = part.trim_matches('.').to_string();
                if part.is_empty() {
                    "_".to_string()
                } else {
                    part
                }
            })
            .collect();
        assert_eq!(normalise_dirs(&s), expected.to_str().unwrap(), "{:?}", s);
    }
}
