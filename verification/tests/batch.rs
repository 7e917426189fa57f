use mack::batch::{
    clean_part, decimal, is_allowed_ext, is_due, is_updated_since_last_run, make_lastmack_path,
    track_text,
};
use mack::config::Config;
use mack::taglib::{File, Tag};

#[test]
fn music_is_known_by_its_extension() {
    for ext in ["mp3", "flac", "m4a", "MP3", "Flac", "M4A", "mP3"] {
        assert!(is_allowed_ext(ext), "{}", ext);
    }
    for ext in ["", "mp", "mp33", "mp4", "ogg", "wav", "flacc", "m4", " mp3", "mp3 ", "ｍp3"] {
        assert!(!is_allowed_ext(ext), "{}", ext);
    }
}

#[test]
fn extension_check_agrees_with_lowercasing() {
    let allowed = ["mp3", "flac", "m4a"];
    let letters = ['m', 'M', 'p', 'P', '3', 'f', 'F', 'l', 'a', 'A', 'c', '4', 'x', 'İ', 'K'];
    let mut state: u32 = 7;
    for _ in 0..4000 {
        let mut ext = String::new();
        state = state.wrapping_mul(1664525).wrapping_add(1013904223);
        let len = (state >> 24) % 6;
        for _ in 0..len {
            state = state.wrapping_mul(1664525).wrapping_add(1013904223);
            ext.push(letters[(state >> 16) as usize % letters.len()]);
        }
        let lower = ext.to_lowercase();
        assert_eq!(is_allowed_ext(&ext), allowed.iter().any(|a| *a == lower), "{:?}", ext);
    }
}

#[test]
fn field_is_cleaned_for_a_path() {
    assert_eq!(clean_part("AC/DC"), "AC_DC");
    assert_eq!(clean_part("Sigur Rós"), "Sigur Rós");
    assert_eq!(clean_part("a.b-c(d),e f"), "a.b-c(d),e f");
    assert_eq!(clean_part("What?! *yes* <no> \"q\" a:b|c"), "What__ _yes_ _no_ _q_ a_b_c");
    assert_eq!(clean_part("比較大的大提琴"), "比較大的大提琴");
    assert_eq!(clean_part("a_b"), "a_b");
    assert_eq!(clean_part("50% [live] {x} #1 & more"), "50_ _live_ _x_ _1 _ more");
    assert_eq!(clean_part("tab\there"), "tab\there");
    assert_eq!(clean_part(""), "");
}

#[test]
fn cleaning_agrees_with_std_on_every_character() {
    let accepted = ['.', '-', '(', ')', ','];
    for code in 0..=0x10FFFFu32 {
        if let Some(c) = char::from_u32(code) {
            let keep = c.is_alphanumeric() || c.is_whitespace() || accepted.contains(&c);
            let expected = if keep { c } else { '_' };
            let got = clean_part(&c.to_string());
            assert_eq!(got, expected.to_string(), "U+{:04X}", code);
        }
    }
}

#[test]
fn last_run_is_kept_in_the_directory() {
    assert_eq!(make_lastmack_path("/music"), "/music/.lastmack");
    assert_eq!(make_lastmack_path("/music/"), "/music/.lastmack");
    assert_eq!(make_lastmack_path("."), "./.lastmack");
    assert_eq!(make_lastmack_path(""), ".lastmack");
}

#[test]
fn file_is_due_after_the_last_run() {
    assert!(is_updated_since_last_run(2, 1));
    assert!(!is_updated_since_last_run(1, 1));
    assert!(!is_updated_since_last_run(0, 1));
    assert!(is_updated_since_last_run(u128::MAX, 0));
    assert!(is_due(true, 0, 1));
    assert!(is_due(false, 2, 1));
    assert!(!is_due(false, 1, 1));
}

#[test]
fn track_number_has_two_digits() {
    assert_eq!(track_text(0), "00");
    assert_eq!(track_text(7), "07");
    assert_eq!(track_text(9), "09");
    assert_eq!(track_text(10), "10");
    assert_eq!(track_text(42), "42");
    assert_eq!(track_text(100), "100");
    assert_eq!(track_text(u32::MAX), "4294967295");
    for n in 0..2000u32 {
        assert_eq!(track_text(n), format!("{:02}", n));
        let digits: String = decimal(n).iter().collect();
        assert_eq!(digits, n.to_string());
    }
}

#[test]
fn settings_without_options() {
    let cfg = Config::new();
    assert!(!cfg.dry_run);
    assert!(!cfg.force);
    assert_eq!(cfg.output_dir, None);
    assert_eq!(cfg.fmt, "{artist}/{album}/{track} {title}");
    assert_eq!(cfg.paths, None);
}

#[test]
fn file_is_known_by_its_path() {
    let file = File::new("/music/a.mp3").unwrap();
    assert_eq!(file.path, "/music/a.mp3");
    assert!(file.save());
}

#[test]
fn tag_fields_are_read_as_set() {
    let mut tag = Tag::new();
    assert_eq!(tag.title(), None);
    assert_eq!(tag.artist(), None);
    assert_eq!(tag.album(), None);
    assert_eq!(tag.comment(), None);
    assert_eq!(tag.track(), None);
    tag.set_title("T");
    tag.set_artist("A");
    tag.set_album("L");
    tag.set_track(3);
    tag.add_comment("first");
    tag.add_comment("second");
    assert_eq!(tag.title(), Some("T"));
    assert_eq!(tag.artist(), Some("A"));
    assert_eq!(tag.album(), Some("L"));
    assert_eq!(tag.track(), Some(3));
    assert_eq!(tag.comment(), Some("first"));
    assert_eq!(tag.comments, vec!["first".to_string(), "second".to_string()]);
    tag.set_title("U");
    assert_eq!(tag.title(), Some("U"));
    assert_eq!(tag.artist(), Some("A"));
}
