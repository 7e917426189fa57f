use mack::feat::{extract_feat, TrackFeat};
use mack::fixers::{
    fix_album, fix_artist, fix_title, make_feat_string, normalise_field, run_fixers, FixError,
    FixOutcome,
};
use mack::taglib::{Tag, Track};

fn names(list: &[&str]) -> Vec<String> {
    list.iter().map(|s| s.to_string()).collect()
}

fn track(title: Option<&str>, artist: Option<&str>, album: Option<&str>) -> Track {
    let mut tag = Tag::new();
    if let Some(t) = title {
        tag.set_title(t);
    }
    if let Some(a) = artist {
        tag.set_artist(a);
    }
    if let Some(a) = album {
        tag.set_album(a);
    }
    Track { path: "/music/in.mp3".to_string(), tag }
}

#[test]
fn title_without_keyword_comes_back_whole() {
    for given in ["", "Song", "Lift Method", "Defeated", "Soft Parade", "(Live) [Remastered]"] {
        let got = extract_feat(given);
        assert_eq!(got.title, given);
        assert!(got.featured_artists.is_empty());
        assert_eq!(got.original_title, given);
    }
}

#[test]
fn single_featured_artist() {
    let got = extract_feat("X feat. A");
    assert_eq!(
        got,
        TrackFeat {
            title: "X".to_string(),
            featured_artists: names(&["A"]),
            original_title: "X feat. A".to_string(),
        }
    );
}

#[test]
fn two_featured_artists() {
    assert_eq!(extract_feat("X Ft. A and B").featured_artists, names(&["A", "B"]));
    assert_eq!(extract_feat("X feat A, B").featured_artists, names(&["A", "B"]));
    assert_eq!(extract_feat("X Ft. A and B").title, "X");
    assert_eq!(extract_feat("X feat A, B").title, "X");
}

#[test]
fn bracketed_clause_leaves_other_brackets() {
    let got = extract_feat("X (feat. A) [B mix]");
    assert_eq!(got.title, "X [B mix]");
    assert_eq!(got.featured_artists, names(&["A"]));
    assert_eq!(
        fix_title(Some("X (feat. A) [B mix]"), None),
        Some("X (B mix) (feat. A)".to_string())
    );
}

#[test]
fn separators_between_artists() {
    let expected = names(&["A", "B", "C"]);
    assert_eq!(extract_feat("X feat. A, B, and C").featured_artists, expected);
    assert_eq!(extract_feat("X feat. A, B & C").featured_artists, expected);
    assert_eq!(extract_feat("X feat. A & B & C").featured_artists, expected);
    assert_eq!(extract_feat("X feat. A & B").featured_artists, names(&["A", "B"]));
    assert_eq!(extract_feat("X feat. A, A").featured_artists, names(&["A", "A"]));
}

#[test]
fn bracket_wins_over_bare_keyword() {
    let got = extract_feat("X feat. A (ft. B)");
    assert_eq!(got.title, "X feat. A");
    assert_eq!(got.featured_artists, names(&["B"]));
}

#[test]
fn nested_brackets_are_balanced() {
    let got = extract_feat("X (feat. A (of B)) Y");
    assert_eq!(got.title, "X Y");
    assert_eq!(got.featured_artists, names(&["A (of B)"]));
}

#[test]
fn unclosed_bracket_is_no_clause() {
    let got = extract_feat("X (feat. A");
    assert_eq!(got.title, "X (");
    assert_eq!(got.featured_artists, names(&["A"]));
}

#[test]
fn longest_keyword_is_taken_off() {
    assert_eq!(extract_feat("X featuring A").featured_artists, names(&["A"]));
    assert_eq!(extract_feat("X (Featuring. A)").featured_artists, names(&["A"]));
    assert_eq!(extract_feat("X (FEAT A)").featured_artists, names(&["A"]));
    assert_eq!(extract_feat("X (f. A)").featured_artists, names(&["A"]));
}

#[test]
fn feat_string_grammar() {
    assert_eq!(make_feat_string(&names(&[])), "");
    assert_eq!(make_feat_string(&names(&["A"])), "A");
    assert_eq!(make_feat_string(&names(&["A", "B"])), "A and B");
    assert_eq!(make_feat_string(&names(&["A", "B", "C"])), "A, B, and C");
    assert_eq!(make_feat_string(&names(&["A", "B", "C", "D"])), "A, B, C, and D");
}

#[test]
fn normalise_field_steps() {
    assert_eq!(normalise_field("  a \t  b  "), "a b");
    assert_eq!(normalise_field("a\tb"), "a b");
    assert_eq!(normalise_field("[a] \u{2026}"), "(a) ...");
    assert_eq!(normalise_field("\u{201C}a\u{201D} \u{2018}b\u{2019}"), "\"a\" 'b'");
    assert_eq!(normalise_field("\n a \n"), "a");
    assert_eq!(normalise_field("a\n\nb"), "a\n\nb");
    assert_eq!(normalise_field(""), "");
}

#[test]
fn normalise_field_twice_is_once() {
    for given in [
        "",
        "   ",
        "  a \t  b  ",
        "[x] \u{2026} \u{201C}q\u{201D}",
        "\t\u{2018}a\u{2019}\t",
        "f\u{2026}",
        " \u{a0} a \u{a0} ",
        "a [ b ] c",
    ] {
        let once = normalise_field(given);
        assert_eq!(normalise_field(&once), once);
    }
}

#[test]
fn album_is_only_normalised() {
    assert_eq!(fix_album(None), None);
    assert_eq!(fix_album(Some("Album")), None);
    assert_eq!(fix_album(Some(" Album  [Deluxe] ")), Some("Album (Deluxe)".to_string()));
    assert_eq!(fix_album(Some("Album feat. X")), None);
}

#[test]
fn artist_loses_its_clause() {
    assert_eq!(fix_artist(None), None);
    assert_eq!(fix_artist(Some("A  B")), None);
    assert_eq!(fix_artist(Some("A feat. B")), Some("A".to_string()));
    assert_eq!(fix_artist(Some("A [ft. B]")), Some("A".to_string()));
}

#[test]
fn title_takes_artists_of_both_fields_in_order() {
    assert_eq!(
        fix_title(Some("T (feat. A, B)"), Some("X feat. C & D")),
        Some("T (feat. A, B, C, and D)".to_string())
    );
    assert_eq!(fix_title(None, Some("X feat. C")), None);
}

#[test]
fn run_fixers_changes_all_three_fields() {
    let mut t = track(Some("T  [live]"), Some("X feat. A"), Some(" L "));
    let got = run_fixers(&mut t, false);
    assert_eq!(got, Ok(FixOutcome { changed: true, persist: true }));
    assert_eq!(t.tag.title(), Some("T (live) (feat. A)"));
    assert_eq!(t.tag.artist(), Some("X"));
    assert_eq!(t.tag.album(), Some("L"));
    assert_eq!(t.path, "/music/in.mp3");
}

#[test]
fn run_fixers_in_a_dry_run_asks_for_no_write() {
    let mut t = track(Some("T"), Some("X feat. A"), None);
    assert_eq!(run_fixers(&mut t, true), Ok(FixOutcome { changed: true, persist: false }));
    assert_eq!(t.tag.title(), Some("T (feat. A)"));
    assert_eq!(t.tag.album(), None);
}

#[test]
fn run_fixers_on_a_clean_tag_changes_nothing() {
    let mut t = track(Some("T (feat. A)"), Some("X"), Some("L"));
    let before = t.clone();
    assert_eq!(run_fixers(&mut t, false), Ok(FixOutcome { changed: false, persist: false }));
    assert_eq!(t, before);
}

#[test]
fn run_fixers_twice_reports_no_change() {
    let given = [
        (Some("T  [live]"), Some("X feat. A"), Some(" L ")),
        (Some("Plain  title"), Some("Some  Artist"), Some("An album\u{2026}")),
        (Some("T (feat. A)"), Some("X ft. B and C"), None),
        (Some("T feat. A, B & C"), None, Some("L")),
        (None, Some("X"), None),
    ];
    for (title, artist, album) in given {
        let mut t = track(title, artist, album);
        assert!(run_fixers(&mut t, false).is_ok());
        let after_first = t.clone();
        assert_eq!(run_fixers(&mut t, false), Ok(FixOutcome { changed: false, persist: false }));
        assert_eq!(t, after_first);
    }
}

#[test]
fn blacklisted_track_is_never_touched() {
    let mut t = track(Some("  T [feat. A  "), Some("X feat. ((("), Some(" L "));
    t.tag.add_comment("first");
    t.tag.add_comment("do not touch _NO_MACK please");
    let before = t.clone();
    assert_eq!(run_fixers(&mut t, false), Err(FixError::Blacklisted));
    assert_eq!(t, before);
    assert_eq!(run_fixers(&mut t, true), Err(FixError::Blacklisted));
    assert_eq!(t, before);
    assert_eq!(FixError::Blacklisted.message(), "Comment contains _NO_MACK");
}

#[test]
fn marker_must_be_whole() {
    let mut t = track(Some("T"), Some("X feat. A"), None);
    t.tag.add_comment("_NO_MAC");
    t.tag.add_comment("_no_mack");
    assert_eq!(run_fixers(&mut t, false), Ok(FixOutcome { changed: true, persist: true }));
}

#[test]
fn two_clauses_are_not_settled_by_one_run() {
    let mut t = track(Some("X (feat. A) (feat. B)"), Some("Y"), None);
    assert_eq!(run_fixers(&mut t, true), Ok(FixOutcome { changed: true, persist: false }));
    assert_eq!(t.tag.title(), Some("X (feat. B) (feat. A)"));
    assert_eq!(run_fixers(&mut t, true), Ok(FixOutcome { changed: true, persist: false }));
    assert_eq!(t.tag.title(), Some("X (feat. A) (feat. B)"));

    let mut u = track(Some("X"), Some("Y feat. A (feat. B)"), None);
    assert_eq!(run_fixers(&mut u, true), Ok(FixOutcome { changed: true, persist: false }));
    assert_eq!(u.tag.title(), Some("X (feat. B)"));
    assert_eq!(u.tag.artist(), Some("Y feat. A"));
    assert_eq!(run_fixers(&mut u, true), Ok(FixOutcome { changed: true, persist: false }));
    assert_eq!(u.tag.title(), Some("X (feat. B and A)"));
    assert_eq!(u.tag.artist(), Some("Y"));
    assert_eq!(run_fixers(&mut u, true), Ok(FixOutcome { changed: false, persist: false }));
}
