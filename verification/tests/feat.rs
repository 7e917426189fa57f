use mack::feat::{extract_feat, TrackFeat};

#[test]
fn feat_test_extract_feat_no_feat() {
    let given = "A plain title".to_owned();
    let expected = TrackFeat {
        title: given.clone(),
        featured_artists: Vec::new(),
        original_title: given.clone(),
    };
    assert_eq!(extract_feat(&given), expected);
}

#[test]
fn feat_test_extract_feat_with_feat_single() {
    let given = "A plain title feat. Foo Bar".to_owned();
    let expected = TrackFeat {
        title: "A plain title".to_owned(),
        featured_artists: vec!["Foo Bar".to_owned()],
        original_title: given.clone(),
    };
    assert_eq!(extract_feat(&given), expected);
}

#[test]
fn feat_test_extract_feat_with_feat_double() {
    let given = "A plain title Ft. Foo Bar and Baz Qux".to_owned();
    let expected = TrackFeat {
        title: "A plain title".to_owned(),
        featured_artists: vec!["Foo Bar".to_owned(), "Baz Qux".to_owned()],
        original_title: given.clone(),
    };
    assert_eq!(extract_feat(&given), expected);
}

#[test]
fn feat_test_extract_feat_with_feat_as_f() {
    let given = "A plain title f. Foo Bar and Baz Qux".to_owned();
    let expected = TrackFeat {
        title: "A plain title".to_owned(),
        featured_artists: vec!["Foo Bar".to_owned(), "Baz Qux".to_owned()],
        original_title: given.clone(),
    };
    assert_eq!(extract_feat(&given), expected);
}

#[test]
fn feat_test_extract_feat_with_feat_many() {
    let given = "A plain title feat Foo Bar, Baz Qux, and Wibble Wobble".to_owned();
    let expected = TrackFeat {
        title: "A plain title".to_owned(),
        featured_artists: vec![
            "Foo Bar".to_owned(),
            "Baz Qux".to_owned(),
            "Wibble Wobble".to_owned(),
        ],
        original_title: given.clone(),
    };
    assert_eq!(extract_feat(&given), expected);
}

#[test]
fn feat_test_extract_feat_with_surrounding_whitespace() {
    let given = "A plain title feat    Foo Bar, Baz Qux, and Wibble Wobble    ".to_owned();
    let expected = TrackFeat {
        title: "A plain title".to_owned(),
        featured_artists: vec![
            "Foo Bar".to_owned(),
            "Baz Qux".to_owned(),
            "Wibble Wobble".to_owned(),
        ],
        original_title: given.clone(),
    };
    assert_eq!(extract_feat(&given), expected);
}

#[test]
fn test_extract_feat_no_feat_in_word() {
    let given = "Lift Method".to_owned();
    let expected = TrackFeat {
        title: given.clone(),
        featured_artists: Vec::new(),
        original_title: given.clone(),
    };
    assert_eq!(extract_feat(&given), expected);
}

#[test]
fn test_extract_feat_nested_parentheses() {
    let given = "比較大的大提琴 [Featuring Lara Veronin (梁心頤) & Gary Yang (楊瑞代)]";
    let expected = TrackFeat {
        title: "比較大的大提琴".to_string(),
        featured_artists: vec![
            "Lara Veronin (梁心頤)".to_string(),
            "Gary Yang (楊瑞代)".to_string(),
        ],
        original_title: given.to_string(),
    };
    assert_eq!(extract_feat(given), expected);
}
