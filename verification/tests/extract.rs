use mack::feat::{extract_feat, TrackFeat};

#[test]
fn extract_test_extract_feat_no_feat() {
    let given = "A plain title".to_owned();
    let expected = TrackFeat {
        title: given.clone(),
        featured_artists: Vec::new(),
        original_title: given.clone(),
    };
    assert_eq!(extract_feat(&given), expected);
}

#[test]
fn extract_test_extract_feat_with_feat_single() {
    let given = "A plain title feat. Foo Bar".to_owned();
    let expected = TrackFeat {
        title: "A plain title".to_owned(),
        featured_artists: vec!["Foo Bar".to_owned()],
        original_title: given.clone(),
    };
    assert_eq!(extract_feat(&given), expected);
}

#[test]
fn extract_test_extract_feat_with_feat_double() {
    let given = "A plain title Ft. Foo Bar and Baz Qux".to_owned();
    let expected = TrackFeat {
        title: "A plain title".to_owned(),
        featured_artists: vec!["Foo Bar".to_owned(), "Baz Qux".to_owned()],
        original_title: given.clone(),
    };
    assert_eq!(extract_feat(&given), expected);
}

#[test]
fn extract_test_extract_feat_with_feat_as_f() {
    let given = "A plain title f. Foo Bar and Baz Qux".to_owned();
    let expected = TrackFeat {
        title: "A plain title".to_owned(),
        featured_artists: vec!["Foo Bar".to_owned(), "Baz Qux".to_owned()],
        original_title: given.clone(),
    };
    assert_eq!(extract_feat(&given), expected);
}

#[test]
fn extract_test_extract_feat_with_feat_many() {
    let given = "A plain title feat Foo Bar, Baz Qux, and Wibble Wobble".to_owned();
    let expected = TrackFeat {
        title: "A plain title".to_owned(),
        featured_artists: vec![
            "Foo Bar".to_owned(),
            "Baz Qux".to_owned(),
            "Wibble Wobble".to_owned(),
        ],
        original_title: given.clone(),
    };
    assert_eq!(extract_feat(&given), expected);
}

#[test]
fn extract_test_extract_feat_with_surrounding_whitespace() {
    let given = "A plain title feat    Foo Bar, Baz Qux, and Wibble Wobble    ".to_owned();
    let expected = TrackFeat {
        title: "A plain title".to_owned(),
        featured_artists: vec![
            "Foo Bar".to_owned(),
            "Baz Qux".to_owned(),
            "Wibble Wobble".to_owned(),
        ],
        original_title: given.clone(),
    };
    assert_eq!(extract_feat(&given), expected);
}
