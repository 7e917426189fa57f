use mack::fixers::{fix_artist, fix_title};

#[test]
fn test_fix_artist_no_feat() {
    let given = "Foo Bar";
    let expected = None;
    assert_eq!(fix_artist(Some(given)), expected);
}

#[test]
fn test_fix_artist_with_feat() {
    let given = "Foo Bar (feat. Baz Qux)";
    let expected = Some("Foo Bar".to_owned());
    assert_eq!(fix_artist(Some(given)), expected);
}

#[test]
fn test_fix_title_no_title_feat_no_artist_feat() {
    let given_title = "Foo Bar";
    let given_artist = "Baz Qux";
    let expected = None;
    assert_eq!(fix_title(Some(given_title), Some(given_artist)), expected);
}

#[test]
fn test_fix_title_with_title_feat_no_artist_feat() {
    let given_title = "Foo Bar (feat. Wibble Wobble)";
    let given_artist = "Baz Qux";
    let expected = None;
    assert_eq!(fix_title(Some(given_title), Some(given_artist)), expected);
}

#[test]
fn test_fix_title_with_title_feat_no_artist_feat_and_brackets() {
    let given_title = "Foo Bar (feat. Wibble Wobble) [Richard Stallman mix]";
    let given_artist = "Baz Qux";
    let expected = Some("Foo Bar (Richard Stallman mix) (feat. Wibble Wobble)".to_owned());
    assert_eq!(fix_title(Some(given_title), Some(given_artist)), expected);
}

#[test]
fn test_fix_title_no_title_feat_with_artist_feat() {
    let given_title = "Foo Bar";
    let given_artist = "Baz Qux feat. Fizz Buzz";
    let expected = Some("Foo Bar (feat. Fizz Buzz)".to_owned());
    assert_eq!(fix_title(Some(given_title), Some(given_artist)), expected);
}

#[test]
fn test_fix_title_with_title_feat_and_artist_feat() {
    let given_title = "Foo Bar (feat. Wibble Wobble)";
    let given_artist = "Baz Qux feat. Fizz Buzz";
    let expected = Some("Foo Bar (feat. Wibble Wobble and Fizz Buzz)".to_owned());
    assert_eq!(fix_title(Some(given_title), Some(given_artist)), expected);
}

#[test]
fn test_fix_title_with_title_feat_smart_quotes() {
    let given_title = "Foo ‘Bar’ (feat. Wibble “Wabble” Wobble)";
    let given_artist = "Baz Qux";
    let expected = Some("Foo 'Bar' (feat. Wibble \"Wabble\" Wobble)".to_owned());
    assert_eq!(fix_title(Some(given_title), Some(given_artist)), expected);
}

#[test]
fn test_fix_whitespace() {
    let given = "    Foo Bar [feat.    Baz    Qux   ]    ";
    let expected = Some("Foo Bar (feat. Baz Qux)".to_owned());
    assert_eq!(fix_title(Some(given), None), expected);
}
