use screen_time::{select_title, title_or_unknown, unknown_title};

#[test]
fn valid_primary_wins() {
    let r = select_title(Some(b"Terminal".to_vec()), Some(b"Legacy".to_vec()));
    assert_eq!(r, Some(b"Terminal".to_vec()));
}

#[test]
fn invalid_primary_falls_back() {
    let r = select_title(Some(vec![0xff, 0xfe]), Some(b"Legacy".to_vec()));
    assert_eq!(r, Some(b"Legacy".to_vec()));
}

#[test]
fn empty_primary_counts_as_unset_and_falls_back() {
    // An unset window property reads back as an empty value.
    let r = select_title(Some(Vec::new()), Some(b"Legacy".to_vec()));
    assert_eq!(r, Some(b"Legacy".to_vec()));
}

#[test]
fn empty_candidates_never_become_a_title() {
    assert_eq!(select_title(Some(Vec::new()), Some(Vec::new())), None);
    assert_eq!(select_title(None, Some(Vec::new())), None);
    assert_eq!(select_title(Some(Vec::new()), None), None);
}

#[test]
fn absent_primary_falls_back() {
    let r = select_title(None, Some(b"Legacy".to_vec()));
    assert_eq!(r, Some(b"Legacy".to_vec()));
}

#[test]
fn both_candidates_bad_yield_nothing() {
    assert_eq!(select_title(Some(vec![0xff]), Some(vec![0x80, 0x80])), None);
    assert_eq!(select_title(None, None), None);
}

#[test]
fn missing_title_becomes_unknown() {
    assert_eq!(title_or_unknown(None), b"Unknown".to_vec());
    assert_eq!(unknown_title(), b"Unknown".to_vec());
}

#[test]
fn present_title_passes_through() {
    assert_eq!(title_or_unknown(Some(b"Editor".to_vec())), b"Editor".to_vec());
}
