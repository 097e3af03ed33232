use sigpatch::signature::{next_match, search, Signature};

fn signature(cells: &[Option<u8>]) -> Signature {
    Signature::new(cells.to_vec()).unwrap()
}

#[test]
fn empty_signature_is_refused() {
    assert!(Signature::new(Vec::new()).is_none());
}

#[test]
fn signature_keeps_its_cells() {
    let sig = signature(&[Some(0x11), None, Some(0x33)]);
    assert_eq!(sig.len(), 3);
    assert_eq!(sig.cell(0), Some(0x11));
    assert_eq!(sig.cell(1), None);
    assert_eq!(sig.cell(2), Some(0x33));
}

#[test]
fn wildcard_position_is_ignored() {
    let sig = signature(&[Some(0x11), None, Some(0x33)]);
    assert_eq!(search(&[0x11, 0x22, 0x33, 0x44], &sig), vec![0]);
    assert_eq!(search(&[0x11, 0xFF, 0x33, 0x44], &sig), vec![0]);
    assert_eq!(search(&[0x11, 0x22, 0x34, 0x44], &sig), Vec::<usize>::new());
    assert_eq!(search(&[0x10, 0x22, 0x33, 0x44], &sig), Vec::<usize>::new());
}

#[test]
fn every_match_is_reported_in_increasing_order() {
    let sig = signature(&[Some(0x11), None, Some(0x33)]);
    let haystack = [0x11, 0x22, 0x33, 0x44, 0x11, 0x22, 0x33, 0x44];
    assert_eq!(search(&haystack, &sig), vec![0, 4]);
}

#[test]
fn overlapping_matches_are_all_reported() {
    let sig = signature(&[Some(1), Some(1)]);
    assert_eq!(search(&[1, 1, 1, 1], &sig), vec![0, 1, 2]);
}

#[test]
fn leading_wildcard_matches_at_the_very_start() {
    let sig = signature(&[None, Some(0xAD)]);
    assert_eq!(search(&[0xDE, 0xAD, 0xAD], &sig), vec![0, 1]);
}

#[test]
fn trailing_wildcard_must_still_fit() {
    let sig = signature(&[Some(2), None]);
    assert_eq!(search(&[1, 2], &sig), Vec::<usize>::new());
    assert_eq!(search(&[1, 2, 3], &sig), vec![1]);
}

#[test]
fn all_wildcards_match_wherever_they_fit() {
    let sig = signature(&[None, None]);
    assert_eq!(search(&[7, 8, 9], &sig), vec![0, 1]);
}

#[test]
fn signature_longer_than_haystack_finds_nothing() {
    let sig = signature(&[Some(1), Some(2), Some(3)]);
    assert_eq!(search(&[1, 2], &sig), Vec::<usize>::new());
    assert_eq!(search(&[], &sig), Vec::<usize>::new());
}

#[test]
fn signature_as_long_as_haystack_can_match() {
    let sig = signature(&[Some(1), None, Some(3)]);
    assert_eq!(search(&[1, 2, 3], &sig), vec![0]);
}

#[test]
fn match_at_the_last_offset_is_found() {
    let sig = signature(&[Some(0xBE), Some(0xEF)]);
    let mut haystack = vec![0u8; 500];
    haystack[498] = 0xBE;
    haystack[499] = 0xEF;
    assert_eq!(search(&haystack, &sig), vec![498]);
}

#[test]
fn search_is_repeatable() {
    let sig = signature(&[Some(0), None]);
    let haystack = [0, 1, 0, 0, 5];
    let first = search(&haystack, &sig);
    let second = search(&haystack, &sig);
    assert_eq!(first, vec![0, 2, 3]);
    assert_eq!(first, second);
}

#[test]
fn matches_agrees_with_search() {
    let sig = signature(&[Some(0x11), None, Some(0x33)]);
    let haystack = [0x11, 0x22, 0x33, 0x44];
    assert!(sig.matches(&haystack, 0));
    assert!(!sig.matches(&haystack, 1));
    assert!(!sig.matches(&haystack, 2));
    assert!(!sig.matches(&haystack, 4));
    assert!(!sig.matches(&haystack, usize::MAX));
}

#[test]
fn matches_can_be_asked_for_one_by_one() {
    let sig = signature(&[Some(0x11), None, Some(0x33)]);
    let haystack = [0x11, 0x22, 0x33, 0x44, 0x11, 0x22, 0x33, 0x44];
    assert_eq!(next_match(&haystack, &sig, 0), Some(0));
    assert_eq!(next_match(&haystack, &sig, 1), Some(4));
    assert_eq!(next_match(&haystack, &sig, 4), Some(4));
    assert_eq!(next_match(&haystack, &sig, 5), None);
    assert_eq!(next_match(&haystack, &sig, 6), None);
    assert_eq!(next_match(&haystack, &sig, usize::MAX), None);
    assert_eq!(next_match(&haystack[..2], &sig, 0), None);
}
