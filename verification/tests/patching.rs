use sigpatch::patch::{
    apply, evaluate, judge_matches, overwrite_at, plan, writes_conflict, PatchError, PatchRule,
    PatchSet, PendingWrite,
};
use sigpatch::signature::Signature;

fn rule(cells: &[Option<u8>], replacement: &[u8]) -> PatchRule {
    PatchRule::new(Signature::new(cells.to_vec()).unwrap(), replacement.to_vec()).unwrap()
}

#[test]
fn replacement_longer_than_signature_is_refused() {
    let sig = Signature::new(vec![Some(1), None]).unwrap();
    assert!(PatchRule::new(sig, vec![1, 2, 3]).is_none());
}

#[test]
fn replacement_as_long_as_signature_is_taken() {
    let sig = Signature::new(vec![Some(1), None]).unwrap();
    let made = PatchRule::new(sig, vec![7, 8]).unwrap();
    assert_eq!(made.replacement(), &vec![7, 8]);
    assert_eq!(made.signature().len(), 2);
    assert_eq!(made.signature().cell(0), Some(1));
    assert_eq!(made.signature().cell(1), None);
}

#[test]
fn single_match_is_patched() {
    let rules: PatchSet = vec![rule(&[Some(0x11), None, Some(0x33)], &[0xAA, 0xBB])];
    assert_eq!(apply(&[0x11, 0x22, 0x33, 0x44], &rules), Ok(vec![0xAA, 0xBB, 0x33, 0x44]));
}

#[test]
fn double_match_aborts() {
    let rules: PatchSet = vec![rule(&[Some(0x11), None, Some(0x33)], &[0xAA, 0xBB])];
    let image = [0x11, 0x22, 0x33, 0x44, 0x11, 0x22, 0x33, 0x44];
    assert_eq!(apply(&image, &rules), Err(PatchError::AmbiguousSignature(2)));
    assert_eq!(plan(&image, &rules), Err(PatchError::AmbiguousSignature(2)));
    assert_eq!(evaluate(&image, &rules), Err(PatchError::AmbiguousSignature(2)));
}

#[test]
fn first_ambiguous_rule_gives_the_count() {
    let rules: PatchSet = vec![rule(&[Some(9)], &[0]), rule(&[Some(1)], &[0]), rule(&[Some(2)], &[0])];
    let image = [1, 2, 1, 2, 1];
    assert_eq!(apply(&image, &rules), Err(PatchError::AmbiguousSignature(3)));
}

#[test]
fn no_match_is_no_applicable_patch() {
    let rules: PatchSet = vec![rule(&[Some(0x55)], &[0x66]), rule(&[Some(0x77), None], &[])];
    assert_eq!(apply(&[1, 2, 3], &rules), Err(PatchError::NoApplicablePatch));
}

#[test]
fn empty_rule_set_is_no_applicable_patch() {
    let rules: PatchSet = Vec::new();
    assert_eq!(apply(&[1, 2, 3], &rules), Err(PatchError::NoApplicablePatch));
}

#[test]
fn patched_image_is_not_patched_again() {
    let rules: PatchSet = vec![rule(&[Some(0x11), None, Some(0x33)], &[0xAA, 0xBB])];
    let once = apply(&[0x11, 0x22, 0x33, 0x44], &rules).unwrap();
    assert_eq!(apply(&once, &rules), Err(PatchError::NoApplicablePatch));
}

#[test]
fn unmatched_rule_is_skipped() {
    let rules: PatchSet = vec![rule(&[Some(0x99), Some(0x98)], &[0]), rule(&[Some(3), Some(4)], &[0xCC])];
    assert_eq!(apply(&[1, 2, 3, 4, 5], &rules), Ok(vec![1, 2, 0xCC, 4, 5]));
    assert_eq!(
        plan(&[1, 2, 3, 4, 5], &rules),
        Ok(vec![PendingWrite { rule: 1, start: 2, end: 3 }])
    );
}

#[test]
fn several_rules_are_applied_to_the_image_as_given() {
    let rules: PatchSet = vec![rule(&[Some(4), Some(5)], &[0xDD, 0xEE]), rule(&[Some(1), None], &[0xAA])];
    assert_eq!(apply(&[1, 2, 3, 4, 5], &rules), Ok(vec![0xAA, 2, 3, 0xDD, 0xEE]));
    assert_eq!(
        evaluate(&[1, 2, 3, 4, 5], &rules),
        Ok(vec![
            PendingWrite { rule: 0, start: 3, end: 5 },
            PendingWrite { rule: 1, start: 0, end: 1 }
        ])
    );
}

#[test]
fn overlapping_writes_conflict() {
    let rules: PatchSet = vec![rule(&[Some(1), Some(2), Some(3)], &[9, 9, 9]), rule(&[Some(3), Some(4)], &[8])];
    assert_eq!(apply(&[1, 2, 3, 4, 5], &rules), Err(PatchError::ConflictingPatches));
}

#[test]
fn overlapping_signatures_with_separate_writes_do_not_conflict() {
    let rules: PatchSet = vec![rule(&[Some(1), Some(2), Some(3)], &[9]), rule(&[Some(3), Some(4)], &[8])];
    assert_eq!(apply(&[1, 2, 3, 4, 5], &rules), Ok(vec![9, 2, 8, 4, 5]));
}

#[test]
fn same_rule_twice_conflicts() {
    let rules: PatchSet = vec![rule(&[Some(1)], &[9]), rule(&[Some(1)], &[9])];
    assert_eq!(apply(&[1, 2], &rules), Err(PatchError::ConflictingPatches));
}

#[test]
fn ambiguity_is_reported_before_a_conflict() {
    let rules: PatchSet =
        vec![rule(&[Some(1)], &[9]), rule(&[Some(1)], &[9]), rule(&[Some(2)], &[7])];
    assert_eq!(apply(&[1, 2, 2], &rules), Err(PatchError::AmbiguousSignature(2)));
}

#[test]
fn empty_replacement_leaves_the_image_as_it_is() {
    let rules: PatchSet = vec![rule(&[Some(2)], &[])];
    assert_eq!(apply(&[1, 2, 3], &rules), Ok(vec![1, 2, 3]));
}

#[test]
fn judge_skips_a_rule_without_match() {
    assert_eq!(judge_matches(4, &[], 2), Ok(None));
}

#[test]
fn judge_accepts_a_single_match_that_fits() {
    assert_eq!(judge_matches(4, &[2], 2), Ok(Some(2)));
    assert_eq!(judge_matches(4, &[4], 0), Ok(Some(4)));
}

#[test]
fn judge_refuses_a_write_past_the_end() {
    assert_eq!(judge_matches(4, &[3], 2), Err(PatchError::WriteOutOfBounds));
    assert_eq!(judge_matches(4, &[5], 0), Err(PatchError::WriteOutOfBounds));
    assert_eq!(judge_matches(usize::MAX, &[usize::MAX], 1), Err(PatchError::WriteOutOfBounds));
}

#[test]
fn judge_counts_an_ambiguous_match() {
    assert_eq!(judge_matches(9, &[0, 4], 2), Err(PatchError::AmbiguousSignature(2)));
    assert_eq!(judge_matches(9, &[0, 4, 6], 2), Err(PatchError::AmbiguousSignature(3)));
}

#[test]
fn writes_that_share_a_byte_conflict() {
    let a = PendingWrite { rule: 0, start: 0, end: 3 };
    let b = PendingWrite { rule: 1, start: 2, end: 4 };
    let c = PendingWrite { rule: 2, start: 3, end: 4 };
    assert!(writes_conflict(&[a, b]));
    assert!(writes_conflict(&[c, a, b]));
    assert!(!writes_conflict(&[a, c]));
    assert!(!writes_conflict(&[a]));
    assert!(!writes_conflict(&[]));
}

#[test]
fn empty_write_conflicts_with_nothing() {
    let wide = PendingWrite { rule: 0, start: 0, end: 4 };
    let empty = PendingWrite { rule: 1, start: 2, end: 2 };
    assert!(!writes_conflict(&[wide, empty]));
}

#[test]
fn overwrite_keeps_the_bytes_around() {
    let mut buffer = vec![1, 2, 3, 4, 5];
    overwrite_at(&mut buffer, 1, &[8, 9]);
    assert_eq!(buffer, vec![1, 8, 9, 4, 5]);
    overwrite_at(&mut buffer, 5, &[]);
    assert_eq!(buffer, vec![1, 8, 9, 4, 5]);
    overwrite_at(&mut buffer, 3, &[6, 7]);
    assert_eq!(buffer, vec![1, 8, 9, 6, 7]);
}
