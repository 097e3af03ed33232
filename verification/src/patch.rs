//! Patch rules and the engine that turns an image and a set of rules into a
//! patched image, refusing every match that is not unique.

use crate::signature::{
    cell_accepts, lemma_match_offsets_exact, match_offsets, matches_at, search, Signature,
};
use vstd::prelude::*;

verus! {

/// Why a run did not patch its target.
#[derive(Debug, Clone, Copy, PartialEq, Eq, Structural)]
pub enum PatchError {
    /// No locator strategy produced a path that names an existing file.
    NotFound,
    /// A signature matched at this many offsets, more than one.
    AmbiguousSignature(usize),
    /// Two accepted writes cover a common byte.
    ConflictingPatches,
    /// No rule matched exactly once.
    NoApplicablePatch,
    /// A replacement would run past the end of the image.
    WriteOutOfBounds,
    /// The backup copy failed; the target was not touched.
    BackupFailed,
    /// The patched image could not be written; the backup holds the image as it was.
    WriteFailed,
}

/// What a patch rule is: its signature's cells and its replacement bytes.
pub struct RuleView {
    pub signature: Seq<Option<u8>>,
    pub replacement: Seq<u8>,
}

impl RuleView {
    /// The signature is not empty and the replacement is no longer than it.
    pub open spec fn valid(self) -> bool {
        0 < self.signature.len() && self.replacement.len() <= self.signature.len()
    }
}

/// A signature together with the bytes that replace the start of its match.
/// The replacement is never longer than the signature.
#[derive(Debug)]
pub struct PatchRule {
    signature: Signature,
    replacement: Vec<u8>,
}

impl View for PatchRule {
    type V = RuleView;

    closed spec fn view(&self) -> RuleView {
        RuleView { signature: self.signature@, replacement: self.replacement@ }
    }
}

/// An ordered collection of rules.
pub type PatchSet = Vec<PatchRule>;

/// The models of the rules of a patch set, in order.
pub open spec fn rule_views(rules: Seq<PatchRule>) -> Seq<RuleView> {
    rules.map_values(|rule: PatchRule| rule@)
}

impl PatchRule {
    /// The rule's model is valid.
    #[verifier::type_invariant]
    pub open spec fn well_formed(&self) -> bool {
        self@.valid()
    }

    /// Pairs a signature with its replacement. A replacement longer than the
    /// signature is refused: it would displace the bytes after the match.
    pub fn new(signature: Signature, replacement: Vec<u8>) -> (made: Option<PatchRule>)
        ensures
            made is None <==> replacement@.len() > signature@.len(),
            made is Some ==> made->0@ == (RuleView {
                signature: signature@,
                replacement: replacement@,
            }),
            made is Some ==> made->0@.valid(),
    {
        if replacement.len() > signature.len() {
            None
        } else {
            Some(PatchRule { signature, replacement })
        }
    }

    /// The rule's signature.
    pub fn signature(&self) -> (s: &Signature)
        ensures
            s@ == self@.signature,
    {
        &self.signature
    }

    /// The rule's replacement bytes.
    pub fn replacement(&self) -> (bytes: &Vec<u8>)
        ensures
            bytes@ == self@.replacement,
            self@.valid(),
    {
        proof {
            use_type_invariant(self);
        }
        &self.replacement
    }
}

/// One accepted overwrite: the bytes `start..end` of the image receive the
/// replacement of rule number `rule`.
#[derive(Debug, Clone, Copy, PartialEq, Eq, Structural)]
pub struct PendingWrite {
    pub rule: usize,
    pub start: usize,
    pub end: usize,
}

/// At how many offsets the rule's signature matches in `image`.
pub open spec fn occurrences(image: Seq<u8>, rule: RuleView) -> nat {
    match_offsets(image, rule.signature).len()
}

/// Rule `i` matches more than once.
pub open spec fn ambiguous(image: Seq<u8>, rules: Seq<RuleView>, i: int) -> bool {
    0 <= i < rules.len() && occurrences(image, rules[i]) > 1
}

/// Rule `i` matches exactly once, so its write is accepted.
pub open spec fn accepted(image: Seq<u8>, rules: Seq<RuleView>, i: int) -> bool {
    0 <= i < rules.len() && occurrences(image, rules[i]) == 1
}

/// The offset at which an accepted rule writes: its only match.
pub open spec fn write_start(image: Seq<u8>, rules: Seq<RuleView>, i: int) -> int {
    match_offsets(image, rules[i].signature)[0]
}

/// The offset just past the last byte that an accepted rule writes.
pub open spec fn write_end(image: Seq<u8>, rules: Seq<RuleView>, i: int) -> int {
    write_start(image, rules, i) + rules[i].replacement.len()
}

/// Rule `i` is accepted and writes the byte at position `p`.
pub open spec fn writes_byte(image: Seq<u8>, rules: Seq<RuleView>, i: int, p: int) -> bool {
    accepted(image, rules, i) && write_start(image, rules, i) <= p < write_end(image, rules, i)
}

/// Two different accepted rules write a common byte.
pub open spec fn overlapping(image: Seq<u8>, rules: Seq<RuleView>, i: int, j: int) -> bool {
    i != j && exists|p: int| writes_byte(image, rules, i, p) && writes_byte(image, rules, j, p)
}

/// Some rule is ambiguous.
pub open spec fn any_ambiguous(image: Seq<u8>, rules: Seq<RuleView>) -> bool {
    exists|i: int| ambiguous(image, rules, i)
}

/// The first ambiguous rule, where there is one.
pub open spec fn first_ambiguous(image: Seq<u8>, rules: Seq<RuleView>) -> int {
    choose|i: int|
        ambiguous(image, rules, i) && forall|j: int| 0 <= j < i ==> !ambiguous(image, rules, j)
}

/// Some two accepted rules overlap.
pub open spec fn any_overlapping(image: Seq<u8>, rules: Seq<RuleView>) -> bool {
    exists|i: int, j: int| overlapping(image, rules, i, j)
}

/// Some rule is accepted.
pub open spec fn any_accepted(image: Seq<u8>, rules: Seq<RuleView>) -> bool {
    exists|i: int| accepted(image, rules, i)
}

/// The image with the replacement of every accepted rule written at that
/// rule's offset, and every other byte kept.
pub open spec fn patched_image(image: Seq<u8>, rules: Seq<RuleView>) -> Seq<u8> {
    Seq::new(
        image.len(),
        |p: int|
            if exists|i: int| writes_byte(image, rules, i, p) {
                let i = choose|i: int| writes_byte(image, rules, i, p);
                rules[i].replacement[p - write_start(image, rules, i)]
            } else {
                image[p]
            },
    )
}

/// What patching `image` with `rules` comes to: the first ambiguous rule
/// aborts it with its number of matches; else overlapping writes abort it;
/// else it fails where no rule is accepted; else it gives the patched image.
pub open spec fn outcome(image: Seq<u8>, rules: Seq<RuleView>) -> Result<Seq<u8>, PatchError> {
    if any_ambiguous(image, rules) {
        Err(
            PatchError::AmbiguousSignature(
                occurrences(image, rules[first_ambiguous(image, rules)]) as usize,
            ),
        )
    } else if any_overlapping(image, rules) {
        Err(PatchError::ConflictingPatches)
    } else if !any_accepted(image, rules) {
        Err(PatchError::NoApplicablePatch)
    } else {
        Ok(patched_image(image, rules))
    }
}

/// Judges what a scan found for one rule. No match skips the rule
/// (`Ok(None)`); one match is accepted at its offset where the replacement
/// ends inside the image, and is out of bounds where it does not; more than
/// one match is ambiguous.
pub fn judge_matches(image_len: usize, found: &[usize], replacement_len: usize) -> (verdict:
    Result<Option<usize>, PatchError>)
    ensures
        found@.len() == 0 ==> verdict == Ok::<Option<usize>, PatchError>(None),
        found@.len() == 1 && found@[0] + replacement_len <= image_len ==> verdict == Ok::<
            Option<usize>,
            PatchError,
        >(Some(found@[0])),
        found@.len() == 1 && found@[0] + replacement_len > image_len ==> verdict == Err::<
            Option<usize>,
            PatchError,
        >(PatchError::WriteOutOfBounds),
        found@.len() > 1 ==> verdict == Err::<Option<usize>, PatchError>(
            PatchError::AmbiguousSignature(found@.len() as usize),
        ),
{
    let count = found.len();
    if count == 0 {
        Ok(None)
    } else if count == 1 {
        let offset = found[0];
        if offset > image_len || replacement_len > image_len - offset {
            Err(PatchError::WriteOutOfBounds)
        } else {
            Ok(Some(offset))
        }
    } else {
        Err(PatchError::AmbiguousSignature(count))
    }
}

/// `writes` lists exactly the accepted rules among the first `upto`, in rule
/// order, each with the byte range that it writes.
pub open spec fn lists_accepted(
    image: Seq<u8>,
    rules: Seq<RuleView>,
    writes: Seq<PendingWrite>,
    upto: int,
) -> bool {
    &&& forall|k: int|
        0 <= k < writes.len() ==> {
            &&& (#[trigger] writes[k]).rule < upto
            &&& accepted(image, rules, writes[k].rule as int)
            &&& writes[k].start == write_start(image, rules, writes[k].rule as int)
            &&& writes[k].end == write_end(image, rules, writes[k].rule as int)
        }
    &&& forall|j: int, k: int| 0 <= j < k < writes.len() ==> writes[j].rule < writes[k].rule
    &&& forall|i: int|
        0 <= i < upto && accepted(image, rules, i) ==> exists|k: int|
            0 <= k < writes.len() && (#[trigger] writes[k]).rule == i
}

/// Two writes cover a common byte.
pub open spec fn ranges_meet(a: PendingWrite, b: PendingWrite) -> bool {
    a.start < a.end && b.start < b.end && a.start < b.end && b.start < a.end
}

/// `buffer` with `bytes` written over it from `offset` on.
pub open spec fn overwritten(buffer: Seq<u8>, offset: int, bytes: Seq<u8>) -> Seq<u8> {
    Seq::new(
        buffer.len(),
        |p: int|
            if offset <= p < offset + bytes.len() {
                bytes[p - offset]
            } else {
                buffer[p]
            },
    )
}

/// An accepted write of a valid rule lies inside the image, and the
/// signature matches where it starts.
pub proof fn lemma_accepted_write_fits(image: Seq<u8>, rules: Seq<RuleView>, i: int)
    requires
        accepted(image, rules, i),
        rules[i].valid(),
    ensures
        matches_at(image, rules[i].signature, write_start(image, rules, i)),
        0 <= write_start(image, rules, i) <= write_end(image, rules, i) <= image.len(),
{
    lemma_match_offsets_exact(image, rules[i].signature);
}

/// Where some rule is ambiguous and none before rule `i` is, rule `i` is the
/// first ambiguous one.
proof fn lemma_first_ambiguous_is(image: Seq<u8>, rules: Seq<RuleView>, i: int)
    requires
        ambiguous(image, rules, i),
        forall|j: int| 0 <= j < i ==> !ambiguous(image, rules, j),
    ensures
        any_ambiguous(image, rules),
        first_ambiguous(image, rules) == i,
{
    let c = first_ambiguous(image, rules);
    assert(ambiguous(image, rules, c) && forall|j: int|
        0 <= j < c ==> !ambiguous(image, rules, j));
    if c < i {
        assert(!ambiguous(image, rules, c));
    } else if i < c {
        assert(!ambiguous(image, rules, i));
    }
}

/// Two listed writes meet exactly where their rules overlap.
proof fn lemma_meeting_writes_overlap(
    image: Seq<u8>,
    rules: Seq<RuleView>,
    writes: Seq<PendingWrite>,
    j: int,
    k: int,
)
    requires
        lists_accepted(image, rules, writes, rules.len() as int),
        0 <= j < k < writes.len(),
    ensures
        ranges_meet(writes[j], writes[k]) <==> overlapping(
            image,
            rules,
            writes[j].rule as int,
            writes[k].rule as int,
        ),
{
    let a = writes[j];
    let b = writes[k];
    if ranges_meet(a, b) {
        let p: int = if a.start < b.start {
            b.start as int
        } else {
            a.start as int
        };
        assert(writes_byte(image, rules, a.rule as int, p));
        assert(writes_byte(image, rules, b.rule as int, p));
    }
}

/// Below an ambiguous rule there is a first ambiguous rule.
proof fn lemma_first_ambiguous_exists(image: Seq<u8>, rules: Seq<RuleView>, i: int)
    requires
        ambiguous(image, rules, i),
    ensures
        ambiguous(image, rules, first_ambiguous(image, rules)),
        first_ambiguous(image, rules) <= i,
        forall|j: int|
            0 <= j < first_ambiguous(image, rules) ==> !ambiguous(image, rules, j),
    decreases i,
{
    if forall|j: int| 0 <= j < i ==> !ambiguous(image, rules, j) {
        lemma_first_ambiguous_is(image, rules, i);
    } else {
        let j = choose|j: int| 0 <= j < i && ambiguous(image, rules, j);
        lemma_first_ambiguous_exists(image, rules, j);
    }
}

/// Where no rule's signature appears in the image, nothing is patched and
/// the outcome is `NoApplicablePatch`: an image whose signatures are gone is
/// never patched again.
pub proof fn lemma_no_match_no_patch(image: Seq<u8>, rules: Seq<RuleView>)
    requires
        forall|i: int| 0 <= i < rules.len() ==> occurrences(image, #[trigger] rules[i]) == 0,
    ensures
        outcome(image, rules) == Err::<Seq<u8>, PatchError>(PatchError::NoApplicablePatch),
{
    assert forall|i: int| !ambiguous(image, rules, i) by {
        if 0 <= i < rules.len() {
            assert(occurrences(image, rules[i]) == 0);
        }
    }
    assert forall|i: int| !accepted(image, rules, i) by {
        if 0 <= i < rules.len() {
            assert(occurrences(image, rules[i]) == 0);
        }
    }
}

/// Where a rule's signature appears twice, and no rule before it more than
/// twice, the outcome is `AmbiguousSignature(2)`, whatever the other rules
/// do.
pub proof fn lemma_double_match_aborts(image: Seq<u8>, rules: Seq<RuleView>, i: int)
    requires
        0 <= i < rules.len(),
        occurrences(image, rules[i]) == 2,
        forall|j: int| 0 <= j < i ==> occurrences(image, #[trigger] rules[j]) <= 2,
    ensures
        outcome(image, rules) == Err::<Seq<u8>, PatchError>(PatchError::AmbiguousSignature(2)),
{
    assert(ambiguous(image, rules, i));
    lemma_first_ambiguous_exists(image, rules, i);
    let first = first_ambiguous(image, rules);
    if first < i {
        assert(occurrences(image, rules[first]) <= 2);
    }
}

/// An ambiguous rule aborts the patch: the outcome is the number of matches,
/// more than one, of the first ambiguous rule.
pub proof fn lemma_ambiguity_aborts(image: Seq<u8>, rules: Seq<RuleView>, i: int)
    requires
        ambiguous(image, rules, i),
    ensures
        outcome(image, rules) == Err::<Seq<u8>, PatchError>(
            PatchError::AmbiguousSignature(
                occurrences(image, rules[first_ambiguous(image, rules)]) as usize,
            ),
        ),
        ambiguous(image, rules, first_ambiguous(image, rules)),
        first_ambiguous(image, rules) <= i,
{
    lemma_first_ambiguous_exists(image, rules, i);
}

/// A patched image is the image as given except in the range of each accepted
/// rule, and that range holds the rule's replacement exactly.
pub proof fn lemma_patched_image_exact(image: Seq<u8>, rules: Seq<RuleView>)
    requires
        forall|i: int| 0 <= i < rules.len() ==> (#[trigger] rules[i]).valid(),
        outcome(image, rules) is Ok,
    ensures
        outcome(image, rules) == Ok::<Seq<u8>, PatchError>(patched_image(image, rules)),
        patched_image(image, rules).len() == image.len(),
        forall|i: int| #[trigger]
            accepted(image, rules, i) ==> patched_image(image, rules).subrange(
                write_start(image, rules, i),
                write_end(image, rules, i),
            ) == rules[i].replacement,
        forall|p: int|
            0 <= p < image.len() && (forall|i: int| !writes_byte(image, rules, i, p))
                ==> #[trigger] patched_image(image, rules)[p] == image[p],
{
    let out = patched_image(image, rules);
    assert forall|i: int| #[trigger] accepted(image, rules, i) implies out.subrange(
        write_start(image, rules, i),
        write_end(image, rules, i),
    ) == rules[i].replacement by {
        lemma_accepted_write_fits(image, rules, i);
        let start = write_start(image, rules, i);
        let end = write_end(image, rules, i);
        assert forall|q: int| 0 <= q < end - start implies out[start + q]
            == rules[i].replacement[q] by {
            let p = start + q;
            assert(writes_byte(image, rules, i, p));
            let c = choose|c: int| writes_byte(image, rules, c, p);
            if c != i {
                assert(overlapping(image, rules, c, i));
            }
        }
        assert(out.subrange(start, end) =~= rules[i].replacement);
    }
}

/// Once a rule is applied its match is gone, where the replacement differs
/// from an exact cell of the signature: the signature no longer matches at
/// the offset that was patched.
pub proof fn lemma_patched_match_is_gone(image: Seq<u8>, rules: Seq<RuleView>, i: int, q: int)
    requires
        forall|k: int| 0 <= k < rules.len() ==> (#[trigger] rules[k]).valid(),
        outcome(image, rules) is Ok,
        accepted(image, rules, i),
        0 <= q < rules[i].replacement.len(),
        rules[i].signature[q] is Some,
        rules[i].signature[q]->0 != rules[i].replacement[q],
    ensures
        !matches_at(patched_image(image, rules), rules[i].signature, write_start(image, rules, i)),
{
    lemma_patched_image_exact(image, rules);
    lemma_accepted_write_fits(image, rules, i);
    let out = patched_image(image, rules);
    let start = write_start(image, rules, i);
    let end = write_end(image, rules, i);
    assert(out.subrange(start, end)[q] == rules[i].replacement[q]);
    assert(out[start + q] == rules[i].replacement[q]);
    assert(!cell_accepts(rules[i].signature[q], out[start + q]));
}

/// Whether two of the writes cover a common byte.
pub fn writes_conflict(writes: &[PendingWrite]) -> (hit: bool)
    ensures
        hit == exists|j: int, k: int|
            0 <= j < k < writes@.len() && ranges_meet(writes@[j], writes@[k]),
{
    let n = writes.len();
    let mut k: usize = 0;
    while k < n
        invariant
            n == writes@.len(),
            k <= n,
            forall|a: int, b: int| 0 <= a < b < k ==> !ranges_meet(writes@[a], writes@[b]),
        decreases n - k,
    {
        let later = writes[k];
        let mut j: usize = 0;
        while j < k
            invariant
                n == writes@.len(),
                k < n,
                j <= k,
                later == writes@[k as int],
                forall|a: int| 0 <= a < j ==> !ranges_meet(writes@[a], writes@[k as int]),
            decreases k - j,
        {
            let earlier = writes[j];
            if earlier.start < earlier.end && later.start < later.end && earlier.start
                < later.end && later.start < earlier.end {
                assert(ranges_meet(writes@[j as int], writes@[k as int]));
                return true;
            }
            j += 1;
        }
        k += 1;
    }
    false
}

/// Writes `bytes` over `buffer` from `offset` on; the bytes around them stay.
pub fn overwrite_at(buffer: &mut Vec<u8>, offset: usize, bytes: &[u8])
    requires
        offset + bytes@.len() <= old(buffer)@.len(),
    ensures
        final(buffer)@ == overwritten(old(buffer)@, offset as int, bytes@),
{
    let n = bytes.len();
    let total = buffer.len();
    let mut i: usize = 0;
    while i < n
        invariant
            n == bytes@.len(),
            i <= n,
            offset + n <= total,
            total == buffer@.len(),
            buffer@.len() == old(buffer)@.len(),
            forall|p: int|
                0 <= p < buffer@.len() ==> #[trigger] buffer@[p] == if offset <= p < offset + i {
                    bytes@[p - offset]
                } else {
                    old(buffer)@[p]
                },
        decreases n - i,
    {
        buffer.set(offset + i, bytes[i]);
        i += 1;
    }
    assert(buffer@ =~= overwritten(old(buffer)@, offset as int, bytes@));
}

/// Scans for every rule in turn, against the image as it was found, and
/// collects the accepted writes. The first rule that matches more than once
/// aborts the evaluation.
pub fn evaluate(image: &[u8], rules: &PatchSet) -> (result: Result<Vec<PendingWrite>, PatchError>)
    ensures
        match result {
            Ok(writes) => {
                &&& !any_ambiguous(image@, rule_views(rules@))
                &&& lists_accepted(image@, rule_views(rules@), writes@, rules@.len() as int)
            },
            Err(e) => {
                &&& any_ambiguous(image@, rule_views(rules@))
                &&& e == PatchError::AmbiguousSignature(
                    occurrences(
                        image@,
                        rule_views(rules@)[first_ambiguous(image@, rule_views(rules@))],
                    ) as usize,
                )
            },
        },
{
    let ghost views = rule_views(rules@);
    let mut writes: Vec<PendingWrite> = Vec::new();
    let count = rules.len();
    let mut i: usize = 0;
    while i < count
        invariant
            count == rules@.len(),
            views == rule_views(rules@),
            i <= count,
            forall|j: int| 0 <= j < i ==> !ambiguous(image@, views, j),
            lists_accepted(image@, views, writes@, i as int),
        decreases count - i,
    {
        let rule = &rules[i];
        let replacement = rule.replacement();
        let found = search(image, rule.signature());
        assert(views[i as int] == rule@);
        proof {
            lemma_match_offsets_exact(image@, rule@.signature);
        }
        match judge_matches(image.len(), found.as_slice(), replacement.len()) {
            Ok(None) => {
                assert(!accepted(image@, views, i as int));
            },
            Ok(Some(offset)) => {
                let ghost before = writes@;
                writes.push(PendingWrite { rule: i, start: offset, end: offset + replacement.len() });
                assert(accepted(image@, views, i as int));
                assert(writes@[before.len() as int].rule == i);
                assert forall|r: int| 0 <= r < i + 1 && accepted(image@, views, r) implies exists|
                    k: int,
                | 0 <= k < writes@.len() && (#[trigger] writes@[k]).rule == r by {
                    if r < i {
                        let k = choose|k: int| 0 <= k < before.len() && (#[trigger] before[k]).rule == r;
                        assert(writes@[k].rule == r);
                    }
                }
            },
            Err(e) => {
                assert(found@.len() > 1);
                proof {
                    lemma_first_ambiguous_is(image@, views, i as int);
                }
                return Err(e);
            },
        }
        i += 1;
    }
    assert(!any_ambiguous(image@, views));
    Ok(writes)
}

/// Decides what to write. The result is the list of accepted writes, one for
/// each rule that matches exactly once, or the reason why nothing may be
/// written.
pub fn plan(image: &[u8], rules: &PatchSet) -> (result: Result<Vec<PendingWrite>, PatchError>)
    ensures
        match result {
            Ok(writes) => {
                &&& outcome(image@, rule_views(rules@)) is Ok
                &&& lists_accepted(image@, rule_views(rules@), writes@, rules@.len() as int)
            },
            Err(e) => outcome(image@, rule_views(rules@)) == Err::<Seq<u8>, PatchError>(e),
        },
{
    let ghost views = rule_views(rules@);
    let writes = evaluate(image, rules)?;
    let conflict = writes_conflict(writes.as_slice());
    proof {
        if conflict {
            let (j, k) = choose|j: int, k: int|
                0 <= j < k < writes@.len() && ranges_meet(writes@[j], writes@[k]);
            lemma_meeting_writes_overlap(image@, views, writes@, j, k);
            assert(overlapping(image@, views, writes@[j].rule as int, writes@[k].rule as int));
        } else if any_overlapping(image@, views) {
            let (a, b) = choose|a: int, b: int| overlapping(image@, views, a, b);
            let ka = choose|k: int| 0 <= k < writes@.len() && (#[trigger] writes@[k]).rule == a;
            let kb = choose|k: int| 0 <= k < writes@.len() && (#[trigger] writes@[k]).rule == b;
            if ka < kb {
                lemma_meeting_writes_overlap(image@, views, writes@, ka, kb);
            } else {
                lemma_meeting_writes_overlap(image@, views, writes@, kb, ka);
                assert(overlapping(image@, views, b, a));
            }
        }
    }
    if conflict {
        return Err(PatchError::ConflictingPatches);
    }
    if writes.len() == 0 {
        return Err(PatchError::NoApplicablePatch);
    }
    assert(accepted(image@, views, writes@[0].rule as int));
    Ok(writes)
}

/// Patches `image` with `rules`. Every rule is judged against the image as
/// given. A rule that matches nowhere is skipped; the result is the image
/// with the replacement of every rule that matches exactly once written at
/// its match, or the reason why nothing was patched.
pub fn apply(image: &[u8], rules: &PatchSet) -> (result: Result<Vec<u8>, PatchError>)
    ensures
        match result {
            Ok(bytes) => outcome(image@, rule_views(rules@)) == Ok::<Seq<u8>, PatchError>(bytes@),
            Err(e) => outcome(image@, rule_views(rules@)) == Err::<Seq<u8>, PatchError>(e),
        },
{
    let ghost views = rule_views(rules@);
    let writes = plan(image, rules)?;
    let mut patched: Vec<u8> = Vec::new();
    patched.extend_from_slice(image);
    assert(patched@ =~= image@);
    let count = writes.len();
    let mut k: usize = 0;
    while k < count
        invariant
            count == writes@.len(),
            views == rule_views(rules@),
            k <= count,
            !any_overlapping(image@, views),
            lists_accepted(image@, views, writes@, rules@.len() as int),
            patched@.len() == image@.len(),
            forall|p: int, j: int|
                0 <= p < image@.len() && 0 <= j < k && writes_byte(
                    image@,
                    views,
                    (#[trigger] writes@[j]).rule as int,
                    p,
                ) ==> #[trigger] patched@[p] == views[writes@[j].rule as int].replacement[p
                    - writes@[j].start],
            forall|p: int|
                0 <= p < image@.len() && (forall|j: int|
                    0 <= j < k ==> !writes_byte(image@, views, (#[trigger] writes@[j]).rule as int, p))
                    ==> #[trigger] patched@[p] == image@[p],
        decreases count - k,
    {
        let write = writes[k];
        let rule = &rules[write.rule];
        let replacement = rule.replacement();
        assert(views[write.rule as int] == rule@);
        proof {
            lemma_accepted_write_fits(image@, views, write.rule as int);
        }
        let ghost before = patched@;
        overwrite_at(&mut patched, write.start, replacement.as_slice());
        assert forall|p: int, j: int|
            0 <= p < image@.len() && 0 <= j < k + 1 && writes_byte(
                image@,
                views,
                (#[trigger] writes@[j]).rule as int,
                p,
            ) implies #[trigger] patched@[p] == views[writes@[j].rule as int].replacement[p
            - writes@[j].start] by {
            if j < k {
                if writes_byte(image@, views, write.rule as int, p) {
                    assert(overlapping(image@, views, writes@[j].rule as int, write.rule as int));
                }
            }
        }
        assert forall|p: int|
            0 <= p < image@.len() && (forall|j: int|
                0 <= j < k + 1 ==> !writes_byte(
                    image@,
                    views,
                    (#[trigger] writes@[j]).rule as int,
                    p,
                )) implies #[trigger] patched@[p] == image@[p] by {
            assert(!writes_byte(image@, views, writes@[k as int].rule as int, p));
            assert forall|j: int| 0 <= j < k implies !writes_byte(
                image@,
                views,
                (#[trigger] writes@[j]).rule as int,
                p,
            ) by {}
        }
        k += 1;
    }
    proof {
        let target = patched_image(image@, views);
        assert forall|p: int| 0 <= p < image@.len() implies patched@[p] == target[p] by {
            if exists|i: int| writes_byte(image@, views, i, p) {
                let i = choose|i: int| writes_byte(image@, views, i, p);
                let j = choose|j: int| 0 <= j < writes@.len() && (#[trigger] writes@[j]).rule == i;
                assert(writes_byte(image@, views, writes@[j].rule as int, p));
            } else {
                assert forall|j: int| 0 <= j < k implies !writes_byte(
                    image@,
                    views,
                    (#[trigger] writes@[j]).rule as int,
                    p,
                ) by {}
            }
        }
        assert(patched@ =~= target);
    }
    Ok(patched)
}

} // verus!
