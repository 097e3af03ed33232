//! Character-level helpers for the command strings that the locator reads.

use vstd::prelude::*;

verus! {

/// The characters of `text`, in order.
pub fn chars_of(text: &str) -> (chars: Vec<char>)
    ensures
        chars@ == text@,
{
    let mut chars: Vec<char> = Vec::new();
    for c in it: text.chars()
        invariant
            it.seq() == text@,
            chars@ == text@.take(it.index() as int),
    {
        chars.push(c);
        assert(text@.take(it.index() + 1) =~= text@.take(it.index() as int).push(c));
    }
    assert(text@.take(text@.len() as int) =~= text@);
    chars
}

/// The lowercase form that std gives a string.
pub uninterp spec fn lowercase(text: Seq<char>) -> Seq<char>;

/// Whether a character is white space: whether it has the Unicode property
/// White_Space.
pub open spec fn is_space(c: char) -> bool {
    let code = c as u32;
    ||| 0x0009 <= code <= 0x000D
    ||| code == 0x0020
    ||| code == 0x0085
    ||| code == 0x00A0
    ||| code == 0x1680
    ||| 0x2000 <= code <= 0x200A
    ||| code == 0x2028
    ||| code == 0x2029
    ||| code == 0x202F
    ||| code == 0x205F
    ||| code == 0x3000
}

/// `str::to_lowercase`: the result is the lowercase form of the whole
/// string. Nothing more is claimed of it; the form has the name `lowercase`.
pub assume_specification[ str::to_lowercase ](text: &str) -> (lowered: String)
    ensures
        lowered@ == lowercase(text@),
;

/// `char::is_whitespace`: the result says whether the character has the
/// Unicode property White_Space, which `is_space` lists.
pub assume_specification[ char::is_whitespace ](c: char) -> (space: bool)
    ensures
        space == is_space(c),
;

/// `run` stands in `text` at position `at`.
pub open spec fn run_at(text: Seq<char>, run: Seq<char>, at: int) -> bool {
    0 <= at && at + run.len() <= text.len() && text.subrange(at, at + run.len()) == run
}

/// `run` stands somewhere in `text`.
pub open spec fn contains_run(text: Seq<char>, run: Seq<char>) -> bool {
    exists|at: int| run_at(text, run, at)
}

/// The marker by which the target application is known, in lowercase.
pub open spec fn target_marker() -> Seq<char> {
    seq!['r', 'e', 's', 'o', 'l', 'v', 'e']
}

/// `text` names the target application, in whatever case.
pub open spec fn has_marker(text: Seq<char>) -> bool {
    contains_run(lowercase(text), target_marker())
}

/// `at` is the first position from `from` on at which `c` stands in `text`.
pub open spec fn is_first_from(text: Seq<char>, c: char, from: int, at: int) -> bool {
    &&& 0 <= from <= at < text.len()
    &&& text[at] == c
    &&& forall|j: int| from <= j < at ==> text[j] != c
}

/// `start..end` is what stands between the first double quote of `text`
/// and the next one.
pub open spec fn is_quoted_span(text: Seq<char>, start: int, end: int) -> bool {
    &&& 1 <= start
    &&& is_first_from(text, '"', 0, start - 1)
    &&& is_first_from(text, '"', start, end)
}

/// `text` holds two double quotes.
pub open spec fn has_quoted_span(text: Seq<char>) -> bool {
    exists|start: int, end: int| is_quoted_span(text, start, end)
}

/// What stands between the first two double quotes of `text`.
pub open spec fn quoted_text(text: Seq<char>) -> Seq<char> {
    let (start, end) = choose|start: int, end: int| is_quoted_span(text, start, end);
    text.subrange(start, end)
}

/// For each character of `text`, whether it is white space.
pub open spec fn space_mask_of(text: Seq<char>) -> Seq<bool> {
    Seq::new(text.len(), |i: int| is_space(text[i]))
}

/// `start..end` is a word: a longest stretch without white space, `mask`
/// saying where the white space is.
pub open spec fn is_word(mask: Seq<bool>, start: int, end: int) -> bool {
    &&& 0 <= start < end <= mask.len()
    &&& forall|j: int| start <= j < end ==> !mask[j]
    &&& (start == 0 || mask[start - 1])
    &&& (end == mask.len() || mask[end])
}

/// A text has at most one quoted span.
pub proof fn lemma_quoted_span_unique(text: Seq<char>, a: int, b: int, c: int, d: int)
    requires
        is_quoted_span(text, a, b),
        is_quoted_span(text, c, d),
    ensures
        a == c,
        b == d,
{
    if a < c {
        assert(text[a - 1] != '"');
    } else if c < a {
        assert(text[c - 1] != '"');
    }
    if b < d {
        assert(text[b] != '"');
    } else if d < b {
        assert(text[d] != '"');
    }
}

/// A word is fixed by where it starts, and no word starts inside another.
pub proof fn lemma_words_apart(mask: Seq<bool>, a: int, b: int, c: int, d: int)
    requires
        is_word(mask, a, b),
        is_word(mask, c, d),
        a <= c < b,
    ensures
        a == c,
        b == d,
{
    if a < c {
        assert(!mask[c - 1]);
    }
    if b < d {
        assert(!mask[b]);
    } else if d < b {
        assert(!mask[d]);
    }
}

/// The marker, as characters.
pub fn marker_chars() -> (marker: Vec<char>)
    ensures
        marker@ == target_marker(),
{
    let marker = vec!['r', 'e', 's', 'o', 'l', 'v', 'e'];
    assert(marker@ =~= target_marker());
    marker
}

/// Whether `run` stands in `text` at `at`.
pub fn stands_at(text: &[char], run: &[char], at: usize) -> (hit: bool)
    ensures
        hit == run_at(text@, run@, at as int),
{
    let n = run.len();
    let total = text.len();
    if at > total || n > total - at {
        return false;
    }
    let mut i: usize = 0;
    while i < n
        invariant
            n == run@.len(),
            total == text@.len(),
            at + n <= total,
            i <= n,
            forall|j: int| 0 <= j < i ==> text@[at + j] == run@[j],
        decreases n - i,
    {
        if text[at + i] != run[i] {
            assert(text@.subrange(at as int, at + n)[i as int] != run@[i as int]);
            return false;
        }
        i += 1;
    }
    assert(text@.subrange(at as int, at + n) =~= run@);
    true
}

/// Whether `run` stands somewhere in `text`. The empty run stands in every
/// text.
pub fn contains_chars(text: &[char], run: &[char]) -> (hit: bool)
    ensures
        hit == contains_run(text@, run@),
{
    let n = run.len();
    let total = text.len();
    if n > total {
        return false;
    }
    let last = total - n;
    let mut at: usize = 0;
    while at < last
        invariant
            n == run@.len(),
            total == text@.len(),
            last == total - n,
            at <= last,
            forall|j: int| 0 <= j < at ==> !run_at(text@, run@, j),
        decreases last - at,
    {
        if stands_at(text, run, at) {
            return true;
        }
        at += 1;
    }
    stands_at(text, run, last)
}

/// Whether `text` names the target application, in whatever case.
pub fn mentions_target(text: &str) -> (hit: bool)
    ensures
        hit == has_marker(text@),
{
    let lowered = text.to_lowercase();
    let chars = chars_of(lowered.as_str());
    let marker = marker_chars();
    contains_chars(chars.as_slice(), marker.as_slice())
}

/// The first position from `from` on at which `c` stands in `text`.
pub fn find_char(text: &[char], c: char, from: usize) -> (at: Option<usize>)
    ensures
        match at {
            Some(i) => is_first_from(text@, c, from as int, i as int),
            None => forall|j: int| from <= j < text@.len() ==> text@[j] != c,
        },
{
    let total = text.len();
    let mut i: usize = from;
    while i < total
        invariant
            total == text@.len(),
            from <= i,
            forall|j: int| from <= j < i && j < total ==> text@[j] != c,
        decreases total - i,
    {
        if text[i] == c {
            return Some(i);
        }
        i += 1;
    }
    None
}

/// The span between the first double quote of `text` and the next one.
pub fn quoted_span(text: &[char]) -> (span: Option<(usize, usize)>)
    ensures
        match span {
            Some((start, end)) => is_quoted_span(text@, start as int, end as int),
            None => !has_quoted_span(text@),
        },
{
    let total = text.len();
    match find_char(text, '"', 0) {
        None => None,
        Some(open) => {
            assert(open < total);
            match find_char(text, '"', open + 1) {
                None => {
                    assert forall|a: int, b: int| !is_quoted_span(text@, a, b) by {
                        if is_quoted_span(text@, a, b) {
                            if a - 1 < open {
                                assert(text@[a - 1] != '"');
                            } else if open < a - 1 {
                                assert(text@[open as int] != '"');
                            }
                        }
                    }
                    None
                },
                Some(close) => Some((open + 1, close)),
            }
        },
    }
}

/// For each character of `text`, whether it is white space.
pub fn space_mask(text: &[char]) -> (mask: Vec<bool>)
    ensures
        mask@ == space_mask_of(text@),
{
    let total = text.len();
    let mut mask: Vec<bool> = Vec::new();
    let mut i: usize = 0;
    while i < total
        invariant
            total == text@.len(),
            i <= total,
            mask@.len() == i,
            forall|j: int| 0 <= j < i ==> mask@[j] == is_space(text@[j]),
        decreases total - i,
    {
        mask.push(text[i].is_whitespace());
        i += 1;
    }
    assert(mask@ =~= space_mask_of(text@));
    mask
}

/// The first word that starts at `from` or later.
pub fn next_word(mask: &[bool], from: usize) -> (word: Option<(usize, usize)>)
    ensures
        match word {
            Some((start, end)) => {
                &&& from <= start
                &&& is_word(mask@, start as int, end as int)
                &&& forall|a: int, b: int| from <= a < start ==> !is_word(mask@, a, b)
            },
            None => forall|a: int, b: int| from <= a ==> !is_word(mask@, a, b),
        },
{
    let total = mask.len();
    if from >= total {
        return None;
    }
    let mut start: usize = from;
    if from > 0 && !mask[from - 1] {
        while start < total && !mask[start]
            invariant
                total == mask@.len(),
                0 < from <= start,
                forall|j: int| from - 1 <= j < start && j < total ==> !mask@[j],
            decreases total - start,
        {
            start += 1;
        }
    }
    let ghost inside = start;
    while start < total && mask[start]
        invariant
            total == mask@.len(),
            from <= inside <= start,
            forall|j: int| inside <= j < start && j < total ==> mask@[j],
        decreases total - start,
    {
        start += 1;
    }
    assert forall|a: int, b: int| from <= a < start implies !is_word(mask@, a, b) by {
        if is_word(mask@, a, b) {
            if a < inside {
                assert(!mask@[a - 1]);
            } else {
                assert(mask@[a]);
            }
        }
    }
    if start >= total {
        assert forall|a: int, b: int| from <= a implies !is_word(mask@, a, b) by {}
        return None;
    }
    let mut end: usize = start + 1;
    while end < total && !mask[end]
        invariant
            total == mask@.len(),
            start < end <= total,
            forall|j: int| start <= j < end ==> !mask@[j],
        decreases total - end,
    {
        end += 1;
    }
    Some((start, end))
}

} // verus!
