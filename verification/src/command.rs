//! Reading the path of the target's executable out of a shell command.

use crate::text::{
    chars_of, find_char, has_marker, has_quoted_span, is_quoted_span, is_word,
    lemma_quoted_span_unique, lemma_words_apart, mentions_target, next_word, quoted_span,
    quoted_text, space_mask, space_mask_of,
};
use vstd::prelude::*;
use vstd::string::*;

verus! {

/// A word that names a file of the target application: it holds the marker
/// and a colon.
pub open spec fn names_target_file(word: Seq<char>) -> bool {
    has_marker(word) && word.contains(':')
}

/// `start..end` is the first word of `text` that names a target file.
pub open spec fn is_first_target_word(text: Seq<char>, start: int, end: int) -> bool {
    &&& is_word(space_mask_of(text), start, end)
    &&& names_target_file(text.subrange(start, end))
    &&& forall|a: int, b: int|
        a < start && #[trigger] is_word(space_mask_of(text), a, b) ==> !names_target_file(
            text.subrange(a, b),
        )
}

/// Some word of `text` names a target file.
pub open spec fn has_target_word(text: Seq<char>) -> bool {
    exists|start: int, end: int| is_first_target_word(text, start, end)
}

/// The first word of `text` that names a target file.
pub open spec fn target_word(text: Seq<char>) -> Seq<char> {
    let (start, end) = choose|start: int, end: int| is_first_target_word(text, start, end);
    text.subrange(start, end)
}

/// The path of the target application's executable in a shell command: what
/// stands between the first two double quotes, where that names the target;
/// otherwise the first word that names it and holds a colon.
pub open spec fn extracted_path(cmd: Seq<char>) -> Option<Seq<char>> {
    if has_quoted_span(cmd) && has_marker(quoted_text(cmd)) {
        Some(quoted_text(cmd))
    } else if has_target_word(cmd) {
        Some(target_word(cmd))
    } else {
        None
    }
}

/// Reads the path of the target's executable out of a shell command. The
/// text between the first two double quotes is the path where it names the
/// target; otherwise the first word that names the target and holds a colon
/// is; otherwise the command gives no path.
pub fn extract_path(cmd: &str) -> (path: Option<String>)
    ensures
        match path {
            Some(p) => extracted_path(cmd@) == Some(p@),
            None => extracted_path(cmd@) is None,
        },
{
    let chars = chars_of(cmd);
    match quoted_span(chars.as_slice()) {
        Some((start, end)) => {
            proof {
                let (a, b) = choose|a: int, b: int| is_quoted_span(cmd@, a, b);
                lemma_quoted_span_unique(cmd@, a, b, start as int, end as int);
            }
            let inner = cmd.substring_char(start, end);
            if mentions_target(inner) {
                return Some(inner.to_owned());
            }
        },
        None => {},
    }
    let mask = space_mask(chars.as_slice());
    let total = chars.len();
    let mut from: usize = 0;
    loop
        invariant
            chars@ == cmd@,
            mask@ == space_mask_of(cmd@),
            total == cmd@.len(),
            from <= total,
            !(has_quoted_span(cmd@) && has_marker(quoted_text(cmd@))),
            forall|a: int, b: int|
                a < from && #[trigger] is_word(mask@, a, b) ==> !names_target_file(
                    cmd@.subrange(a, b),
                ),
        decreases total - from,
    {
        match next_word(mask.as_slice(), from) {
            None => {
                assert(!has_target_word(cmd@));
                return None;
            },
            Some((start, end)) => {
                let word = cmd.substring_char(start, end);
                let named = mentions_target(word);
                let colon = find_char(chars.as_slice(), ':', start);
                let holds_colon = match colon {
                    Some(at) => at < end,
                    None => false,
                };
                proof {
                    let w = cmd@.subrange(start as int, end as int);
                    if holds_colon {
                        assert(w[colon->0 - start] == ':');
                    } else if w.contains(':') {
                        let i = choose|i: int| 0 <= i < w.len() && w[i] == ':';
                        assert(cmd@[start + i] == ':');
                    }
                }
                if named && holds_colon {
                    proof {
                        assert(is_first_target_word(cmd@, start as int, end as int));
                        let (a, b) = choose|a: int, b: int| is_first_target_word(cmd@, a, b);
                        if a < start {
                            assert(is_word(mask@, a, b));
                        } else if start < a {
                            assert(is_word(mask@, start as int, end as int));
                        }
                        lemma_words_apart(mask@, a, b, start as int, end as int);
                    }
                    return Some(word.to_owned());
                }
                assert forall|a: int, b: int|
                    a < end && #[trigger] is_word(mask@, a, b) implies !names_target_file(
                    cmd@.subrange(a, b),
                ) by {
                    if start <= a {
                        lemma_words_apart(mask@, start as int, end as int, a, b);
                    }
                }
                from = end;
            },
        }
    }
}

} // verus!
