//! The written form of patch rules: a signature as pairs of characters, two
//! hexadecimal digits for an exact byte and `??` for a wildcard; an equals
//! sign; and the replacement as pairs of hexadecimal digits. `11??33=AABB`
//! writes the signature `11 ?? 33` with the replacement `AA BB`.

use crate::patch::{PatchRule, RuleView};
use crate::signature::Signature;
use crate::text::{chars_of, find_char, is_first_from};
use vstd::prelude::*;

verus! {

/// The value of a hexadecimal digit, in either case.
pub open spec fn hex_value(c: char) -> Option<int> {
    if '0' <= c <= '9' {
        Some(c as int - '0' as int)
    } else if 'a' <= c <= 'f' {
        Some(c as int - 'a' as int + 10)
    } else if 'A' <= c <= 'F' {
        Some(c as int - 'A' as int + 10)
    } else {
        None
    }
}

/// The byte that two hexadecimal digits write.
pub open spec fn written_byte(high: char, low: char) -> Option<u8> {
    match (hex_value(high), hex_value(low)) {
        (Some(h), Some(l)) => Some((h * 16 + l) as u8),
        _ => None,
    }
}

/// The cell that two characters write: `??` a wildcard, two hexadecimal
/// digits an exact byte.
pub open spec fn written_cell(high: char, low: char) -> Option<Option<u8>> {
    if high == '?' && low == '?' {
        Some(None)
    } else {
        match written_byte(high, low) {
            Some(byte) => Some(Some(byte)),
            None => None,
        }
    }
}

/// `text` is a run of well-written cells.
pub open spec fn writes_cells(text: Seq<char>) -> bool {
    &&& text.len() % 2 == 0
    &&& forall|i: int|
        0 <= i < text.len() / 2 ==> (#[trigger] written_cell(text[2 * i], text[2 * i + 1])) is Some
}

/// The cells that `text` writes.
pub open spec fn written_cells(text: Seq<char>) -> Seq<Option<u8>> {
    Seq::new(text.len() / 2, |i: int| written_cell(text[2 * i], text[2 * i + 1])->0)
}

/// `text` is a run of well-written bytes.
pub open spec fn writes_bytes(text: Seq<char>) -> bool {
    &&& text.len() % 2 == 0
    &&& forall|i: int|
        0 <= i < text.len() / 2 ==> (#[trigger] written_byte(text[2 * i], text[2 * i + 1])) is Some
}

/// The bytes that `text` writes.
pub open spec fn written_bytes(text: Seq<char>) -> Seq<u8> {
    Seq::new(text.len() / 2, |i: int| written_byte(text[2 * i], text[2 * i + 1])->0)
}

/// `line` writes a rule, with its equals sign at `at`: a signature of at
/// least one cell before it and a replacement after it that is no longer.
pub open spec fn writes_rule_at(line: Seq<char>, at: int) -> bool {
    &&& is_first_from(line, '=', 0, at)
    &&& writes_cells(line.subrange(0, at))
    &&& writes_bytes(line.subrange(at + 1, line.len() as int))
    &&& 0 < at
    &&& line.len() - (at + 1) <= at
}

/// `line` writes a rule.
pub open spec fn writes_rule(line: Seq<char>) -> bool {
    exists|at: int| writes_rule_at(line, at)
}

/// The rule that `line` writes.
pub open spec fn written_rule(line: Seq<char>) -> RuleView {
    let at = choose|at: int| writes_rule_at(line, at);
    RuleView {
        signature: written_cells(line.subrange(0, at)),
        replacement: written_bytes(line.subrange(at + 1, line.len() as int)),
    }
}

/// Reads a hexadecimal digit.
pub fn read_digit(c: char) -> (value: Option<u8>)
    ensures
        match value {
            Some(v) => hex_value(c) == Some(v as int),
            None => hex_value(c) is None,
        },
{
    let code = c as u32;
    if '0' <= c && c <= '9' {
        Some((code - 0x30) as u8)
    } else if 'a' <= c && c <= 'f' {
        Some((code - 0x61 + 10) as u8)
    } else if 'A' <= c && c <= 'F' {
        Some((code - 0x41 + 10) as u8)
    } else {
        None
    }
}

/// Reads the byte that two hexadecimal digits write.
pub fn read_byte(high: char, low: char) -> (byte: Option<u8>)
    ensures
        byte == written_byte(high, low),
{
    match (read_digit(high), read_digit(low)) {
        (Some(h), Some(l)) => Some(h * 16 + l),
        _ => None,
    }
}

/// Reads a run of cells. A run of odd length, or one with a pair that is
/// neither `??` nor two hexadecimal digits, is refused.
pub fn read_cells(text: &[char]) -> (cells: Option<Vec<Option<u8>>>)
    ensures
        cells is Some <==> writes_cells(text@),
        cells is Some ==> cells->0@ == written_cells(text@),
{
    let total = text.len();
    if total % 2 != 0 {
        return None;
    }
    let count = total / 2;
    let mut cells: Vec<Option<u8>> = Vec::new();
    let mut i: usize = 0;
    while i < count
        invariant
            total == text@.len(),
            total == 2 * count,
            i <= count,
            cells@.len() == i,
            forall|j: int|
                0 <= j < i ==> written_cell(text@[2 * j], text@[2 * j + 1]) == Some(
                    #[trigger] cells@[j],
                ),
        decreases count - i,
    {
        let high = text[2 * i];
        let low = text[2 * i + 1];
        if high == '?' && low == '?' {
            cells.push(None);
        } else {
            match read_byte(high, low) {
                Some(byte) => cells.push(Some(byte)),
                None => {
                    assert(written_cell(text@[2 * i as int], text@[2 * i as int + 1]) is None);
                    return None;
                },
            }
        }
        i += 1;
    }
    assert forall|j: int| 0 <= j < text@.len() / 2 implies (#[trigger] written_cell(
        text@[2 * j],
        text@[2 * j + 1],
    )) is Some by {
        assert(written_cell(text@[2 * j], text@[2 * j + 1]) == Some(cells@[j]));
    }
    assert(cells@ =~= written_cells(text@));
    Some(cells)
}

/// Reads a run of bytes. A run of odd length, or one with a pair that is
/// not two hexadecimal digits, is refused.
pub fn read_bytes(text: &[char]) -> (bytes: Option<Vec<u8>>)
    ensures
        bytes is Some <==> writes_bytes(text@),
        bytes is Some ==> bytes->0@ == written_bytes(text@),
{
    let total = text.len();
    if total % 2 != 0 {
        return None;
    }
    let count = total / 2;
    let mut bytes: Vec<u8> = Vec::new();
    let mut i: usize = 0;
    while i < count
        invariant
            total == text@.len(),
            total == 2 * count,
            i <= count,
            bytes@.len() == i,
            forall|j: int|
                0 <= j < i ==> written_byte(text@[2 * j], text@[2 * j + 1]) == Some(
                    #[trigger] bytes@[j],
                ),
        decreases count - i,
    {
        match read_byte(text[2 * i], text[2 * i + 1]) {
            Some(byte) => bytes.push(byte),
            None => {
                assert(written_byte(text@[2 * i as int], text@[2 * i as int + 1]) is None);
                return None;
            },
        }
        i += 1;
    }
    assert forall|j: int| 0 <= j < text@.len() / 2 implies (#[trigger] written_byte(
        text@[2 * j],
        text@[2 * j + 1],
    )) is Some by {
        assert(written_byte(text@[2 * j], text@[2 * j + 1]) == Some(bytes@[j]));
    }
    assert(bytes@ =~= written_bytes(text@));
    Some(bytes)
}

/// Reads a rule from its written form. A line without an equals sign, with
/// an empty or ill-written signature, with an ill-written replacement, or
/// with a replacement longer than the signature is refused.
pub fn read_rule(line: &str) -> (rule: Option<PatchRule>)
    ensures
        rule is Some <==> writes_rule(line@),
        rule is Some ==> rule->0@ == written_rule(line@),
{
    let chars = chars_of(line);
    let total = chars.len();
    let at = match find_char(chars.as_slice(), '=', 0) {
        Some(at) => at,
        None => {
            assert forall|k: int| !writes_rule_at(line@, k) by {}
            return None;
        },
    };
    assert forall|k: int| writes_rule_at(line@, k) implies k == at by {
        if k < at {
            assert(line@[k] == '=');
        } else if at < k {
            assert(line@[at as int] == '=');
        }
    }
    let (before, rest) = chars.as_slice().split_at(at);
    let (_, after) = rest.split_at(1);
    assert(before@ =~= line@.subrange(0, at as int));
    assert(after@ =~= line@.subrange(at + 1, total as int));
    let cells = match read_cells(before) {
        Some(cells) => cells,
        None => return None,
    };
    let bytes = match read_bytes(after) {
        Some(bytes) => bytes,
        None => return None,
    };
    let signature = match Signature::new(cells) {
        Some(signature) => signature,
        None => return None,
    };
    let rule = PatchRule::new(signature, bytes);
    proof {
        if rule is Some {
            assert(writes_rule_at(line@, at as int));
        }
    }
    rule
}

} // verus!
