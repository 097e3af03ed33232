//! Byte signatures with wildcard positions, and the scan that finds them in an image.

use vstd::prelude::*;

verus! {

/// Whether one signature cell accepts a byte: a wildcard (`None`) accepts
/// every byte, an exact cell accepts only its own value.
pub open spec fn cell_accepts(cell: Option<u8>, byte: u8) -> bool {
    match cell {
        Some(expected) => expected == byte,
        None => true,
    }
}

/// The signature `cells` fits into `haystack` at `offset` and every cell
/// accepts the byte it lies on.
pub open spec fn matches_at(haystack: Seq<u8>, cells: Seq<Option<u8>>, offset: int) -> bool {
    &&& 0 <= offset
    &&& offset + cells.len() <= haystack.len()
    &&& forall|i: int|
        0 <= i < cells.len() ==> cell_accepts(#[trigger] cells[i], haystack[offset + i])
}

/// The offsets below `bound` at which `cells` matches, in increasing order.
pub open spec fn match_offsets_below(
    haystack: Seq<u8>,
    cells: Seq<Option<u8>>,
    bound: int,
) -> Seq<int>
    decreases bound,
{
    if bound <= 0 {
        Seq::empty()
    } else if matches_at(haystack, cells, bound - 1) {
        match_offsets_below(haystack, cells, bound - 1).push(bound - 1)
    } else {
        match_offsets_below(haystack, cells, bound - 1)
    }
}

/// Every offset at which `cells` matches in `haystack`, in increasing order.
pub open spec fn match_offsets(haystack: Seq<u8>, cells: Seq<Option<u8>>) -> Seq<int> {
    match_offsets_below(haystack, cells, haystack.len() as int + 1)
}

/// `match_offsets_below` holds exactly the matching offsets under its bound,
/// each once and in strictly increasing order.
pub proof fn lemma_match_offsets_below(haystack: Seq<u8>, cells: Seq<Option<u8>>, bound: int)
    ensures
        forall|k: int|
            0 <= k < match_offsets_below(haystack, cells, bound).len() ==> {
                &&& matches_at(
                    haystack,
                    cells,
                    #[trigger] match_offsets_below(haystack, cells, bound)[k],
                )
                &&& match_offsets_below(haystack, cells, bound)[k] < bound
            },
        forall|o: int|
            o < bound && matches_at(haystack, cells, o) ==> match_offsets_below(
                haystack,
                cells,
                bound,
            ).contains(o),
        forall|j: int, k: int|
            0 <= j < k < match_offsets_below(haystack, cells, bound).len()
                ==> match_offsets_below(haystack, cells, bound)[j] < match_offsets_below(
                haystack,
                cells,
                bound,
            )[k],
    decreases bound,
{
    if bound > 0 {
        lemma_match_offsets_below(haystack, cells, bound - 1);
        let before = match_offsets_below(haystack, cells, bound - 1);
        let all = match_offsets_below(haystack, cells, bound);
        assert forall|o: int| o < bound && matches_at(haystack, cells, o) implies all.contains(
            o,
        ) by {
            if o < bound - 1 {
                let k = choose|k: int| 0 <= k < before.len() && before[k] == o;
                assert(all[k] == o);
            } else {
                assert(all[all.len() - 1] == o);
            }
        }
    }
}

/// A scan result is exact: it lists the offsets where every exact cell
/// equals the byte under it, wildcards being ignored, in strictly increasing
/// order and without omission.
pub proof fn lemma_match_offsets_exact(haystack: Seq<u8>, cells: Seq<Option<u8>>)
    ensures
        forall|k: int|
            0 <= k < match_offsets(haystack, cells).len() ==> matches_at(
                haystack,
                cells,
                #[trigger] match_offsets(haystack, cells)[k],
            ),
        forall|o: int|
            matches_at(haystack, cells, o) ==> match_offsets(haystack, cells).contains(o),
        forall|j: int, k: int|
            0 <= j < k < match_offsets(haystack, cells).len() ==> match_offsets(
                haystack,
                cells,
            )[j] < match_offsets(haystack, cells)[k],
{
    lemma_match_offsets_below(haystack, cells, haystack.len() as int + 1);
}

/// A signature longer than the haystack matches nowhere.
pub proof fn lemma_longer_signature_never_matches(haystack: Seq<u8>, cells: Seq<Option<u8>>)
    requires
        cells.len() > haystack.len(),
    ensures
        match_offsets(haystack, cells) == Seq::<int>::empty(),
{
    lemma_match_offsets_exact(haystack, cells);
    let all = match_offsets(haystack, cells);
    if all.len() > 0 {
        assert(matches_at(haystack, cells, all[0]));
    }
    assert(all =~= Seq::<int>::empty());
}

/// Offsets in strictly increasing order lie at or above their own rank.
proof fn lemma_increasing_offsets_grow(offsets: Seq<int>, k: int)
    requires
        0 <= k < offsets.len(),
        0 <= offsets[0],
        forall|i: int, j: int| 0 <= i < j < offsets.len() ==> offsets[i] < offsets[j],
    ensures
        k <= offsets[k],
    decreases k,
{
    if k > 0 {
        lemma_increasing_offsets_grow(offsets, k - 1);
    }
}

/// A scan result is finite: it holds no more offsets than there are places
/// at which the signature fits.
pub proof fn lemma_match_count_bounded(haystack: Seq<u8>, cells: Seq<Option<u8>>)
    requires
        cells.len() <= haystack.len(),
    ensures
        match_offsets(haystack, cells).len() <= haystack.len() - cells.len() + 1,
{
    lemma_match_offsets_exact(haystack, cells);
    let all = match_offsets(haystack, cells);
    if all.len() > 0 {
        assert(matches_at(haystack, cells, all[0]));
        assert(matches_at(haystack, cells, all[all.len() - 1]));
        lemma_increasing_offsets_grow(all, all.len() - 1);
    }
}

/// A non-empty sequence of cells, each an exact byte (`Some`) or a wildcard
/// (`None`).
#[derive(Debug)]
pub struct Signature {
    cells: Vec<Option<u8>>,
}

impl View for Signature {
    type V = Seq<Option<u8>>;

    closed spec fn view(&self) -> Seq<Option<u8>> {
        self.cells@
    }
}

impl Signature {
    /// A signature holds at least one cell.
    #[verifier::type_invariant]
    pub open spec fn well_formed(&self) -> bool {
        self@.len() > 0
    }

    /// Builds a signature from its cells. An empty list of cells is no
    /// signature and is refused.
    pub fn new(cells: Vec<Option<u8>>) -> (made: Option<Signature>)
        ensures
            made is None <==> cells@.len() == 0,
            made is Some ==> made->0@ == cells@,
    {
        if cells.len() == 0 {
            None
        } else {
            Some(Signature { cells })
        }
    }

    /// The number of cells, which is never zero.
    pub fn len(&self) -> (n: usize)
        ensures
            n == self@.len(),
            n > 0,
    {
        proof {
            use_type_invariant(self);
        }
        self.cells.len()
    }

    /// The cell at `index`.
    pub fn cell(&self, index: usize) -> (c: Option<u8>)
        requires
            index < self@.len(),
        ensures
            c == self@[index as int],
    {
        self.cells[index]
    }

    /// Whether the signature matches `haystack` at `offset`.
    pub fn matches(&self, haystack: &[u8], offset: usize) -> (hit: bool)
        ensures
            hit == matches_at(haystack@, self@, offset as int),
    {
        let n = self.cells.len();
        let total = haystack.len();
        if offset > total || n > total - offset {
            return false;
        }
        let mut i: usize = 0;
        while i < n
            invariant
                n == self.cells@.len(),
                total == haystack@.len(),
                offset + n <= total,
                i <= n,
                forall|j: int|
                    0 <= j < i ==> cell_accepts(
                        #[trigger] self.cells@[j],
                        haystack@[offset + j],
                    ),
            decreases n - i,
        {
            match self.cells[i] {
                Some(expected) => {
                    if haystack[offset + i] != expected {
                        assert(!cell_accepts(self.cells@[i as int], haystack@[offset + i]));
                        return false;
                    }
                },
                None => {},
            }
            i += 1;
        }
        true
    }
}

/// Scans `haystack` for `signature` and returns every offset at which it
/// matches, in strictly increasing order. The scan keeps no state: the same
/// arguments give the same offsets.
pub fn search(haystack: &[u8], signature: &Signature) -> (found: Vec<usize>)
    ensures
        found@.len() == match_offsets(haystack@, signature@).len(),
        forall|k: int|
            0 <= k < found@.len() ==> #[trigger] found@[k] as int == match_offsets(
                haystack@,
                signature@,
            )[k],
        forall|k: int|
            0 <= k < found@.len() ==> matches_at(haystack@, signature@, #[trigger] found@[k] as int),
        forall|o: int|
            matches_at(haystack@, signature@, o) ==> exists|k: int|
                0 <= k < found@.len() && #[trigger] found@[k] as int == o,
        forall|j: int, k: int| 0 <= j < k < found@.len() ==> found@[j] < found@[k],
        signature@.len() > haystack@.len() ==> found@.len() == 0,
        signature@.len() <= haystack@.len() ==> found@.len() <= haystack@.len() - signature@.len()
            + 1,
{
    let mut found: Vec<usize> = Vec::new();
    let n = signature.len();
    let total = haystack.len();
    proof {
        lemma_match_offsets_exact(haystack@, signature@);
    }
    if n > total {
        proof {
            lemma_longer_signature_never_matches(haystack@, signature@);
        }
        return found;
    }
    proof {
        lemma_match_count_bounded(haystack@, signature@);
    }
    let last = total - n;
    let mut offset: usize = 0;
    while offset <= last
        invariant
            n == signature@.len(),
            total == haystack@.len(),
            last == total - n,
            n > 0,
            offset <= last + 1,
            found@.len() == match_offsets_below(haystack@, signature@, offset as int).len(),
            forall|k: int|
                0 <= k < found@.len() ==> #[trigger] found@[k] as int == match_offsets_below(
                    haystack@,
                    signature@,
                    offset as int,
                )[k],
        decreases last + 1 - offset,
    {
        if signature.matches(haystack, offset) {
            found.push(offset);
        }
        offset += 1;
    }
    proof {
        lemma_offsets_stop_at_last_fit(haystack@, signature@, offset as int, total as int + 1);
        let all = match_offsets(haystack@, signature@);
        assert forall|o: int| matches_at(haystack@, signature@, o) implies exists|k: int|
            0 <= k < found@.len() && #[trigger] found@[k] as int == o by {
            let k = choose|k: int| 0 <= k < all.len() && all[k] == o;
            assert(found@[k] as int == o);
        }
    }
    found
}

/// The first offset at or after `from` at which `signature` matches. A
/// caller that wants the matches one by one asks again from the offset after
/// each.
pub fn next_match(haystack: &[u8], signature: &Signature, from: usize) -> (hit: Option<usize>)
    ensures
        match hit {
            Some(offset) => {
                &&& from <= offset
                &&& matches_at(haystack@, signature@, offset as int)
                &&& forall|o: int| from <= o < offset ==> !matches_at(haystack@, signature@, o)
            },
            None => forall|o: int| from <= o ==> !matches_at(haystack@, signature@, o),
        },
{
    let n = signature.len();
    let total = haystack.len();
    if n > total || from > total - n {
        return None;
    }
    let last = total - n;
    let mut offset: usize = from;
    while offset <= last
        invariant
            n == signature@.len(),
            total == haystack@.len(),
            last == total - n,
            n > 0,
            from <= offset <= last + 1,
            forall|o: int| from <= o < offset ==> !matches_at(haystack@, signature@, o),
        decreases last + 1 - offset,
    {
        if signature.matches(haystack, offset) {
            return Some(offset);
        }
        offset += 1;
    }
    None
}

/// Past the last offset at which the signature still fits, raising the bound
/// adds no match.
proof fn lemma_offsets_stop_at_last_fit(
    haystack: Seq<u8>,
    cells: Seq<Option<u8>>,
    from: int,
    to: int,
)
    requires
        from <= to,
        from + cells.len() > haystack.len(),
        0 <= from,
    ensures
        match_offsets_below(haystack, cells, to) == match_offsets_below(haystack, cells, from),
    decreases to - from,
{
    if from < to {
        lemma_offsets_stop_at_last_fit(haystack, cells, from, to - 1);
        assert(!matches_at(haystack, cells, to - 1));
    }
}

} // verus!
