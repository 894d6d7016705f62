//! What holds of whole scans.
use vstd::prelude::*;

use crate::grammar::{lemma_step, lexemes_of, next_mode, scan_from, step};
use crate::scanner::{LexemeKind, Scanner, ScannerMode};

verus! {

/// The texts of `ls`, joined in order.
pub open spec fn joined(ls: Seq<(LexemeKind, Seq<u8>)>) -> Seq<u8>
    decreases ls.len(),
{
    if ls.len() == 0 {
        Seq::empty()
    } else {
        ls[0].1 + joined(ls.drop_first())
    }
}

proof fn lemma_scan_from_covers(s: Seq<u8>, i: int, mode: ScannerMode)
    requires
        0 <= i <= s.len(),
    ensures
        joined(scan_from(s, i, mode)) == s.subrange(i, s.len() as int),
        scan_from(s, i, mode).len() <= s.len() - i,
        forall|k: int|
            0 <= k < scan_from(s, i, mode).len() ==> #[trigger] scan_from(s, i, mode)[k].1.len()
                > 0,
    decreases s.len() - i,
{
    let ls = scan_from(s, i, mode);
    if i == s.len() {
        assert(s.subrange(i, s.len() as int) =~= Seq::<u8>::empty());
    } else {
        lemma_step(s, i, mode);
        let (k, e) = step(s, i, mode);
        let rest = scan_from(s, e, next_mode(mode, k));
        lemma_scan_from_covers(s, e, next_mode(mode, k));
        assert(ls == seq![(k, s.subrange(i, e))] + rest);
        assert(ls.drop_first() =~= rest);
        assert(s.subrange(i, s.len() as int) =~= s.subrange(i, e) + s.subrange(e, s.len() as int));
        assert forall|j: int| 0 <= j < ls.len() implies #[trigger] ls[j].1.len() > 0 by {
            if j > 0 {
                assert(ls[j] == rest[j - 1]);
            }
        }
    }
}

/// Joining the texts of all lexemes of a source, in order, gives back the
/// source exactly: no byte is skipped or repeated.
pub proof fn lemma_lexemes_cover_source(s: Seq<u8>)
    ensures
        joined(lexemes_of(s)) == s,
{
    lemma_scan_from_covers(s, 0, ScannerMode::Regular);
    assert(s.subrange(0, s.len() as int) =~= s);
}

/// Scanning a source yields finitely many lexemes, no more than it has
/// bytes, each of them at least one byte long.
pub proof fn lemma_lexemes_finite(s: Seq<u8>)
    ensures
        lexemes_of(s).len() <= s.len(),
        forall|k: int| 0 <= k < lexemes_of(s).len() ==> #[trigger] lexemes_of(s)[k].1.len() > 0,
{
    lemma_scan_from_covers(s, 0, ScannerMode::Regular);
}

/// Two fresh scanners over the same source produce the same lexemes, kind
/// for kind and text for text.
pub proof fn lemma_rescan_is_identical(a: Scanner, b: Scanner)
    requires
        a.source() == b.source(),
        a.cursor() == 0,
        b.cursor() == 0,
        a.current_mode() == ScannerMode::Regular,
        b.current_mode() == ScannerMode::Regular,
    ensures
        a.remaining() == b.remaining(),
        a.remaining() == lexemes_of(a.source()),
{
}

} // verus!
