use vstd::prelude::*;
use crate::freq::Freq;
use crate::instant::Instant;
use crate::name::parse_name;
use crate::name::parse_spec;

verus! {

/// The views of a sequence of names.
pub open spec fn views(s: Seq<String>) -> Seq<Seq<char>> {
    s.map_values(|x: String| x@)
}

/// The spec-level shape of an inventory: each record's class and name
/// characters, in scan order.
pub open spec fn inv_view(inv: Seq<(Freq, String)>) -> Seq<(Freq, Seq<char>)> {
    inv.map_values(|p: (Freq, String)| (p.0, p.1@))
}

/// What an inventory scan yields from a directory listing: one record per
/// entry whose name parses, keyed by its class, in listing order.
pub open spec fn classify_spec(entries: Seq<Seq<char>>) -> Seq<(Freq, Seq<char>)>
    decreases entries.len(),
{
    if entries.len() == 0 {
        Seq::empty()
    } else {
        let rest = classify_spec(entries.drop_last());
        match parse_spec(entries.last()) {
            Some(f) => rest.push((f, entries.last())),
            None => rest,
        }
    }
}

/// Builds the in-memory inventory from a directory listing.  Entries that
/// do not parse as managed snapshots are ignored, never an error; listing
/// order is preserved (ordering is established later, by the pruner).
pub fn classify(entries: &Vec<String>) -> (inv: Vec<(Freq, String)>)
    ensures
        inv_view(inv@) == classify_spec(views(entries@)),
{
    let mut inv: Vec<(Freq, String)> = Vec::new();
    let mut i: usize = 0;
    while i < entries.len()
        invariant
            i <= entries@.len(),
            inv_view(inv@) == classify_spec(views(entries@).take(i as int)),
        decreases entries@.len() - i,
    {
        let ghost pre = inv_view(inv@);
        let e = &entries[i];
        match parse_name(e.as_str()) {
            Some(f) => {
                inv.push((f, e.clone()));
                proof {
                    assert(inv_view(inv@) =~= pre.push((parse_spec(e@)->0, e@)));
                }
            },
            None => {},
        }
        proof {
            assert(views(entries@).take(i + 1).drop_last() =~= views(entries@).take(i as int));
            assert(views(entries@).take(i + 1).last() == entries@[i as int]@);
        }
        i += 1;
    }
    proof {
        assert(views(entries@).take(entries@.len() as int) =~= views(entries@));
    }
    inv
}

/// Whether the inventory holds any record of class `f`.
pub open spec fn has_class(inv: Seq<(Freq, Seq<char>)>, f: Freq) -> bool {
    exists|i: int| 0 <= i < inv.len() && inv[i].0 == f
}

/// A class is due exactly on its preferred cadence boundary, or when no
/// record of it exists yet: the very first snapshot is never skipped.
pub open spec fn is_due_spec(f: Freq, now: Instant, inv: Seq<(Freq, Seq<char>)>) -> bool {
    f.preferred_spec(now) || !has_class(inv, f)
}

/// Decides whether a new snapshot of class `f` should be taken this run.
pub fn is_due(f: &Freq, now: &Instant, inv: &Vec<(Freq, String)>) -> (r: bool)
    ensures
        r == is_due_spec(*f, *now, inv_view(inv@)),
{
    if f.preferred_time(now) {
        return true;
    }
    let mut i: usize = 0;
    while i < inv.len()
        invariant
            i <= inv@.len(),
            !f.preferred_spec(*now),
            forall|j: int| 0 <= j < i ==> inv@[j].0 != *f,
        decreases inv@.len() - i,
    {
        if inv[i].0 == *f {
            proof {
                assert(has_class(inv_view(inv@), *f)) by {
                    assert(0 <= i < inv_view(inv@).len() && inv_view(inv@)[i as int].0 == *f);
                }
            }
            return false;
        }
        i += 1;
    }
    proof {
        assert(forall|j: int| 0 <= j < inv_view(inv@).len() ==> inv_view(inv@)[j].0 != *f);
    }
    true
}

/// Idempotence of the due-decision: away from a preferred moment, a class
/// that already has records is never due, so a rerun within the same
/// minute creates nothing new; a class with no records is always due.
pub proof fn lemma_due_idempotence(f: Freq, now: Instant, inv: Seq<(Freq, Seq<char>)>)
    ensures
        !f.preferred_spec(now) && has_class(inv, f) ==> !is_due_spec(f, now, inv),
        !has_class(inv, f) ==> is_due_spec(f, now, inv),
{
}

} // verus!
