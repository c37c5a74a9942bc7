//! Watchers: what is checked, and the alerts that fire on a check's result.
use vstd::prelude::*;

pub mod heartbeat;
pub mod memory;

verus! {

/// An alert that fired and is to be handed to the reporters.
#[derive(Debug, Clone)]
pub struct ActiveAlert {
    pub message: String,
}

/// The kinds of watcher. Two watcher configurations of the same kind count as
/// the same configuration, so the service keeps one watcher of each kind.
#[derive(Debug, Clone, Copy, PartialEq, Eq, Structural, Hash)]
pub enum WatcherKind {
    Memory,
    Heartbeat,
}

/// The positions of the first configuration of each kind, in increasing
/// order: position `i` is kept when no earlier configuration has its kind.
pub open spec fn first_of_each(kinds: Seq<WatcherKind>) -> Seq<usize>
    decreases kinds.len(),
{
    if kinds.len() == 0 {
        Seq::empty()
    } else if kinds.drop_last().contains(kinds.last()) {
        first_of_each(kinds.drop_last())
    } else {
        first_of_each(kinds.drop_last()).push((kinds.len() - 1) as usize)
    }
}

/// What picking one configuration of each kind keeps: positions in
/// increasing order, the first of their kind, of pairwise different kinds,
/// and one for every kind that occurs.
pub proof fn law_one_configuration_per_kind(kinds: Seq<WatcherKind>)
    requires
        kinds.len() <= usize::MAX,
    ensures
        forall|a: int, b: int|
            0 <= a < b < first_of_each(kinds).len() ==> first_of_each(kinds)[a]
                < first_of_each(kinds)[b],
        forall|a: int|
            0 <= a < first_of_each(kinds).len() ==> first_of_each(kinds)[a] < kinds.len(),
        forall|a: int, j: int|
            #![trigger kinds[j], first_of_each(kinds)[a]]
            0 <= a < first_of_each(kinds).len() && 0 <= j < first_of_each(kinds)[a] ==> kinds[j]
                != kinds[first_of_each(kinds)[a] as int],
        forall|a: int, b: int|
            #![trigger first_of_each(kinds)[a], first_of_each(kinds)[b]]
            0 <= a < first_of_each(kinds).len() && 0 <= b < first_of_each(kinds).len() && a != b
                ==> kinds[first_of_each(kinds)[a] as int] != kinds[first_of_each(kinds)[b] as int],
        forall|i: int|
            #![trigger kinds[i]]
            0 <= i < kinds.len() ==> exists|a: int|
                #![trigger first_of_each(kinds)[a]]
                0 <= a < first_of_each(kinds).len() && kinds[first_of_each(kinds)[a] as int]
                    == kinds[i],
    decreases kinds.len(),
{
    if kinds.len() > 0 {
        let rest = kinds.drop_last();
        law_one_configuration_per_kind(rest);
        let kept = first_of_each(kinds);
        let before = first_of_each(rest);
        assert forall|a: int| 0 <= a < before.len() implies kinds[before[a] as int]
            == rest[before[a] as int] by {}
        if rest.contains(kinds.last()) {
            assert(kept == before);
            assert forall|a: int, j: int|
                #![trigger kinds[j], kept[a]]
                0 <= a < kept.len() && 0 <= j < kept[a] implies kinds[j] != kinds[kept[a] as int] by {
                assert(before[a] < rest.len());
                assert(rest[j] != rest[before[a] as int]);
                assert(kinds[j] == rest[j]);
                assert(kinds[before[a] as int] == rest[before[a] as int]);
            }
            assert forall|i: int| #![trigger kinds[i]] 0 <= i < kinds.len() implies exists|a: int|
                #![trigger kept[a]] 0 <= a < kept.len() && kinds[kept[a] as int] == kinds[i] by {
                if i < rest.len() {
                    assert(rest[i] == kinds[i]);
                    let a = choose|a: int| 0 <= a < before.len() && rest[before[a] as int] == rest[i];
                    assert(kinds[kept[a] as int] == kinds[i]);
                } else {
                    let j = choose|j: int| 0 <= j < rest.len() && rest[j] == kinds.last();
                    let a = choose|a: int| 0 <= a < before.len() && rest[before[a] as int] == rest[j];
                    assert(kinds[kept[a] as int] == kinds[i]);
                }
            }
        } else {
            let last = (kinds.len() - 1) as usize;
            assert(kept == before.push(last));
            assert forall|a: int, j: int|
                #![trigger kinds[j], kept[a]]
                0 <= a < kept.len() && 0 <= j < kept[a] implies kinds[j] != kinds[kept[a] as int] by {
                if a < before.len() {
                    assert(kept[a] == before[a]);
                    assert(before[a] < rest.len());
                    assert(rest[j] != rest[before[a] as int]);
                    assert(kinds[j] == rest[j]);
                    assert(kinds[before[a] as int] == rest[before[a] as int]);
                } else {
                    assert(kept[a] == last);
                    assert(kinds[j] == rest[j]);
                    if kinds[j] == kinds.last() {
                        assert(rest.contains(kinds.last()));
                    }
                }
            }
            assert forall|a: int, b: int|
                #![trigger kept[a], kept[b]]
                0 <= a < kept.len() && 0 <= b < kept.len() && a != b implies kinds[kept[a] as int]
                != kinds[kept[b] as int] by {
                if a < before.len() && b < before.len() {
                    assert(kept[a] == before[a] && kept[b] == before[b]);
                    assert(before[a] < rest.len() && before[b] < rest.len());
                    assert(rest[before[a] as int] != rest[before[b] as int]);
                    assert(kinds[before[a] as int] == rest[before[a] as int]);
                    assert(kinds[before[b] as int] == rest[before[b] as int]);
                } else if a == before.len() {
                    assert(kept[a] == last && kept[b] == before[b]);
                    assert(before[b] < rest.len());
                    assert(kinds[before[b] as int] == rest[before[b] as int]);
                    if kinds[before[b] as int] == kinds.last() {
                        assert(rest.contains(kinds.last()));
                    }
                } else {
                    assert(kept[b] == last && kept[a] == before[a]);
                    assert(before[a] < rest.len());
                    assert(kinds[before[a] as int] == rest[before[a] as int]);
                    if kinds[before[a] as int] == kinds.last() {
                        assert(rest.contains(kinds.last()));
                    }
                }
            }
            assert forall|i: int| #![trigger kinds[i]] 0 <= i < kinds.len() implies exists|a: int|
                #![trigger kept[a]] 0 <= a < kept.len() && kinds[kept[a] as int] == kinds[i] by {
                if i < rest.len() {
                    assert(rest[i] == kinds[i]);
                    let a = choose|a: int| 0 <= a < before.len() && rest[before[a] as int] == rest[i];
                    assert(kinds[kept[a] as int] == kinds[i]);
                } else {
                    assert(kinds[kept[before.len() as int] as int] == kinds[i]);
                }
            }
        }
    }
}

/// Picks one configuration of each kind: the first one, as a set of
/// configurations keeps the first of equal members. Gives the positions
/// kept, in increasing order.
pub fn first_of_each_kind(kinds: &Vec<WatcherKind>) -> (kept: Vec<usize>)
    ensures
        kept@ == first_of_each(kinds@),
{
    let mut kept: Vec<usize> = Vec::new();
    let mut i: usize = 0;
    assert(kinds@.take(0) =~= Seq::<WatcherKind>::empty());
    while i < kinds.len()
        invariant
            i <= kinds.len(),
            kept@ == first_of_each(kinds@.take(i as int)),
        decreases kinds.len() - i,
    {
        let kind = kinds[i];
        let mut seen = false;
        let mut j: usize = 0;
        while j < i
            invariant
                j <= i < kinds.len(),
                seen == exists|m: int| 0 <= m < j && kinds@[m] == kind,
            decreases i - j,
        {
            if kinds[j] == kind {
                seen = true;
            }
            j += 1;
        }
        proof {
            let prefix = kinds@.take(i + 1);
            assert(prefix.drop_last() =~= kinds@.take(i as int));
            assert(prefix.last() == kind);
            if seen {
                let m = choose|m: int| 0 <= m < i && kinds@[m] == kind;
                assert(prefix.drop_last()[m] == kind);
            } else {
                assert forall|m: int| 0 <= m < prefix.drop_last().len() implies prefix.drop_last()[m]
                    != kind by {
                    assert(prefix.drop_last()[m] == kinds@[m]);
                }
            }
        }
        if !seen {
            kept.push(i);
        }
        i += 1;
    }
    assert(kinds@.take(kinds.len() as int) =~= kinds@);
    kept
}

} // verus!
