//! The transcription history: which stored entries stay when an entry is saved
//! or deleted. Entries are found by their ids.
use vstd::prelude::*;
use crate::models::strings_view;
use crate::text::str_eq;

verus! {

/// The most entries the history keeps.
pub const MAX_HISTORY: usize = 100;

/// The positions, in order, of the entries among the first `k` whose id differs from `id`.
pub open spec fn positions_without(ids: Seq<Seq<char>>, id: Seq<char>, k: int) -> Seq<usize>
    decreases k,
{
    if k <= 0 {
        Seq::empty()
    } else if ids[k - 1] != id {
        positions_without(ids, id, k - 1).push((k - 1) as usize)
    } else {
        positions_without(ids, id, k - 1)
    }
}

/// The positions of the old entries kept when an entry with id `id` is saved: the
/// others with a different id, in order, as many as fit behind the new entry.
pub open spec fn spec_kept_after_save(ids: Seq<Seq<char>>, id: Seq<char>) -> Seq<usize> {
    let p = positions_without(ids, id, ids.len() as int);
    if p.len() > MAX_HISTORY - 1 { p.take(MAX_HISTORY - 1) } else { p }
}

/// The positions of the entries kept when the entry with id `id` is deleted.
pub open spec fn spec_kept_after_delete(ids: Seq<Seq<char>>, id: Seq<char>) -> Seq<usize> {
    positions_without(ids, id, ids.len() as int)
}

fn positions_of_others(ids: &Vec<String>, id: &str) -> (r: Vec<usize>)
    ensures
        r@ == positions_without(strings_view(ids@), id@, ids@.len() as int),
{
    let ghost v = strings_view(ids@);
    let mut r: Vec<usize> = Vec::new();
    let mut k: usize = 0;
    while k < ids.len()
        invariant
            k <= ids@.len(),
            v == strings_view(ids@),
            r@ == positions_without(v, id@, k as int),
        decreases ids.len() - k,
    {
        assert(v[k as int] == ids@[k as int]@);
        if !str_eq(ids[k].as_str(), id) {
            r.push(k);
        }
        k = k + 1;
    }
    r
}

/// The positions of the stored entries that stay, in order, behind a newly saved
/// entry with id `id`: entries with that id are dropped (the new one replaces them),
/// and the list is cut so that, with the new entry first, it holds at most
/// `MAX_HISTORY` entries.
pub fn kept_after_save(ids: &Vec<String>, id: &str) -> (r: Vec<usize>)
    ensures
        r@ == spec_kept_after_save(strings_view(ids@), id@),
{
    let mut p = positions_of_others(ids, id);
    if p.len() > MAX_HISTORY - 1 {
        p.truncate(MAX_HISTORY - 1);
    }
    p
}

/// The positions of the stored entries that stay, in order, when the entry with id
/// `id` is deleted.
pub fn kept_after_delete(ids: &Vec<String>, id: &str) -> (r: Vec<usize>)
    ensures
        r@ == spec_kept_after_delete(strings_view(ids@), id@),
{
    positions_of_others(ids, id)
}

proof fn lemma_positions(ids: Seq<Seq<char>>, id: Seq<char>, k: int)
    requires
        0 <= k <= ids.len(),
        ids.len() <= usize::MAX,
    ensures
        forall|a: int| 0 <= a < positions_without(ids, id, k).len() ==> {
            &&& 0 <= #[trigger] positions_without(ids, id, k)[a] < k
            &&& ids[positions_without(ids, id, k)[a] as int] != id
        },
        forall|a: int, b: int|
            0 <= a < b < positions_without(ids, id, k).len() ==> #[trigger] positions_without(ids, id, k)[a]
                < #[trigger] positions_without(ids, id, k)[b],
        forall|i: int| 0 <= i < k && ids[i] != id ==> positions_without(ids, id, k).contains(i as usize),
    decreases k,
{
    if k > 0 {
        lemma_positions(ids, id, k - 1);
        let p = positions_without(ids, id, k - 1);
        if ids[k - 1] != id {
            let q = p.push((k - 1) as usize);
            assert forall|i: int| 0 <= i < k && ids[i] != id implies q.contains(i as usize) by {
                if i < k - 1 {
                    let w = choose|w: int| 0 <= w < p.len() && p[w] == i as usize;
                    assert(q[w] == i as usize);
                } else {
                    assert(q[q.len() - 1] == i as usize);
                }
            }
        }
    }
}

/// Saving an entry into the history: the new entry comes first, no kept entry has its
/// id, the kept entries keep their order, and at most `MAX_HISTORY` entries remain.
/// When the history has room, every other entry stays.
pub proof fn lemma_save_history(ids: Seq<Seq<char>>, id: Seq<char>)
    requires
        ids.len() <= usize::MAX,
    ensures
        ({
            let kept = spec_kept_after_save(ids, id);
            &&& kept.len() + 1 <= MAX_HISTORY
            &&& forall|a: int| 0 <= a < kept.len() ==> 0 <= #[trigger] kept[a] < ids.len() && ids[kept[a] as int] != id
            &&& forall|a: int, b: int| 0 <= a < b < kept.len() ==> #[trigger] kept[a] < #[trigger] kept[b]
            &&& positions_without(ids, id, ids.len() as int).len() < MAX_HISTORY ==> forall|i: int|
                0 <= i < ids.len() && ids[i] != id ==> kept.contains(i as usize)
        }),
{
    lemma_positions(ids, id, ids.len() as int);
    let p = positions_without(ids, id, ids.len() as int);
    let kept = spec_kept_after_save(ids, id);
    assert forall|a: int| 0 <= a < kept.len() implies 0 <= #[trigger] kept[a] < ids.len() && ids[kept[a] as int] != id by {
        assert(kept[a] == p[a]);
    }
    assert forall|a: int, b: int| 0 <= a < b < kept.len() implies #[trigger] kept[a] < #[trigger] kept[b] by {
        assert(kept[a] == p[a]);
        assert(kept[b] == p[b]);
    }
}

/// Deleting an entry from the history removes exactly the entries with its id: every
/// other entry stays, in its order, and none with that id does.
pub proof fn lemma_delete_history(ids: Seq<Seq<char>>, id: Seq<char>)
    requires
        ids.len() <= usize::MAX,
    ensures
        ({
            let kept = spec_kept_after_delete(ids, id);
            &&& forall|a: int| 0 <= a < kept.len() ==> 0 <= #[trigger] kept[a] < ids.len() && ids[kept[a] as int] != id
            &&& forall|a: int, b: int| 0 <= a < b < kept.len() ==> #[trigger] kept[a] < #[trigger] kept[b]
            &&& forall|i: int| 0 <= i < ids.len() && ids[i] != id ==> kept.contains(i as usize)
        }),
{
    lemma_positions(ids, id, ids.len() as int);
}

} // verus!
