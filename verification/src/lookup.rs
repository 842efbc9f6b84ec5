use vstd::prelude::*;

verus! {

/// The index that a lookup table holds for each identifier after the
/// identifiers `ids` were inserted in order, each with its position: a later
/// insertion of an identifier replaces the position an earlier one stored.
pub open spec fn index_map(ids: Seq<Seq<char>>) -> Map<Seq<char>, usize>
    decreases ids.len(),
{
    if ids.len() == 0 {
        Map::empty()
    } else {
        index_map(ids.drop_last()).insert(ids.last(), (ids.len() - 1) as usize)
    }
}

/// A lookup table built by inserting identifiers in order knows exactly the
/// identifiers that were inserted, and for each it holds the position of the
/// last occurrence of that identifier.
pub proof fn lemma_index_map_finds_last(ids: Seq<Seq<char>>, key: Seq<char>)
    requires
        ids.len() <= usize::MAX,
    ensures
        index_map(ids).contains_key(key) <==> ids.contains(key),
        index_map(ids).contains_key(key) ==> {
            let i = index_map(ids)[key] as int;
            &&& 0 <= i < ids.len()
            &&& ids[i] == key
            &&& forall|j: int| i < j < ids.len() ==> ids[j] != key
        },
    decreases ids.len(),
{
    if ids.len() > 0 {
        let prefix = ids.drop_last();
        lemma_index_map_finds_last(prefix, key);
        if ids.last() == key {
            assert(ids[ids.len() - 1] == key);
        } else {
            if prefix.contains(key) {
                let w = choose|w: int| 0 <= w < prefix.len() && prefix[w] == key;
                assert(ids[w] == key);
            }
            if ids.contains(key) {
                let w = choose|w: int| 0 <= w < ids.len() && ids[w] == key;
                assert(prefix[w] == key);
            }
            if prefix.contains(key) {
                let i = index_map(prefix)[key] as int;
                assert forall|j: int| i < j < ids.len() implies ids[j] != key by {
                    if j < prefix.len() {
                        assert(prefix[j] == ids[j]);
                    }
                }
            }
        }
    }
}

} // verus!
