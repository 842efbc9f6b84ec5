use vstd::prelude::*;

use crate::kinds::{HardwareType, SensorType};
use crate::tree::{opt_index, HardwareRecord, SensorRecord};

verus! {

/// Whether a hardware record is selected by the filters of a query: its type
/// is the given one, if any, and its parent position is the given one, if any
pub open spec fn hardware_matches<H>(
    record: HardwareRecord<H>,
    parent_index: Option<Option<usize>>,
    ty: Option<HardwareType>,
) -> bool {
    &&& (ty matches Some(t) ==> record.kind == t)
    &&& (parent_index matches Some(p) ==> record.parent_index == opt_index(p))
}

/// Positions of the hardware records selected by the filters, in order
pub open spec fn matching_hardware<H>(
    records: Seq<HardwareRecord<H>>,
    parent_index: Option<Option<usize>>,
    ty: Option<HardwareType>,
) -> Seq<int>
    decreases records.len(),
{
    if records.len() == 0 {
        Seq::empty()
    } else {
        let last = records.len() - 1;
        let before = matching_hardware(records.drop_last(), parent_index, ty);
        if hardware_matches(records[last], parent_index, ty) {
            before.push(last)
        } else {
            before
        }
    }
}

/// The positions a hardware query selects are positions of records that pass
/// the filters, in increasing order, and every record that passes is selected
pub proof fn lemma_matching_hardware<H>(
    records: Seq<HardwareRecord<H>>,
    parent_index: Option<Option<usize>>,
    ty: Option<HardwareType>,
)
    ensures
        ({
            let chosen = matching_hardware(records, parent_index, ty);
            &&& forall|i: int|
                0 <= i < chosen.len() ==> 0 <= #[trigger] chosen[i] < records.len() && hardware_matches(
                    records[chosen[i]],
                    parent_index,
                    ty,
                )
            &&& forall|i: int, j: int| 0 <= i < j < chosen.len() ==> #[trigger] chosen[i] < #[trigger] chosen[j]
            &&& forall|n: int|
                0 <= n < records.len() && hardware_matches(#[trigger] records[n], parent_index, ty)
                    ==> chosen.contains(n)
        }),
    decreases records.len(),
{
    if records.len() > 0 {
        let prefix = records.drop_last();
        lemma_matching_hardware(prefix, parent_index, ty);
        let before = matching_hardware(prefix, parent_index, ty);
        let chosen = matching_hardware(records, parent_index, ty);
        assert forall|n: int|
            0 <= n < records.len() && hardware_matches(#[trigger] records[n], parent_index, ty)
            implies chosen.contains(n) by {
            if n < records.len() - 1 {
                assert(prefix[n] == records[n]);
                let w = choose|w: int| 0 <= w < before.len() && before[w] == n;
                assert(chosen[w] == n);
            } else {
                assert(chosen[chosen.len() - 1] == n);
            }
        }
    }
}

/// Whether a sensor record is selected by the filters of a query: its type is
/// the given one, if any, and it belongs to the hardware at the given
/// position, if any
pub open spec fn sensor_matches<S>(
    record: SensorRecord<S>,
    parent_index: Option<usize>,
    ty: Option<SensorType>,
) -> bool {
    &&& (ty matches Some(t) ==> record.kind == t)
    &&& (parent_index matches Some(p) ==> record.parent_index == p)
}

/// Positions of the sensor records selected by the filters, in order
pub open spec fn matching_sensors<S>(
    records: Seq<SensorRecord<S>>,
    parent_index: Option<usize>,
    ty: Option<SensorType>,
) -> Seq<int>
    decreases records.len(),
{
    if records.len() == 0 {
        Seq::empty()
    } else {
        let last = records.len() - 1;
        let before = matching_sensors(records.drop_last(), parent_index, ty);
        if sensor_matches(records[last], parent_index, ty) {
            before.push(last)
        } else {
            before
        }
    }
}

/// The positions a sensor query selects are positions of records that pass
/// the filters, in increasing order, and every record that passes is selected
pub proof fn lemma_matching_sensors<S>(
    records: Seq<SensorRecord<S>>,
    parent_index: Option<usize>,
    ty: Option<SensorType>,
)
    ensures
        ({
            let chosen = matching_sensors(records, parent_index, ty);
            &&& forall|i: int|
                0 <= i < chosen.len() ==> 0 <= #[trigger] chosen[i] < records.len() && sensor_matches(
                    records[chosen[i]],
                    parent_index,
                    ty,
                )
            &&& forall|i: int, j: int| 0 <= i < j < chosen.len() ==> #[trigger] chosen[i] < #[trigger] chosen[j]
            &&& forall|n: int|
                0 <= n < records.len() && sensor_matches(#[trigger] records[n], parent_index, ty)
                    ==> chosen.contains(n)
        }),
    decreases records.len(),
{
    if records.len() > 0 {
        let prefix = records.drop_last();
        lemma_matching_sensors(prefix, parent_index, ty);
        let before = matching_sensors(prefix, parent_index, ty);
        let chosen = matching_sensors(records, parent_index, ty);
        assert forall|n: int|
            0 <= n < records.len() && sensor_matches(#[trigger] records[n], parent_index, ty)
            implies chosen.contains(n) by {
            if n < records.len() - 1 {
                assert(prefix[n] == records[n]);
                let w = choose|w: int| 0 <= w < before.len() && before[w] == n;
                assert(chosen[w] == n);
            } else {
                assert(chosen[chosen.len() - 1] == n);
            }
        }
    }
}

/// The results of the per-owner sensor queries for owners `0` up to
/// `owners - 1`, one after the other
pub open spec fn sensors_by_owner<S>(records: Seq<SensorRecord<S>>, owners: nat) -> Seq<int>
    decreases owners,
{
    if owners == 0 {
        Seq::empty()
    } else {
        sensors_by_owner(records, (owners - 1) as nat) + matching_sensors(
            records,
            Some((owners - 1) as usize),
            None,
        )
    }
}

/// A per-owner query over records of which none belongs to that owner
/// selects nothing
proof fn lemma_no_owner_selects_nothing<S>(records: Seq<SensorRecord<S>>, owner: usize)
    requires
        forall|j: int| 0 <= j < records.len() ==> (#[trigger] records[j]).parent_index != owner,
    ensures
        matching_sensors(records, Some(owner), None) == Seq::<int>::empty(),
{
    lemma_matching_sensors(records, Some(owner), None);
    let chosen = matching_sensors(records, Some(owner), None);
    if chosen.len() > 0 {
        assert(records[chosen[0]].parent_index == owner);
    }
    assert(chosen =~= Seq::<int>::empty());
}

/// Per-owner queries over no records select nothing
proof fn lemma_sensors_by_owner_empty<S>(records: Seq<SensorRecord<S>>, owners: nat)
    requires
        records.len() == 0,
        owners <= usize::MAX + 1,
    ensures
        sensors_by_owner(records, owners) == Seq::<int>::empty(),
    decreases owners,
{
    if owners > 0 {
        lemma_sensors_by_owner_empty(records, (owners - 1) as nat);
        lemma_no_owner_selects_nothing(records, (owners - 1) as usize);
        assert(sensors_by_owner(records, owners) =~= Seq::<int>::empty());
    }
}

/// Adding a last record whose owner is at least every other owner adds its
/// position at the end of the per-owner results, once its owner is counted
proof fn lemma_sensors_by_owner_last<S>(records: Seq<SensorRecord<S>>, owners: nat)
    requires
        records.len() > 0,
        owners <= usize::MAX + 1,
        0 <= records.last().parent_index,
        forall|j: int|
            0 <= j < records.len() - 1 ==> (#[trigger] records[j]).parent_index <= records.last().parent_index,
    ensures
        sensors_by_owner(records, owners) == if owners > records.last().parent_index {
            sensors_by_owner(records.drop_last(), owners).push(records.len() - 1)
        } else {
            sensors_by_owner(records.drop_last(), owners)
        },
    decreases owners,
{
    let prefix = records.drop_last();
    let o = records.last().parent_index;
    if owners > 0 {
        let q = (owners - 1) as nat;
        lemma_sensors_by_owner_last(records, q);
        let mq = matching_sensors(records, Some(q as usize), None);
        let pq = matching_sensors(prefix, Some(q as usize), None);
        if q < o {
            assert(mq == pq);
            assert(sensors_by_owner(records, owners) =~= sensors_by_owner(prefix, owners));
        } else if q == o {
            assert(mq == pq.push(records.len() - 1));
            assert(sensors_by_owner(records, owners) =~= sensors_by_owner(prefix, owners).push(
                records.len() - 1,
            ));
        } else {
            assert forall|j: int| 0 <= j < prefix.len() implies (#[trigger] prefix[j]).parent_index != q as usize by {
                assert(prefix[j] == records[j]);
            }
            lemma_no_owner_selects_nothing(prefix, q as usize);
            assert(mq == pq);
            assert(sensors_by_owner(records, owners) =~= sensors_by_owner(prefix, owners).push(
                records.len() - 1,
            ));
        }
    }
}

/// For sensor records stored grouped by owner, in non-decreasing order of
/// owner, with every owner below `owners`: the per-owner queries for owners
/// `0` up to `owners - 1`, one after the other, give the same positions in
/// the same order as the unfiltered query
pub proof fn lemma_sensors_by_owner<S>(records: Seq<SensorRecord<S>>, owners: nat)
    requires
        owners <= usize::MAX,
        forall|j: int| 0 <= j < records.len() ==> 0 <= (#[trigger] records[j]).parent_index < owners,
        forall|i: int, j: int|
            0 <= i < j < records.len() ==> (#[trigger] records[i]).parent_index <= (#[trigger] records[j]).parent_index,
    ensures
        sensors_by_owner(records, owners) == matching_sensors(records, None, None),
    decreases records.len(),
{
    if records.len() == 0 {
        lemma_sensors_by_owner_empty(records, owners);
    } else {
        let prefix = records.drop_last();
        assert forall|j: int| 0 <= j < prefix.len() implies 0 <= (#[trigger] prefix[j]).parent_index < owners by {
            assert(prefix[j] == records[j]);
        }
        assert forall|i: int, j: int|
            0 <= i < j < prefix.len() implies (#[trigger] prefix[i]).parent_index <= (#[trigger] prefix[j]).parent_index by {
            assert(prefix[i] == records[i]);
            assert(prefix[j] == records[j]);
        }
        lemma_sensors_by_owner(prefix, owners);
        assert(records.last() == records[records.len() - 1]);
        assert forall|j: int| 0 <= j < records.len() - 1 implies (#[trigger] records[j]).parent_index
            <= records.last().parent_index by {
            assert(records[j].parent_index <= records[records.len() - 1].parent_index);
        }
        lemma_sensors_by_owner_last(records, owners);
    }
}

/// A hardware query selects a stored position exactly when the record there
/// has the asked type, if a type is given, and has exactly the asked parent
/// position, if a parent is given (`Some(None)` asks for top-level items);
/// without a parent filter, sub-hardware at any depth is selected like
/// top-level items
pub proof fn lemma_hardware_query_selects_exactly<H>(
    records: Seq<HardwareRecord<H>>,
    parent_index: Option<Option<usize>>,
    ty: Option<HardwareType>,
)
    ensures
        forall|n: int|
            #[trigger] matching_hardware(records, parent_index, ty).contains(n) <==> {
                &&& 0 <= n < records.len()
                &&& (ty matches Some(t) ==> records[n].kind == t)
                &&& (parent_index matches Some(p) ==> records[n].parent_index == match p {
                    Some(q) => Some(q as int),
                    None => None::<int>,
                })
            },
{
    lemma_matching_hardware(records, parent_index, ty);
    let chosen = matching_hardware(records, parent_index, ty);
    assert forall|n: int| #[trigger] chosen.contains(n) implies {
        &&& 0 <= n < records.len()
        &&& (ty matches Some(t) ==> records[n].kind == t)
        &&& (parent_index matches Some(p) ==> records[n].parent_index == match p {
            Some(q) => Some(q as int),
            None => None::<int>,
        })
    } by {
        let w = choose|w: int| 0 <= w < chosen.len() && chosen[w] == n;
        assert(hardware_matches(records[chosen[w]], parent_index, ty));
    }
}

/// A sensor query selects a stored position exactly when the sensor there has
/// the asked type, if a type is given, and is owned by exactly the asked
/// hardware position, if an owner is given; without an owner filter, sensors
/// of every owner are selected
pub proof fn lemma_sensor_query_selects_exactly<S>(
    records: Seq<SensorRecord<S>>,
    parent_index: Option<usize>,
    ty: Option<SensorType>,
)
    ensures
        forall|n: int|
            #[trigger] matching_sensors(records, parent_index, ty).contains(n) <==> {
                &&& 0 <= n < records.len()
                &&& (ty matches Some(t) ==> records[n].kind == t)
                &&& (parent_index matches Some(p) ==> records[n].parent_index == p as int)
            },
{
    lemma_matching_sensors(records, parent_index, ty);
    let chosen = matching_sensors(records, parent_index, ty);
    assert forall|n: int| #[trigger] chosen.contains(n) implies {
        &&& 0 <= n < records.len()
        &&& (ty matches Some(t) ==> records[n].kind == t)
        &&& (parent_index matches Some(p) ==> records[n].parent_index == p as int)
    } by {
        let w = choose|w: int| 0 <= w < chosen.len() && chosen[w] == n;
        assert(sensor_matches(records[chosen[w]], parent_index, ty));
    }
}

} // verus!
