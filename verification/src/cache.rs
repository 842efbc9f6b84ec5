use vstd::prelude::*;
use vstd::hash_map::StringHashMap;

use crate::kinds::{HardwareType, SensorType};
use crate::lookup::{index_map, lemma_index_map_finds_last};
use crate::query::{
    lemma_hardware_query_selects_exactly, lemma_matching_hardware, lemma_matching_sensors,
    lemma_sensor_query_selects_exactly, lemma_sensors_by_owner, matching_hardware,
    matching_sensors, sensors_by_owner,
};
use crate::structure::{
    grouped_sensors, lemma_flatten_structure, lemma_grouped_sensors_owners, preorder,
};
use crate::tree::{
    flatten_forest, forest_has_hardware, forest_has_sensor, hardware_ids,
    lemma_flatten_keeps_identifiers, opt_index, sensor_ids, sensor_records, with_hardware,
    with_sensor, HardwareNode, HardwareRecord, SensorNode, SensorRecord,
};

verus! {

/// Hardware entry within the cache
pub struct HardwareEntry<H> {
    /// Index of the parent entry within the cache
    /// if the entry is sub-hardware
    parent_index: Option<usize>,
    identifier: String,
    kind: HardwareType,
    /// The hardware item itself
    hardware: H,
}

/// Sensor entry within the cache
pub struct SensorEntry<S> {
    /// Index of the parent [HardwareEntry] in the cache
    parent_index: usize,
    identifier: String,
    kind: SensorType,
    /// The sensor item itself
    sensor: S,
}

impl<H> HardwareEntry<H> {
    /// What the entry holds, as a record
    pub closed spec fn record(self) -> HardwareRecord<H> {
        HardwareRecord {
            parent_index: opt_index(self.parent_index),
            identifier: self.identifier@,
            kind: self.kind,
            hardware: self.hardware,
        }
    }
}

impl<S> SensorEntry<S> {
    /// What the entry holds, as a record
    pub closed spec fn record(self) -> SensorRecord<S> {
        SensorRecord {
            parent_index: self.parent_index as int,
            identifier: self.identifier@,
            kind: self.kind,
            sensor: self.sensor,
        }
    }
}

spec fn hardware_records_of<H>(entries: Seq<HardwareEntry<H>>) -> Seq<HardwareRecord<H>> {
    entries.map_values(|e: HardwareEntry<H>| e.record())
}

spec fn sensor_records_of<S>(entries: Seq<SensorEntry<S>>) -> Seq<SensorRecord<S>> {
    entries.map_values(|e: SensorEntry<S>| e.record())
}

/// Replacing the item of one hardware entry changes only that item in the
/// records
proof fn lemma_hardware_item_update<H>(entries: Seq<HardwareEntry<H>>, i: int)
    requires
        0 <= i < entries.len(),
    ensures
        forall|e: HardwareEntry<H>|
            e.parent_index == entries[i].parent_index && e.identifier == entries[i].identifier
                && e.kind == entries[i].kind ==> #[trigger] hardware_records_of(entries.update(i, e))
                == with_hardware(hardware_records_of(entries), i, e.hardware),
{
    assert forall|e: HardwareEntry<H>|
        e.parent_index == entries[i].parent_index && e.identifier == entries[i].identifier
            && e.kind == entries[i].kind implies #[trigger] hardware_records_of(entries.update(i, e))
            == with_hardware(hardware_records_of(entries), i, e.hardware) by {
        assert(hardware_records_of(entries.update(i, e)) =~= with_hardware(
            hardware_records_of(entries),
            i,
            e.hardware,
        ));
    }
}

/// Replacing the item of one sensor entry changes only that item in the
/// records
proof fn lemma_sensor_item_update<S>(entries: Seq<SensorEntry<S>>, i: int)
    requires
        0 <= i < entries.len(),
    ensures
        forall|e: SensorEntry<S>|
            e.parent_index == entries[i].parent_index && e.identifier == entries[i].identifier
                && e.kind == entries[i].kind ==> #[trigger] sensor_records_of(entries.update(i, e))
                == with_sensor(sensor_records_of(entries), i, e.sensor),
{
    assert forall|e: SensorEntry<S>|
        e.parent_index == entries[i].parent_index && e.identifier == entries[i].identifier
            && e.kind == entries[i].kind implies #[trigger] sensor_records_of(entries.update(i, e))
            == with_sensor(sensor_records_of(entries), i, e.sensor) by {
        assert(sensor_records_of(entries.update(i, e)) =~= with_sensor(
            sensor_records_of(entries),
            i,
            e.sensor,
        ));
    }
}

/// Replacing the item of a hardware record keeps every identifier
proof fn lemma_with_hardware_shape<H>(records: Seq<HardwareRecord<H>>, i: int)
    requires
        0 <= i < records.len(),
    ensures
        forall|h: H| #[trigger] hardware_ids(with_hardware(records, i, h)) == hardware_ids(records),
{
    assert forall|h: H| #[trigger] hardware_ids(with_hardware(records, i, h)) == hardware_ids(records) by {
        assert(hardware_ids(with_hardware(records, i, h)) =~= hardware_ids(records));
    }
}

/// Replacing the item of a sensor record keeps every identifier
proof fn lemma_with_sensor_shape<S>(records: Seq<SensorRecord<S>>, i: int)
    requires
        0 <= i < records.len(),
    ensures
        forall|x: S| #[trigger] sensor_ids(with_sensor(records, i, x)) == sensor_ids(records),
{
    assert forall|x: S| #[trigger] sensor_ids(with_sensor(records, i, x)) == sensor_ids(records) by {
        assert(sensor_ids(with_sensor(records, i, x)) =~= sensor_ids(records));
    }
}

/// Cache holding the currently loaded hardware and sensors
/// in a fashion that is easily queryable with all sensors
/// and children resolved
pub struct HardwareCache<H, S> {
    /// Flat collection of hardware (Includes all sub-hardware)
    hardware: Vec<HardwareEntry<H>>,
    /// Collection of all sensors for all hardware
    sensors: Vec<SensorEntry<S>>,
    /// Index cache for looking up hardware by ID
    hardware_lookup: StringHashMap<usize>,
    /// Index cache for looking up sensors by ID
    sensor_lookup: StringHashMap<usize>,
}

impl<H, S> Default for HardwareCache<H, S> {
    /// Creates an empty cache
    fn default() -> (cache: Self)
        ensures
            cache.well_formed(),
            cache.hardware_records() == Seq::<HardwareRecord<H>>::empty(),
            cache.sensor_records() == Seq::<SensorRecord<S>>::empty(),
            cache.hardware_index() == Map::<Seq<char>, usize>::empty(),
            cache.sensor_index() == Map::<Seq<char>, usize>::empty(),
    {
        let cache = HardwareCache {
            hardware: Vec::new(),
            sensors: Vec::new(),
            hardware_lookup: StringHashMap::new(),
            sensor_lookup: StringHashMap::new(),
        };
        assert(cache.hardware_records() =~= Seq::<HardwareRecord<H>>::empty());
        assert(cache.sensor_records() =~= Seq::<SensorRecord<S>>::empty());
        assert(index_map(hardware_ids(cache.hardware_records())) =~= Map::empty());
        assert(index_map(sensor_ids(cache.sensor_records())) =~= Map::empty());
        cache
    }
}

impl<H, S> HardwareCache<H, S> {
    /// The hardware records, in the order in which they are stored
    pub closed spec fn hardware_records(&self) -> Seq<HardwareRecord<H>> {
        hardware_records_of(self.hardware@)
    }

    /// The sensor records, in the order in which they are stored
    pub closed spec fn sensor_records(&self) -> Seq<SensorRecord<S>> {
        sensor_records_of(self.sensors@)
    }

    /// The position that the cache holds for each hardware identifier
    pub closed spec fn hardware_index(&self) -> Map<Seq<char>, usize> {
        self.hardware_lookup@
    }

    /// The position that the cache holds for each sensor identifier
    pub closed spec fn sensor_index(&self) -> Map<Seq<char>, usize> {
        self.sensor_lookup@
    }

    /// The cache's invariant: each lookup table holds, for each identifier,
    /// the position of the last record with that identifier; sub-hardware is
    /// stored after its parent, and each sensor belongs to stored hardware
    pub open spec fn well_formed(&self) -> bool {
        let hw = self.hardware_records();
        let sn = self.sensor_records();
        &&& hw.len() <= usize::MAX
        &&& sn.len() <= usize::MAX
        &&& self.hardware_index() == index_map(hardware_ids(hw))
        &&& self.sensor_index() == index_map(sensor_ids(sn))
        &&& forall|i: int|
            0 <= i < hw.len() ==> (#[trigger] hw[i].parent_index matches Some(p) ==> 0 <= p < i)
        &&& forall|j: int| 0 <= j < sn.len() ==> 0 <= #[trigger] sn[j].parent_index < hw.len()
    }

    /// Empty the cache
    pub fn clear(&mut self)
        ensures
            final(self).well_formed(),
            final(self).hardware_records() == Seq::<HardwareRecord<H>>::empty(),
            final(self).sensor_records() == Seq::<SensorRecord<S>>::empty(),
            final(self).hardware_index() == Map::<Seq<char>, usize>::empty(),
            final(self).sensor_index() == Map::<Seq<char>, usize>::empty(),
    {
        self.hardware.clear();
        self.sensors.clear();
        self.hardware_lookup.clear();
        self.sensor_lookup.clear();
        assert(self.hardware_records() =~= Seq::<HardwareRecord<H>>::empty());
        assert(self.sensor_records() =~= Seq::<SensorRecord<S>>::empty());
        assert(index_map(hardware_ids(self.hardware_records())) =~= Map::empty());
        assert(index_map(sensor_ids(self.sensor_records())) =~= Map::empty());
    }

    /// The position and the item of the hardware with the given identifier
    /// (the last one stored, where several share it)
    pub fn get_hardware_by_id(&self, identifier: &str) -> (result: Option<(usize, &H)>)
        requires
            self.well_formed(),
        ensures
            result == (if self.hardware_index().contains_key(identifier@) {
                let i = self.hardware_index()[identifier@];
                Some((i, &self.hardware_records()[i as int].hardware))
            } else {
                None
            }),
    {
        let index = match self.hardware_lookup.get(identifier) {
            Some(index) => *index,
            None => return None,
        };
        proof {
            lemma_index_map_finds_last(hardware_ids(self.hardware_records()), identifier@);
        }
        let hardware = &self.hardware[index];
        Some((index, &hardware.hardware))
    }

    /// The position and the item of the sensor with the given identifier
    /// (the last one stored, where several share it)
    pub fn get_sensor_by_id(&self, identifier: &str) -> (result: Option<(usize, &S)>)
        requires
            self.well_formed(),
        ensures
            result == (if self.sensor_index().contains_key(identifier@) {
                let i = self.sensor_index()[identifier@];
                Some((i, &self.sensor_records()[i as int].sensor))
            } else {
                None
            }),
    {
        let index = match self.sensor_lookup.get(identifier) {
            Some(index) => *index,
            None => return None,
        };
        proof {
            lemma_index_map_finds_last(sensor_ids(self.sensor_records()), identifier@);
        }
        let sensor = &self.sensors[index];
        Some((index, &sensor.sensor))
    }

    /// Mutable access to the hardware item stored at the given position
    pub fn get_hardware_by_idx_mut(&mut self, index: usize) -> (result: Option<&mut H>)
        requires
            old(self).well_formed(),
        ensures
            final(self).well_formed(),
            final(self).hardware_index() == old(self).hardware_index(),
            final(self).sensor_index() == old(self).sensor_index(),
            final(self).sensor_records() == old(self).sensor_records(),
            index < old(self).hardware_records().len() <==> result is Some,
            match result {
                Some(r) => {
                    &&& *r == old(self).hardware_records()[index as int].hardware
                    &&& final(self).hardware_records() == with_hardware(
                        old(self).hardware_records(),
                        index as int,
                        *final(r),
                    )
                },
                None => final(self).hardware_records() == old(self).hardware_records(),
            },
    {
        if index < self.hardware.len() {
            proof {
                lemma_hardware_item_update(self.hardware@, index as int);
                lemma_with_hardware_shape(self.hardware_records(), index as int);
            }
            let entry = &mut self.hardware[index];
            Some(&mut entry.hardware)
        } else {
            None
        }
    }

    /// Mutable access to the sensor item stored at the given position
    pub fn get_sensor_by_idx_mut(&mut self, index: usize) -> (result: Option<&mut S>)
        requires
            old(self).well_formed(),
        ensures
            final(self).well_formed(),
            final(self).hardware_index() == old(self).hardware_index(),
            final(self).sensor_index() == old(self).sensor_index(),
            final(self).hardware_records() == old(self).hardware_records(),
            index < old(self).sensor_records().len() <==> result is Some,
            match result {
                Some(r) => {
                    &&& *r == old(self).sensor_records()[index as int].sensor
                    &&& final(self).sensor_records() == with_sensor(
                        old(self).sensor_records(),
                        index as int,
                        *final(r),
                    )
                },
                None => final(self).sensor_records() == old(self).sensor_records(),
            },
    {
        if index < self.sensors.len() {
            proof {
                lemma_sensor_item_update(self.sensors@, index as int);
                lemma_with_sensor_shape(self.sensor_records(), index as int);
            }
            let entry = &mut self.sensors[index];
            Some(&mut entry.sensor)
        } else {
            None
        }
    }

    /// Mutable access to the hardware item with the given identifier
    /// (the last one stored, where several share it)
    pub fn get_hardware_by_id_mut(&mut self, identifier: &str) -> (result: Option<&mut H>)
        requires
            old(self).well_formed(),
        ensures
            final(self).well_formed(),
            final(self).hardware_index() == old(self).hardware_index(),
            final(self).sensor_index() == old(self).sensor_index(),
            final(self).sensor_records() == old(self).sensor_records(),
            old(self).hardware_index().contains_key(identifier@) <==> result is Some,
            match result {
                Some(r) => {
                    let i = old(self).hardware_index()[identifier@] as int;
                    &&& *r == old(self).hardware_records()[i].hardware
                    &&& final(self).hardware_records() == with_hardware(
                        old(self).hardware_records(),
                        i,
                        *final(r),
                    )
                },
                None => final(self).hardware_records() == old(self).hardware_records(),
            },
    {
        let index = match self.hardware_lookup.get(identifier) {
            Some(index) => *index,
            None => return None,
        };
        proof {
            lemma_index_map_finds_last(hardware_ids(self.hardware_records()), identifier@);
            lemma_hardware_item_update(self.hardware@, index as int);
            lemma_with_hardware_shape(self.hardware_records(), index as int);
        }
        let entry = &mut self.hardware[index];
        Some(&mut entry.hardware)
    }

    /// Mutable access to the sensor item with the given identifier
    /// (the last one stored, where several share it)
    pub fn get_sensor_by_id_mut(&mut self, identifier: &str) -> (result: Option<&mut S>)
        requires
            old(self).well_formed(),
        ensures
            final(self).well_formed(),
            final(self).hardware_index() == old(self).hardware_index(),
            final(self).sensor_index() == old(self).sensor_index(),
            final(self).hardware_records() == old(self).hardware_records(),
            old(self).sensor_index().contains_key(identifier@) <==> result is Some,
            match result {
                Some(r) => {
                    let i = old(self).sensor_index()[identifier@] as int;
                    &&& *r == old(self).sensor_records()[i].sensor
                    &&& final(self).sensor_records() == with_sensor(
                        old(self).sensor_records(),
                        i,
                        *final(r),
                    )
                },
                None => final(self).sensor_records() == old(self).sensor_records(),
            },
    {
        let index = match self.sensor_lookup.get(identifier) {
            Some(index) => *index,
            None => return None,
        };
        proof {
            lemma_index_map_finds_last(sensor_ids(self.sensor_records()), identifier@);
            lemma_sensor_item_update(self.sensors@, index as int);
            lemma_with_sensor_shape(self.sensor_records(), index as int);
        }
        let entry = &mut self.sensors[index];
        Some(&mut entry.sensor)
    }

    /// Replaces the contents of the cache with the given hardware, its
    /// sensors and all of its sub-hardware
    pub fn init(&mut self, hardware: Vec<HardwareNode<H, S>>)
        ensures
            final(self).well_formed(),
            final(self).hardware_records() == flatten_forest(hardware@, None, 0).0,
            final(self).sensor_records() == flatten_forest(hardware@, None, 0).1,
    {
        self.clear();
        self.populate(hardware, None);
        assert(self.hardware_records() =~= flatten_forest(hardware@, None, 0).0);
        assert(self.sensor_records() =~= flatten_forest(hardware@, None, 0).1);
    }

    /// Appends the given hardware, with `parent_index` as the parent of its
    /// top-level items, then the sensors and sub-hardware of each item
    fn populate(&mut self, hardware: Vec<HardwareNode<H, S>>, parent_index: Option<usize>)
        requires
            old(self).well_formed(),
            parent_index matches Some(p) ==> p < old(self).hardware_records().len(),
        ensures
            final(self).well_formed(),
            final(self).hardware_records() == old(self).hardware_records() + flatten_forest(
                hardware@,
                opt_index(parent_index),
                old(self).hardware_records().len() as int,
            ).0,
            final(self).sensor_records() == old(self).sensor_records() + flatten_forest(
                hardware@,
                opt_index(parent_index),
                old(self).hardware_records().len() as int,
            ).1,
        decreases hardware@,
    {
        let ghost nodes = hardware@;
        let ghost parent = opt_index(parent_index);
        let ghost base = self.hardware_records().len() as int;
        let ghost hw0 = self.hardware_records();
        let ghost sn0 = self.sensor_records();
        for item in it: hardware.into_iter()
            invariant
                it.seq() == nodes,
                parent == opt_index(parent_index),
                self.well_formed(),
                base == hw0.len(),
                parent_index matches Some(p) ==> p < base,
                self.hardware_records() == hw0 + flatten_forest(nodes.take(it.index() as int), parent, base).0,
                self.sensor_records() == sn0 + flatten_forest(nodes.take(it.index() as int), parent, base).1,
        {
            let ghost k = it.index();
            assert(item == nodes[k]);
            let HardwareNode { hardware: item_hardware, identifier, kind, sensors, children } = item;
            let hardware_index = self.hardware.len();
            let ghost hw1 = self.hardware_records();
            let ghost sn1 = self.sensor_records();
            let ghost own = HardwareRecord {
                parent_index: parent,
                identifier: nodes[k].identifier@,
                kind: nodes[k].kind,
                hardware: nodes[k].hardware,
            };
            self.hardware.push(
                HardwareEntry { parent_index, identifier: identifier.clone(), kind, hardware: item_hardware },
            );
            self.hardware_lookup.insert(identifier, hardware_index);
            proof {
                assert(self.hardware@[hw1.len() as int].record() == own);
                assert(self.hardware_records() =~= hw1.push(own));
                assert(self.hardware.len() <= usize::MAX);
                let ids = hardware_ids(self.hardware_records());
                assert(ids.drop_last() =~= hardware_ids(hw1));
                assert(self.hardware_index() =~= index_map(ids));
            }
            // Populate the sensors
            let ghost sensor_nodes = sensors@;
            for sensor in sit: sensors.into_iter()
                invariant
                    sit.seq() == sensor_nodes,
                    self.well_formed(),
                    hardware_index < self.hardware_records().len(),
                    self.hardware_records() == hw1.push(own),
                    self.sensor_records() == sn1 + sensor_records(sensor_nodes.take(sit.index() as int), hardware_index as int),
            {
                let SensorNode { sensor: sensor_item, identifier: sensor_identifier, kind: sensor_kind } = sensor;
                let sensor_index = self.sensors.len();
                let ghost sn2 = self.sensor_records();
                self.sensors.push(
                    SensorEntry {
                        parent_index: hardware_index,
                        identifier: sensor_identifier.clone(),
                        kind: sensor_kind,
                        sensor: sensor_item,
                    },
                );
                self.sensor_lookup.insert(sensor_identifier, sensor_index);
                proof {
                    let j = sit.index();
                    assert(sensor_nodes.take(j + 1) =~= sensor_nodes.take(j).push(sensor_nodes[j]));
                    assert(sensor == sensor_nodes[j]);
                    assert(self.sensor_records() =~= sn2.push(SensorRecord {
                        parent_index: hardware_index as int,
                        identifier: sensor_nodes[j].identifier@,
                        kind: sensor_nodes[j].kind,
                        sensor: sensor_nodes[j].sensor,
                    }));
                    assert(self.sensors.len() <= usize::MAX);
                    let ids = sensor_ids(self.sensor_records());
                    assert(ids.drop_last() =~= sensor_ids(sn2));
                    assert(self.sensor_index() =~= index_map(ids));
                    assert(sensor_records(sensor_nodes.take(j + 1), hardware_index as int) =~= sensor_records(sensor_nodes.take(j), hardware_index as int).push(SensorRecord {
                        parent_index: hardware_index as int,
                        identifier: sensor_nodes[j].identifier@,
                        kind: sensor_nodes[j].kind,
                        sensor: sensor_nodes[j].sensor,
                    }));
                }
            }
            proof {
                assert(sensor_nodes.take(sensor_nodes.len() as int) =~= sensor_nodes);
            }
            // Populate the cache with children
            self.populate(children, Some(hardware_index));
            proof {
                assert(nodes.take(k + 1).drop_last() =~= nodes.take(k));
                assert(nodes.take(k + 1).last() == nodes[k]);
            }
        }
        assert(nodes.take(nodes.len() as int) =~= nodes);
    }

    /// Lists the hardware, optionally only the items of the given type and
    /// those whose parent position is the given one (`Some(None)` selects the
    /// top-level items), with the position of each, in stored order
    pub fn query_hardware_iter(&self, parent_index: Option<Option<usize>>, ty: Option<HardwareType>) -> (result: Vec<(usize, &H)>)
        requires
            self.well_formed(),
        ensures
            ({
                let chosen = matching_hardware(self.hardware_records(), parent_index, ty);
                &&& result@.len() == chosen.len()
                &&& forall|i: int|
                    0 <= i < chosen.len() ==> {
                        &&& #[trigger] result@[i].0 == chosen[i]
                        &&& *result@[i].1 == self.hardware_records()[chosen[i]].hardware
                    }
            }),
            forall|i: int|
                0 <= i < result@.len() ==> {
                    let n = (#[trigger] result@[i]).0 as int;
                    let record = self.hardware_records()[n];
                    &&& 0 <= n < self.hardware_records().len()
                    &&& (ty matches Some(t) ==> record.kind == t)
                    &&& (parent_index matches Some(p) ==> record.parent_index == match p {
                        Some(q) => Some(q as int),
                        None => None::<int>,
                    })
                    &&& *result@[i].1 == record.hardware
                },
            forall|n: int|
                0 <= n < self.hardware_records().len() && (ty matches Some(t) ==> (
                #[trigger] self.hardware_records()[n]).kind == t) && (parent_index matches Some(p)
                    ==> self.hardware_records()[n].parent_index == match p {
                    Some(q) => Some(q as int),
                    None => None::<int>,
                }) ==> exists|i: int| 0 <= i < result@.len() && result@[i].0 == n,
            forall|i: int, j: int|
                0 <= i < j < result@.len() ==> (#[trigger] result@[i]).0 < (#[trigger] result@[j]).0,
    {
        let ghost records = self.hardware_records();
        let mut result: Vec<(usize, &H)> = Vec::new();
        let len = self.hardware.len();
        for index in 0..len
            invariant
                len == self.hardware@.len(),
                records == self.hardware_records(),
                result@.len() == matching_hardware(records.take(index as int), parent_index, ty).len(),
                forall|i: int|
                    0 <= i < result@.len() ==> #[trigger] result@[i].0 == matching_hardware(
                        records.take(index as int),
                        parent_index,
                        ty,
                    )[i],
                forall|i: int|
                    0 <= i < result@.len() ==> *(#[trigger] result@[i]).1 == records[matching_hardware(
                        records.take(index as int),
                        parent_index,
                        ty,
                    )[i]].hardware,
        {
            let entry = &self.hardware[index];
            let type_matches = match ty {
                Some(t) => entry.kind == t,
                None => true,
            };
            let parent_matches = match parent_index {
                Some(Some(p)) => match entry.parent_index {
                    Some(q) => q == p,
                    None => false,
                },
                Some(None) => entry.parent_index.is_none(),
                None => true,
            };
            proof {
                assert(records.take(index + 1).drop_last() =~= records.take(index as int));
                assert(records.take(index + 1)[index as int] == records[index as int]);
                lemma_matching_hardware(records.take(index as int), parent_index, ty);
                lemma_matching_hardware(records.take(index + 1), parent_index, ty);
            }
            if type_matches && parent_matches {
                result.push((index, &entry.hardware));
            }
        }
        proof {
            assert(records.take(len as int) =~= records);
            lemma_matching_hardware(records, parent_index, ty);
            lemma_hardware_query_selects_exactly(records, parent_index, ty);
            let chosen = matching_hardware(records, parent_index, ty);
            assert forall|i: int| 0 <= i < result@.len() implies {
                let n = (#[trigger] result@[i]).0 as int;
                let record = self.hardware_records()[n];
                &&& 0 <= n < self.hardware_records().len()
                &&& (ty matches Some(t) ==> record.kind == t)
                &&& (parent_index matches Some(p) ==> record.parent_index == match p {
                    Some(q) => Some(q as int),
                    None => None::<int>,
                })
                &&& *result@[i].1 == record.hardware
            } by {
                assert(chosen.contains(chosen[i]));
            }
            assert forall|n: int|
                0 <= n < self.hardware_records().len() && (ty matches Some(t) ==> (
                #[trigger] self.hardware_records()[n]).kind == t) && (parent_index matches Some(p)
                    ==> self.hardware_records()[n].parent_index == match p {
                    Some(q) => Some(q as int),
                    None => None::<int>,
                }) implies exists|i: int| 0 <= i < result@.len() && result@[i].0 == n by {
                assert(chosen.contains(n));
                let w = choose|w: int| 0 <= w < chosen.len() && chosen[w] == n;
                assert(result@[w].0 == n);
            }
        }
        result
    }

    /// Lists the sensors, optionally only those of the given type and those
    /// that belong to the hardware at the given position, with the position
    /// of each, in stored order
    pub fn query_sensors(&self, parent_index: Option<usize>, ty: Option<SensorType>) -> (result: Vec<(usize, &S)>)
        requires
            self.well_formed(),
        ensures
            ({
                let chosen = matching_sensors(self.sensor_records(), parent_index, ty);
                &&& result@.len() == chosen.len()
                &&& forall|i: int|
                    0 <= i < chosen.len() ==> {
                        &&& #[trigger] result@[i].0 == chosen[i]
                        &&& *result@[i].1 == self.sensor_records()[chosen[i]].sensor
                    }
            }),
            forall|i: int|
                0 <= i < result@.len() ==> {
                    let n = (#[trigger] result@[i]).0 as int;
                    let record = self.sensor_records()[n];
                    &&& 0 <= n < self.sensor_records().len()
                    &&& (ty matches Some(t) ==> record.kind == t)
                    &&& (parent_index matches Some(p) ==> record.parent_index == p as int)
                    &&& *result@[i].1 == record.sensor
                },
            forall|n: int|
                0 <= n < self.sensor_records().len() && (ty matches Some(t) ==> (
                #[trigger] self.sensor_records()[n]).kind == t) && (parent_index matches Some(p)
                    ==> self.sensor_records()[n].parent_index == p as int) ==> exists|i: int|
                    0 <= i < result@.len() && result@[i].0 == n,
            forall|i: int, j: int|
                0 <= i < j < result@.len() ==> (#[trigger] result@[i]).0 < (#[trigger] result@[j]).0,
    {
        let ghost records = self.sensor_records();
        let mut result: Vec<(usize, &S)> = Vec::new();
        let len = self.sensors.len();
        for index in 0..len
            invariant
                len == self.sensors@.len(),
                records == self.sensor_records(),
                result@.len() == matching_sensors(records.take(index as int), parent_index, ty).len(),
                forall|i: int|
                    0 <= i < result@.len() ==> #[trigger] result@[i].0 == matching_sensors(
                        records.take(index as int),
                        parent_index,
                        ty,
                    )[i],
                forall|i: int|
                    0 <= i < result@.len() ==> *(#[trigger] result@[i]).1 == records[matching_sensors(
                        records.take(index as int),
                        parent_index,
                        ty,
                    )[i]].sensor,
        {
            let entry = &self.sensors[index];
            let type_matches = match ty {
                Some(t) => entry.kind == t,
                None => true,
            };
            let parent_matches = match parent_index {
                Some(p) => entry.parent_index == p,
                None => true,
            };
            proof {
                assert(records.take(index + 1).drop_last() =~= records.take(index as int));
                assert(records.take(index + 1)[index as int] == records[index as int]);
                lemma_matching_sensors(records.take(index as int), parent_index, ty);
                lemma_matching_sensors(records.take(index + 1), parent_index, ty);
            }
            if type_matches && parent_matches {
                result.push((index, &entry.sensor));
            }
        }
        proof {
            assert(records.take(len as int) =~= records);
            lemma_matching_sensors(records, parent_index, ty);
            lemma_sensor_query_selects_exactly(records, parent_index, ty);
            let chosen = matching_sensors(records, parent_index, ty);
            assert forall|i: int| 0 <= i < result@.len() implies {
                let n = (#[trigger] result@[i]).0 as int;
                let record = self.sensor_records()[n];
                &&& 0 <= n < self.sensor_records().len()
                &&& (ty matches Some(t) ==> record.kind == t)
                &&& (parent_index matches Some(p) ==> record.parent_index == p as int)
                &&& *result@[i].1 == record.sensor
            } by {
                assert(chosen.contains(chosen[i]));
            }
            assert forall|n: int|
                0 <= n < self.sensor_records().len() && (ty matches Some(t) ==> (
                #[trigger] self.sensor_records()[n]).kind == t) && (parent_index matches Some(p)
                    ==> self.sensor_records()[n].parent_index == p as int) implies exists|i: int|
                    0 <= i < result@.len() && result@[i].0 == n by {
                assert(chosen.contains(n));
                let w = choose|w: int| 0 <= w < chosen.len() && chosen[w] == n;
                assert(result@[w].0 == n);
            }
        }
        result
    }
}

/// Looking a hardware identifier up in a well-formed cache finds it exactly
/// when some hardware record has it, and then finds the position of the last
/// record with that identifier
pub proof fn lemma_hardware_lookup<H, S>(cache: HardwareCache<H, S>, id: Seq<char>)
    requires
        cache.well_formed(),
    ensures
        cache.hardware_index().contains_key(id) <==> hardware_ids(cache.hardware_records()).contains(id),
        cache.hardware_index().contains_key(id) ==> {
            let i = cache.hardware_index()[id] as int;
            let records = cache.hardware_records();
            &&& 0 <= i < records.len()
            &&& records[i].identifier == id
            &&& forall|j: int| i < j < records.len() ==> (#[trigger] records[j]).identifier != id
        },
{
    let records = cache.hardware_records();
    lemma_index_map_finds_last(hardware_ids(records), id);
    if cache.hardware_index().contains_key(id) {
        let i = cache.hardware_index()[id] as int;
        assert forall|j: int| i < j < records.len() implies (#[trigger] records[j]).identifier != id by {
            assert(hardware_ids(records)[j] == records[j].identifier);
        }
    }
}

/// Looking a sensor identifier up in a well-formed cache finds it exactly
/// when some sensor record has it, and then finds the position of the last
/// record with that identifier
pub proof fn lemma_sensor_lookup<H, S>(cache: HardwareCache<H, S>, id: Seq<char>)
    requires
        cache.well_formed(),
    ensures
        cache.sensor_index().contains_key(id) <==> sensor_ids(cache.sensor_records()).contains(id),
        cache.sensor_index().contains_key(id) ==> {
            let i = cache.sensor_index()[id] as int;
            let records = cache.sensor_records();
            &&& 0 <= i < records.len()
            &&& records[i].identifier == id
            &&& forall|j: int| i < j < records.len() ==> (#[trigger] records[j]).identifier != id
        },
{
    let records = cache.sensor_records();
    lemma_index_map_finds_last(sensor_ids(records), id);
    if cache.sensor_index().contains_key(id) {
        let i = cache.sensor_index()[id] as int;
        assert forall|j: int| i < j < records.len() implies (#[trigger] records[j]).identifier != id by {
            assert(sensor_ids(records)[j] == records[j].identifier);
        }
    }
}

/// A cache filled from a forest of hardware finds, by identifier, exactly the
/// hardware items and the sensors of the forest, sub-hardware at every depth
/// included
pub proof fn lemma_filled_cache_resolves_forest<H, S>(
    cache: HardwareCache<H, S>,
    hardware: Seq<HardwareNode<H, S>>,
    id: Seq<char>,
)
    requires
        cache.well_formed(),
        cache.hardware_records() == flatten_forest(hardware, None, 0).0,
        cache.sensor_records() == flatten_forest(hardware, None, 0).1,
    ensures
        cache.hardware_index().contains_key(id) <==> forest_has_hardware(hardware, id),
        cache.sensor_index().contains_key(id) <==> forest_has_sensor(hardware, id),
{
    lemma_hardware_lookup(cache, id);
    lemma_sensor_lookup(cache, id);
    lemma_flatten_keeps_identifiers(hardware, None, 0, id);
}

/// The structure of a cache filled from a forest of hardware. Hardware
/// record `i` comes from the `i`-th item of the forest in depth-first order.
/// A record without a parent comes from a top-level item, and every
/// top-level item has such a record. A record with the parent `Some(p)` has
/// `p` before its own position, and the item at `p` has the record's item
/// among its sub-hardware. The sensor records are the sensors of each
/// hardware item in turn, owned by that item's position, so owners never
/// decrease and each sensor is one of its owner's. Hence the per-owner
/// sensor queries, one after the other, give the unfiltered sensor query.
pub proof fn lemma_filled_cache_structure<H, S>(cache: HardwareCache<H, S>, hardware: Seq<HardwareNode<H, S>>)
    requires
        cache.well_formed(),
        cache.hardware_records() == flatten_forest(hardware, None, 0).0,
        cache.sensor_records() == flatten_forest(hardware, None, 0).1,
    ensures
        ({
            let hw = cache.hardware_records();
            let sn = cache.sensor_records();
            let pre = preorder(hardware);
            &&& hw.len() == pre.len()
            &&& forall|i: int|
                0 <= i < hw.len() ==> {
                    &&& (#[trigger] hw[i]).identifier == pre[i].identifier@
                    &&& hw[i].kind == pre[i].kind
                    &&& hw[i].hardware == pre[i].hardware
                }
            &&& forall|i: int|
                0 <= i < hw.len() && (#[trigger] hw[i]).parent_index is None ==> hardware.contains(pre[i])
            &&& forall|i: int|
                0 <= i < hw.len() && (#[trigger] hw[i]).parent_index is Some ==> {
                    let p = hw[i].parent_index->0;
                    &&& 0 <= p < i
                    &&& pre[p].children@.contains(pre[i])
                }
            &&& forall|k: int|
                #![trigger hardware[k]]
                0 <= k < hardware.len() ==> exists|i: int|
                    0 <= i < hw.len() && (#[trigger] hw[i]).parent_index is None && pre[i] == hardware[k]
            &&& sn == grouped_sensors(pre, 0)
            &&& forall|j: int| 0 <= j < sn.len() ==> 0 <= (#[trigger] sn[j]).parent_index < hw.len()
            &&& forall|i: int, j: int|
                0 <= i < j < sn.len() ==> (#[trigger] sn[i]).parent_index <= (#[trigger] sn[j]).parent_index
            &&& forall|j: int|
                0 <= j < sn.len() ==> exists|k: int|
                    #![trigger pre[sn[j].parent_index].sensors@[k]]
                    0 <= k < pre[(#[trigger] sn[j]).parent_index].sensors@.len() && {
                        let s = pre[sn[j].parent_index].sensors@[k];
                        &&& s.identifier@ == sn[j].identifier
                        &&& s.kind == sn[j].kind
                        &&& s.sensor == sn[j].sensor
                    }
            &&& sensors_by_owner(sn, hw.len()) == matching_sensors(sn, None, None)
        }),
{
    let hw = cache.hardware_records();
    let sn = cache.sensor_records();
    let pre = preorder(hardware);
    lemma_flatten_structure(hardware, None, 0);
    lemma_grouped_sensors_owners(pre, 0);
    assert forall|i: int|
        0 <= i < hw.len() && (#[trigger] hw[i]).parent_index is Some implies {
            let p = hw[i].parent_index->0;
            &&& 0 <= p < i
            &&& pre[p].children@.contains(pre[i])
        } by {
        assert(hw[i].parent_index != None::<int>);
    }
    assert forall|k: int| #![trigger hardware[k]] 0 <= k < hardware.len() implies exists|i: int|
        0 <= i < hw.len() && (#[trigger] hw[i]).parent_index is None && pre[i] == hardware[k] by {
        let i = choose|i: int|
            0 <= i < hw.len() && (#[trigger] hw[i]).parent_index == None::<int> && pre[i] == hardware[k];
    }
    lemma_sensors_by_owner(sn, hw.len());
}

/// In a cache filled from a forest of hardware, a sensor found by identifier
/// is a sensor with that identifier of the hardware item at its owner
/// position, and a sensor is found exactly when the forest has one with that
/// identifier
pub proof fn lemma_filled_cache_sensor_owner<H, S>(
    cache: HardwareCache<H, S>,
    hardware: Seq<HardwareNode<H, S>>,
    id: Seq<char>,
)
    requires
        cache.well_formed(),
        cache.hardware_records() == flatten_forest(hardware, None, 0).0,
        cache.sensor_records() == flatten_forest(hardware, None, 0).1,
    ensures
        cache.sensor_index().contains_key(id) <==> forest_has_sensor(hardware, id),
        cache.sensor_index().contains_key(id) ==> {
            let j = cache.sensor_index()[id] as int;
            let sn = cache.sensor_records();
            let hw = cache.hardware_records();
            let pre = preorder(hardware);
            let o = sn[j].parent_index;
            &&& 0 <= o < hw.len()
            &&& hw[o].hardware == pre[o].hardware
            &&& exists|k: int|
                #![trigger pre[o].sensors@[k]]
                0 <= k < pre[o].sensors@.len() && pre[o].sensors@[k].identifier@ == id
                    && pre[o].sensors@[k].sensor == sn[j].sensor
        },
{
    lemma_filled_cache_resolves_forest(cache, hardware, id);
    lemma_sensor_lookup(cache, id);
    lemma_filled_cache_structure(cache, hardware);
    if cache.sensor_index().contains_key(id) {
        let j = cache.sensor_index()[id] as int;
        let sn = cache.sensor_records();
        let hw = cache.hardware_records();
        assert(0 <= sn[j].parent_index < hw.len());
        assert(hw[sn[j].parent_index] == hw[sn[j].parent_index]);
    }
}

} // verus!
