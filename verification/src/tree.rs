use vstd::prelude::*;

use crate::kinds::{HardwareType, SensorType};

verus! {

/// A sensor as read from the system: the sensor item itself together with
/// the identifier and type that the cache indexes it by
pub struct SensorNode<S> {
    pub sensor: S,
    pub identifier: String,
    pub kind: SensorType,
}

/// A hardware item as read from the system: the item itself, the identifier
/// and type that the cache indexes it by, its sensors and its sub-hardware
#[verifier::reject_recursive_types(H)]
#[verifier::reject_recursive_types(S)]
pub struct HardwareNode<H, S> {
    pub hardware: H,
    pub identifier: String,
    pub kind: HardwareType,
    pub sensors: Vec<SensorNode<S>>,
    pub children: Vec<HardwareNode<H, S>>,
}

/// What the cache knows of one hardware item
pub struct HardwareRecord<H> {
    /// Position of the parent item in the cache, for sub-hardware
    pub parent_index: Option<int>,
    pub identifier: Seq<char>,
    pub kind: HardwareType,
    pub hardware: H,
}

/// What the cache knows of one sensor
pub struct SensorRecord<S> {
    /// Position of the hardware item that the sensor belongs to
    pub parent_index: int,
    pub identifier: Seq<char>,
    pub kind: SensorType,
    pub sensor: S,
}

pub open spec fn opt_index(index: Option<usize>) -> Option<int> {
    match index {
        Some(i) => Some(i as int),
        None => None,
    }
}

/// Records of the sensors of one hardware item at position `parent`
pub open spec fn sensor_records<S>(sensors: Seq<SensorNode<S>>, parent: int) -> Seq<SensorRecord<S>> {
    sensors.map_values(
        |s: SensorNode<S>|
            SensorRecord { parent_index: parent, identifier: s.identifier@, kind: s.kind, sensor: s.sensor },
    )
}

/// The records that a forest of hardware items flattens to, depth first with
/// each item before its sub-hardware, when its items are stored from position
/// `base` on and the top-level items have the parent `parent`: the hardware
/// records and the sensor records, in the order in which they are stored
pub open spec fn flatten_forest<H, S>(nodes: Seq<HardwareNode<H, S>>, parent: Option<int>, base: int) -> (
    Seq<HardwareRecord<H>>,
    Seq<SensorRecord<S>>,
)
    decreases nodes,
{
    if nodes.len() == 0 {
        (Seq::empty(), Seq::empty())
    } else {
        let before = flatten_forest(nodes.drop_last(), parent, base);
        let node = nodes.last();
        let at = base + before.0.len();
        let own = HardwareRecord {
            parent_index: parent,
            identifier: node.identifier@,
            kind: node.kind,
            hardware: node.hardware,
        };
        let below = flatten_forest(node.children@, Some(at), at + 1);
        (
            before.0.push(own) + below.0,
            before.1 + sensor_records(node.sensors@, at) + below.1,
        )
    }
}


/// Identifiers of hardware records, in order
pub open spec fn hardware_ids<H>(records: Seq<HardwareRecord<H>>) -> Seq<Seq<char>> {
    records.map_values(|r: HardwareRecord<H>| r.identifier)
}

/// Identifiers of sensor records, in order
pub open spec fn sensor_ids<S>(records: Seq<SensorRecord<S>>) -> Seq<Seq<char>> {
    records.map_values(|r: SensorRecord<S>| r.identifier)
}

/// `records` with the item of the record at position `i` replaced by `hardware`
pub open spec fn with_hardware<H>(records: Seq<HardwareRecord<H>>, i: int, hardware: H) -> Seq<HardwareRecord<H>> {
    records.update(
        i,
        HardwareRecord {
            parent_index: records[i].parent_index,
            identifier: records[i].identifier,
            kind: records[i].kind,
            hardware,
        },
    )
}

/// `records` with the item of the record at position `i` replaced by `sensor`
pub open spec fn with_sensor<S>(records: Seq<SensorRecord<S>>, i: int, sensor: S) -> Seq<SensorRecord<S>> {
    records.update(
        i,
        SensorRecord {
            parent_index: records[i].parent_index,
            identifier: records[i].identifier,
            kind: records[i].kind,
            sensor,
        },
    )
}

/// Whether some hardware item of the forest, at any depth, has the identifier `id`
pub open spec fn forest_has_hardware<H, S>(nodes: Seq<HardwareNode<H, S>>, id: Seq<char>) -> bool
    decreases nodes,
{
    if nodes.len() == 0 {
        false
    } else {
        let node = nodes.last();
        ||| forest_has_hardware(nodes.drop_last(), id)
        ||| node.identifier@ == id
        ||| forest_has_hardware(node.children@, id)
    }
}

/// Whether some sensor of a hardware item of the forest, at any depth, has
/// the identifier `id`
pub open spec fn forest_has_sensor<H, S>(nodes: Seq<HardwareNode<H, S>>, id: Seq<char>) -> bool
    decreases nodes,
{
    if nodes.len() == 0 {
        false
    } else {
        let node = nodes.last();
        ||| forest_has_sensor(nodes.drop_last(), id)
        ||| exists|j: int| 0 <= j < node.sensors@.len() && (#[trigger] node.sensors@[j]).identifier@ == id
        ||| forest_has_sensor(node.children@, id)
    }
}

/// Flattening keeps every item of the forest: the hardware records carry the
/// identifiers of all hardware items at every depth and no others, and the
/// sensor records those of all their sensors and no others
pub proof fn lemma_flatten_keeps_identifiers<H, S>(
    nodes: Seq<HardwareNode<H, S>>,
    parent: Option<int>,
    base: int,
    id: Seq<char>,
)
    ensures
        hardware_ids(flatten_forest(nodes, parent, base).0).contains(id) <==> forest_has_hardware(nodes, id),
        sensor_ids(flatten_forest(nodes, parent, base).1).contains(id) <==> forest_has_sensor(nodes, id),
    decreases nodes,
{
    if nodes.len() > 0 {
        let before = flatten_forest(nodes.drop_last(), parent, base);
        let node = nodes.last();
        let at = base + before.0.len();
        let below = flatten_forest(node.children@, Some(at), at + 1);
        let own = HardwareRecord {
            parent_index: parent,
            identifier: node.identifier@,
            kind: node.kind,
            hardware: node.hardware,
        };
        let flat = flatten_forest(nodes, parent, base);
        lemma_flatten_keeps_identifiers(nodes.drop_last(), parent, base, id);
        lemma_flatten_keeps_identifiers(node.children@, Some(at), at + 1, id);
        let mine = sensor_records(node.sensors@, at);
        assert(hardware_ids(flat.0) =~= hardware_ids(before.0).push(node.identifier@) + hardware_ids(below.0));
        assert(sensor_ids(flat.1) =~= sensor_ids(before.1) + sensor_ids(mine) + sensor_ids(below.1));
        let a = hardware_ids(before.0);
        let c = hardware_ids(below.0);
        if hardware_ids(flat.0).contains(id) {
            let w = choose|w: int| 0 <= w < hardware_ids(flat.0).len() && hardware_ids(flat.0)[w] == id;
            if w < a.len() {
                assert(a[w] == id);
            } else if w > a.len() {
                assert(c[w - a.len() - 1] == id);
            }
        }
        if forest_has_hardware(nodes.drop_last(), id) {
            let w = choose|w: int| 0 <= w < a.len() && a[w] == id;
            assert(hardware_ids(flat.0)[w] == id);
        }
        if node.identifier@ == id {
            assert(hardware_ids(flat.0)[a.len() as int] == id);
        }
        if forest_has_hardware(node.children@, id) {
            let w = choose|w: int| 0 <= w < c.len() && c[w] == id;
            assert(hardware_ids(flat.0)[a.len() + 1 + w] == id);
        }
        let sa = sensor_ids(before.1);
        let sm = sensor_ids(mine);
        let sc = sensor_ids(below.1);
        if sensor_ids(flat.1).contains(id) {
            let w = choose|w: int| 0 <= w < sensor_ids(flat.1).len() && sensor_ids(flat.1)[w] == id;
            if w < sa.len() {
                assert(sa[w] == id);
            } else if w < sa.len() + sm.len() {
                assert(sm[w - sa.len()] == id);
                assert(node.sensors@[w - sa.len()].identifier@ == id);
            } else {
                assert(sc[w - sa.len() - sm.len()] == id);
            }
        }
        if forest_has_sensor(nodes.drop_last(), id) {
            let w = choose|w: int| 0 <= w < sa.len() && sa[w] == id;
            assert(sensor_ids(flat.1)[w] == id);
        }
        if exists|j: int| 0 <= j < node.sensors@.len() && (#[trigger] node.sensors@[j]).identifier@ == id {
            let j = choose|j: int| 0 <= j < node.sensors@.len() && (#[trigger] node.sensors@[j]).identifier@ == id;
            assert(sm[j] == id);
            assert(sensor_ids(flat.1)[sa.len() + j] == id);
        }
        if forest_has_sensor(node.children@, id) {
            let w = choose|w: int| 0 <= w < sc.len() && sc[w] == id;
            assert(sensor_ids(flat.1)[sa.len() + sm.len() + w] == id);
        }
    }
}

} // verus!
