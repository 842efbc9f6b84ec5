use vstd::prelude::*;

use crate::tree::{flatten_forest, sensor_records, HardwareNode, SensorRecord};

verus! {

/// The hardware items of a forest at every depth, depth first, each item
/// before its sub-hardware: the item that each hardware record comes from
pub open spec fn preorder<H, S>(nodes: Seq<HardwareNode<H, S>>) -> Seq<HardwareNode<H, S>>
    decreases nodes,
{
    if nodes.len() == 0 {
        Seq::empty()
    } else {
        let node = nodes.last();
        preorder(nodes.drop_last()).push(node) + preorder(node.children@)
    }
}

/// The sensor records of `items`, stored at positions from `base` on: the
/// sensors of each item in turn, each group owned by its item's position
pub open spec fn grouped_sensors<H, S>(items: Seq<HardwareNode<H, S>>, base: int) -> Seq<SensorRecord<S>>
    decreases items.len(),
{
    if items.len() == 0 {
        Seq::empty()
    } else {
        grouped_sensors(items.drop_last(), base) + sensor_records(
            items.last().sensors@,
            base + items.len() - 1,
        )
    }
}

/// Grouping the sensors of two runs of items one after the other gives the
/// groups of the first run followed by those of the second
pub proof fn lemma_grouped_sensors_append<H, S>(
    x: Seq<HardwareNode<H, S>>,
    y: Seq<HardwareNode<H, S>>,
    base: int,
)
    ensures
        grouped_sensors(x + y, base) == grouped_sensors(x, base) + grouped_sensors(y, base + x.len()),
    decreases y.len(),
{
    if y.len() == 0 {
        assert(x + y =~= x);
        assert(grouped_sensors(x, base) + grouped_sensors(y, base + x.len()) =~= grouped_sensors(x, base));
    } else {
        lemma_grouped_sensors_append(x, y.drop_last(), base);
        assert((x + y).drop_last() =~= x + y.drop_last());
        assert((x + y).last() == y.last());
        assert(grouped_sensors(x + y, base) =~= grouped_sensors(x, base) + grouped_sensors(
            y,
            base + x.len(),
        ));
    }
}

/// The structure that flattening keeps. Hardware record `i` carries the
/// identifier, type and item of the `i`-th item in depth-first order. A record
/// with the parent given to the top level comes from a top-level item, and
/// every top-level item has such a record. Any other record has the parent
/// `Some(q)` for a position `q` before its own whose item has the record's
/// item among its sub-hardware. The sensor records are the sensors of each
/// item in turn, owned by that item's position.
pub proof fn lemma_flatten_structure<H, S>(nodes: Seq<HardwareNode<H, S>>, parent: Option<int>, base: int)
    requires
        parent matches Some(p) ==> p < base,
    ensures
        ({
            let flat = flatten_forest(nodes, parent, base);
            let hw = flat.0;
            let pre = preorder(nodes);
            &&& hw.len() == pre.len()
            &&& forall|i: int|
                0 <= i < hw.len() ==> {
                    &&& (#[trigger] hw[i]).identifier == pre[i].identifier@
                    &&& hw[i].kind == pre[i].kind
                    &&& hw[i].hardware == pre[i].hardware
                }
            &&& forall|i: int|
                0 <= i < hw.len() && (#[trigger] hw[i]).parent_index == parent ==> nodes.contains(pre[i])
            &&& forall|i: int|
                0 <= i < hw.len() && (#[trigger] hw[i]).parent_index != parent ==> {
                    &&& hw[i].parent_index is Some
                    &&& base <= hw[i].parent_index->0 < base + i
                    &&& pre[hw[i].parent_index->0 - base].children@.contains(pre[i])
                }
            &&& forall|k: int|
                #![trigger nodes[k]]
                0 <= k < nodes.len() ==> exists|i: int|
                    0 <= i < hw.len() && (#[trigger] hw[i]).parent_index == parent && pre[i] == nodes[k]
            &&& flat.1 == grouped_sensors(pre, base)
        }),
    decreases nodes,
{
    if nodes.len() == 0 {
        assert(flatten_forest(nodes, parent, base).1 =~= grouped_sensors(preorder(nodes), base));
    } else {
        let prefix = nodes.drop_last();
        let node = nodes.last();
        let before = flatten_forest(prefix, parent, base);
        let a = before.0.len() as int;
        let at = base + a;
        let below = flatten_forest(node.children@, Some(at), at + 1);
        lemma_flatten_structure(prefix, parent, base);
        lemma_flatten_structure(node.children@, Some(at), at + 1);
        let pb = preorder(prefix);
        let pc = preorder(node.children@);
        let flat = flatten_forest(nodes, parent, base);
        let hw = flat.0;
        let pre = preorder(nodes);
        assert(pre == pb.push(node) + pc);
        assert(hw == before.0.push(flat.0[a]) + below.0);
        assert(hw.len() == pre.len());
        assert(pre[a] == node);
        assert forall|i: int| 0 <= i < hw.len() implies {
            &&& (#[trigger] hw[i]).identifier == pre[i].identifier@
            &&& hw[i].kind == pre[i].kind
            &&& hw[i].hardware == pre[i].hardware
        } by {
            if i < a {
                assert(hw[i] == before.0[i]);
                assert(pre[i] == pb[i]);
            } else if i > a {
                assert(hw[i] == below.0[i - a - 1]);
                assert(pre[i] == pc[i - a - 1]);
            }
        }
        assert forall|i: int| 0 <= i < hw.len() && (#[trigger] hw[i]).parent_index == parent implies nodes.contains(
            pre[i],
        ) by {
            if i < a {
                assert(hw[i] == before.0[i]);
                assert(pre[i] == pb[i]);
                let w = choose|w: int| 0 <= w < prefix.len() && prefix[w] == pb[i];
                assert(nodes[w] == prefix[w]);
            } else if i == a {
                assert(nodes[nodes.len() - 1] == pre[i]);
            } else {
                assert(hw[i] == below.0[i - a - 1]);
                assert(below.0[i - a - 1].parent_index != Some(at));
                assert(below.0[i - a - 1].parent_index != parent);
            }
        }
        assert forall|i: int| 0 <= i < hw.len() && (#[trigger] hw[i]).parent_index != parent implies {
            &&& hw[i].parent_index is Some
            &&& base <= hw[i].parent_index->0 < base + i
            &&& pre[hw[i].parent_index->0 - base].children@.contains(pre[i])
        } by {
            if i < a {
                assert(hw[i] == before.0[i]);
                assert(pre[i] == pb[i]);
                let q = hw[i].parent_index->0;
                assert(pre[q - base] == pb[q - base]);
            } else if i > a {
                let m = i - a - 1;
                assert(hw[i] == below.0[m]);
                assert(pre[i] == pc[m]);
                if below.0[m].parent_index == Some(at) {
                    assert(pre[at - base] == node);
                    let w = choose|w: int| 0 <= w < node.children@.len() && node.children@[w] == pc[m];
                    assert(node.children@[w] == pre[i]);
                } else {
                    let q = below.0[m].parent_index->0;
                    assert(pre[q - base] == pc[q - at - 1]);
                }
            }
        }
        assert forall|k: int| #![trigger nodes[k]] 0 <= k < nodes.len() implies exists|i: int|
            0 <= i < hw.len() && (#[trigger] hw[i]).parent_index == parent && pre[i] == nodes[k] by {
            if k < nodes.len() - 1 {
                assert(prefix[k] == nodes[k]);
                let i = choose|i: int|
                    0 <= i < before.0.len() && (#[trigger] before.0[i]).parent_index == parent && pb[i]
                        == prefix[k];
                assert(hw[i] == before.0[i]);
                assert(pre[i] == pb[i]);
            } else {
                assert(hw[a].parent_index == parent);
            }
        }
        lemma_grouped_sensors_append(pb.push(node), pc, base);
        assert(pb.push(node).drop_last() =~= pb);
        assert(grouped_sensors(pb.push(node), base) == grouped_sensors(pb, base) + sensor_records(
            node.sensors@,
            at,
        ));
        assert(flat.1 =~= grouped_sensors(pre, base));
    }
}

/// Grouped sensor records are owned by positions of their items, in
/// non-decreasing order of owner, and each is a sensor of its owner's item
pub proof fn lemma_grouped_sensors_owners<H, S>(items: Seq<HardwareNode<H, S>>, base: int)
    ensures
        ({
            let g = grouped_sensors(items, base);
            &&& forall|j: int| 0 <= j < g.len() ==> base <= (#[trigger] g[j]).parent_index < base + items.len()
            &&& forall|i: int, j: int|
                0 <= i < j < g.len() ==> (#[trigger] g[i]).parent_index <= (#[trigger] g[j]).parent_index
            &&& forall|j: int|
                0 <= j < g.len() ==> exists|k: int|
                    #![trigger items[g[j].parent_index - base].sensors@[k]]
                    0 <= k < items[(#[trigger] g[j]).parent_index - base].sensors@.len() && {
                        let s = items[g[j].parent_index - base].sensors@[k];
                        &&& s.identifier@ == g[j].identifier
                        &&& s.kind == g[j].kind
                        &&& s.sensor == g[j].sensor
                    }
        }),
    decreases items.len(),
{
    if items.len() > 0 {
        let prefix = items.drop_last();
        let n = items.len() - 1;
        lemma_grouped_sensors_owners(prefix, base);
        let g = grouped_sensors(items, base);
        let gp = grouped_sensors(prefix, base);
        let mine = sensor_records(items.last().sensors@, base + n);
        assert(g == gp + mine);
        assert forall|j: int| 0 <= j < g.len() implies base <= (#[trigger] g[j]).parent_index < base + items.len() by {
            if j < gp.len() {
                assert(g[j] == gp[j]);
            } else {
                assert(g[j] == mine[j - gp.len()]);
            }
        }
        assert forall|i: int, j: int|
            0 <= i < j < g.len() implies (#[trigger] g[i]).parent_index <= (#[trigger] g[j]).parent_index by {
            if j < gp.len() {
                assert(g[i] == gp[i]);
                assert(g[j] == gp[j]);
            } else if i < gp.len() {
                assert(g[i] == gp[i]);
                assert(g[j] == mine[j - gp.len()]);
            } else {
                assert(g[i] == mine[i - gp.len()]);
                assert(g[j] == mine[j - gp.len()]);
            }
        }
        assert forall|j: int| 0 <= j < g.len() implies exists|k: int|
            #![trigger items[g[j].parent_index - base].sensors@[k]]
            0 <= k < items[(#[trigger] g[j]).parent_index - base].sensors@.len() && {
                let s = items[g[j].parent_index - base].sensors@[k];
                &&& s.identifier@ == g[j].identifier
                &&& s.kind == g[j].kind
                &&& s.sensor == g[j].sensor
            } by {
            if j < gp.len() {
                assert(g[j] == gp[j]);
                let o = gp[j].parent_index - base;
                assert(items[o] == prefix[o]);
                let k = choose|k: int|
                    #![trigger prefix[o].sensors@[k]]
                    0 <= k < prefix[o].sensors@.len() && {
                        let s = prefix[o].sensors@[k];
                        &&& s.identifier@ == gp[j].identifier
                        &&& s.kind == gp[j].kind
                        &&& s.sensor == gp[j].sensor
                    };
            } else {
                let k = j - gp.len();
                assert(g[j] == mine[k]);
                assert(items[n] == items.last());
            }
        }
    }
}

} // verus!
