//! Keys and values that are kept.
use super::cache;
use super::cache::KvCache;
use crate::grid;
use crate::tensor::tensor::TensorModel;
use vstd::prelude::*;

verus! {

/// The rows of a slot stand together, head by head, and those of a head position by position.
pub proof fn rows_stand_position_by_position(c: KvCache, layer: int, slot: int, head: int, position: int, i: int)
    requires
        0 <= i < c.k@[layer]@.shape[3],
        0 <= i < c.v@[layer]@.shape[3],
    ensures
        ({
            let k = c.k@[layer]@;
            let v = c.v@[layer]@;
            let at = |t: TensorModel| ((slot * t.shape[1] + head) * t.shape[2] + position) * t.shape[3] + i;
            &&& c.key(layer, slot, head, position)[i] == k.lane(at(k))
            &&& c.value(layer, slot, head, position)[i] == v.lane(at(v))
            &&& c.key(layer, slot, head, position).len() == k.shape[3]
            &&& c.value(layer, slot, head, position).len() == v.shape[3]
        }),
{
}

/// What is written into a slot from a position on is kept there: the rows of head `g` are those of
/// head `g` of the block, one position after the other, keys as keys and values as values.
pub proof fn written_rows_are_kept(
    before: KvCache,
    after: KvCache,
    layer: int,
    slot: int,
    new_k: TensorModel,
    new_v: TensorModel,
    position: int,
    g: int,
    i: int,
    c: int,
)
    requires
        cache::block_written(before, after, layer, slot, new_k, new_v, position),
        0 <= slot < before.batch,
        0 <= g < new_k.shape[0] <= before.k@[layer]@.shape[1],
        0 <= i < new_k.shape[1],
        0 <= position,
        position + new_k.shape[1] <= before.k@[layer]@.shape[2],
        0 <= c < before.k@[layer]@.shape[3],
    ensures
        ({
            let w = before.k@[layer]@.shape[3];
            let at = (g * new_k.shape[1] + i) * w + c;
            &&& after.key(layer, slot, g, position + i)[c] == new_k.lane(at)
            &&& after.value(layer, slot, g, position + i)[c] == new_v.lane(at)
        }),
{
    let d = before.k@[layer]@.shape;
    let n = new_k.shape[1] as int;
    let at = grid::cell(g, i, n);
    assert(after.rows(layer, slot, g, position + i) == (new_k.chunk(at, d[3] as int), new_v.chunk(at, d[3] as int)));
}

/// What is not written over is kept as it was: other slots, other positions, other layers, and how
/// far the slots are filled.
pub proof fn other_rows_are_kept(
    before: KvCache,
    after: KvCache,
    layer: int,
    slot: int,
    new_k: TensorModel,
    new_v: TensorModel,
    position: int,
    b: int,
    g: int,
    p: int,
    l: int,
)
    requires
        cache::block_written(before, after, layer, slot, new_k, new_v, position),
        0 <= b < before.batch,
        0 <= g < before.k@[layer]@.shape[1],
        0 <= p < before.k@[layer]@.shape[2],
        b != slot || p < position || p >= position + new_k.shape[1],
    ensures
        after.key(layer, b, g, p) == before.key(layer, b, g, p),
        after.value(layer, b, g, p) == before.value(layer, b, g, p),
        0 <= l < before.k@.len() && l != layer ==> after.k@[l] == before.k@[l],
        0 <= l < before.v@.len() && l != layer ==> after.v@[l] == before.v@[l],
        after.seq_lens == before.seq_lens,
        after.batch == before.batch,
{
    assert(after.rows(layer, b, g, p) == before.rows(layer, b, g, p));
}

/// One row for each of several slots is kept at the position of its slot, and nothing else changes.
pub proof fn each_slot_keeps_its_row(
    before: KvCache,
    after: KvCache,
    layer: int,
    new_k: TensorModel,
    new_v: TensorModel,
    positions: Seq<usize>,
    b: int,
    g: int,
    p: int,
)
    requires
        cache::tokens_written(before, after, layer, new_k, new_v, positions),
        0 <= b < positions.len() <= before.batch,
        0 <= g < new_k.shape[0] <= before.k@[layer]@.shape[1],
        0 <= p < before.k@[layer]@.shape[2],
    ensures
        ({
            let w = before.k@[layer]@.shape[3] as int;
            let at = g * new_k.shape[1] + b;
            &&& p == positions[b] ==> after.key(layer, b, g, p) == new_k.chunk(at, w) && after.value(layer, b, g, p) == new_v.chunk(at, w)
            &&& p != positions[b] ==> after.key(layer, b, g, p) == before.key(layer, b, g, p) && after.value(layer, b, g, p) == before.value(
                layer,
                b,
                g,
                p,
            )
        }),
{
    let w = before.k@[layer]@.shape[3] as int;
    let at = grid::cell(g, b, new_k.shape[1] as int);
    assert(after.rows(layer, b, g, p) == (if p == positions[b] {
        (new_k.chunk(at, w), new_v.chunk(at, w))
    } else {
        before.rows(layer, b, g, p)
    }));
}

} // verus!
