//! The cache of keys and values.
use crate::grid;
use crate::tensor::shape;
use crate::tensor::tensor;
use crate::tensor::tensor::{Tensor, TensorModel};
use crate::tensor::types::DType;
use vstd::prelude::*;

verus! {

/// Keys and values of the positions seen so far, for several sequences at once. The tensors of
/// a layer have the dimensions slot, head, position and element of a row.
pub struct KvCache {
    pub k: Vec<Tensor>,
    pub v: Vec<Tensor>,
    pub batch: usize,
    pub seq_lens: Vec<usize>,
}

/// The number of the row of a slot, a head and a position.
pub open spec fn row_number(slot: int, head: int, position: int, heads: int, max_len: int) -> int {
    grid::cell(grid::cell(slot, head, heads), position, max_len)
}

/// A tensor with these dimensions.
pub open spec fn shaped(t: TensorModel, batch: usize, heads: usize, max_len: usize, width: usize) -> bool {
    &&& t.wf()
    &&& t.dtype is F32
    &&& t.shape == seq![batch, heads, max_len, width]
}

/// A row inside the dimensions has a number inside the tensor.
pub proof fn row_inside(t: TensorModel, b: int, g: int, p: int, batch: usize, heads: usize, max_len: usize, width: usize)
    requires
        shaped(t, batch, heads, max_len, width),
        0 <= b < batch,
        0 <= g < heads,
        0 <= p < max_len,
    ensures
        0 <= grid::cell(b, g, heads as int) < batch * heads,
        0 <= row_number(b, g, p, heads as int, max_len as int) < batch * heads * max_len,
        (row_number(b, g, p, heads as int, max_len as int) + 1) * width <= t.count(),
        t.count() == batch * heads * max_len * width,
        t.count() <= usize::MAX,
{
    grid::cell_inside(b, g, batch as int, heads as int);
    let bg = grid::cell(b, g, heads as int);
    grid::cell_inside(bg, p, batch * heads, max_len as int);
    let r = row_number(b, g, p, heads as int, max_len as int);
    shape::product_four(batch, heads, max_len, width);
    t.sizes();
    assert((r + 1) * width <= batch * heads * max_len * width) by (nonlinear_arith)
        requires
            0 <= r < batch * heads * max_len,
    ;
}

/// The number of a row determines its slot, its head and its position.
pub proof fn row_unique(b: int, g: int, p: int, c: int, h: int, q: int, heads: int, max_len: int)
    requires
        0 <= b,
        0 <= c,
        0 <= g < heads,
        0 <= h < heads,
        0 <= p < max_len,
        0 <= q < max_len,
        row_number(b, g, p, heads, max_len) == row_number(c, h, q, heads, max_len),
    ensures
        b == c,
        g == h,
        p == q,
{
    assert(0 <= grid::cell(b, g, heads) && 0 <= grid::cell(c, h, heads)) by {
        grid::cell_inside(b, g, b + 1, heads);
        grid::cell_inside(c, h, c + 1, heads);
    }
    grid::cell_unique(grid::cell(b, g, heads), p, max_len);
    grid::cell_unique(grid::cell(c, h, heads), q, max_len);
    grid::cell_unique(b, g, heads);
    grid::cell_unique(c, h, heads);
}

impl KvCache {
    /// All tensors have the dimensions of the cache.
    pub open spec fn wf(self, heads: usize, max_len: usize, width: usize) -> bool {
        &&& self.v@.len() == self.k@.len()
        &&& self.seq_lens@.len() == self.batch
        &&& forall|l: int| 0 <= l < self.k@.len() ==> shaped((#[trigger] self.k@[l])@, self.batch, heads, max_len, width)
        &&& forall|l: int| 0 <= l < self.v@.len() ==> shaped((#[trigger] self.v@[l])@, self.batch, heads, max_len, width)
    }

    /// The key row of a layer, a slot, a head and a position.
    pub open spec fn key(self, layer: int, slot: int, head: int, position: int) -> Seq<u32> {
        let t = self.k@[layer]@;
        t.chunk(row_number(slot, head, position, t.shape[1] as int, t.shape[2] as int), t.shape[3] as int)
    }

    /// The value row of a layer, a slot, a head and a position.
    pub open spec fn value(self, layer: int, slot: int, head: int, position: int) -> Seq<u32> {
        let t = self.v@[layer]@;
        t.chunk(row_number(slot, head, position, t.shape[1] as int, t.shape[2] as int), t.shape[3] as int)
    }

    /// The key and the value row of a layer, a slot, a head and a position.
    pub open spec fn rows(self, layer: int, slot: int, head: int, position: int) -> (Seq<u32>, Seq<u32>) {
        (self.key(layer, slot, head, position), self.value(layer, slot, head, position))
    }

    /// Every row of every layer is zero.
    pub open spec fn zeroed(self) -> bool {
        &&& forall|l: int, i: int| 0 <= l < self.k@.len() && 0 <= i < self.k@[l]@.data.len() ==> #[trigger] self.k@[l]@.data[i] == 0
        &&& forall|l: int, i: int| 0 <= l < self.v@.len() && 0 <= i < self.v@[l]@.data.len() ==> #[trigger] self.v@[l]@.data[i] == 0
    }

    /// A cache with room for `batch` sequences and nothing in it.
    pub fn new(num_layers: usize, batch: usize, max_seq_len: usize, num_kv_heads: usize, head_dim: usize) -> (r: KvCache)
        requires
            tensor::storable(seq![batch, num_kv_heads, max_seq_len, head_dim], DType::F32),
        ensures
            r.wf(num_kv_heads, max_seq_len, head_dim),
            r.batch == batch,
            r.k@.len() == num_layers,
            r.v@.len() == num_layers,
            forall|s: int| 0 <= s < batch ==> r.seq_lens@[s] == 0,
            r.zeroed(),
    {
        let dims: Vec<usize> = vec![batch, num_kv_heads, max_seq_len, head_dim];
        assert(dims@ =~= seq![batch, num_kv_heads, max_seq_len, head_dim]);
        let mut k: Vec<Tensor> = Vec::new();
        let mut v: Vec<Tensor> = Vec::new();
        let mut l: usize = 0;
        while l < num_layers
            invariant
                dims@ == seq![batch, num_kv_heads, max_seq_len, head_dim],
                tensor::storable(dims@, DType::F32),
                l <= num_layers,
                k@.len() == l,
                v@.len() == l,
                forall|j: int| 0 <= j < l ==> shaped((#[trigger] k@[j])@, batch, num_kv_heads, max_seq_len, head_dim),
                forall|j: int| 0 <= j < l ==> shaped((#[trigger] v@[j])@, batch, num_kv_heads, max_seq_len, head_dim),
                forall|j: int, i: int| 0 <= j < l && 0 <= i < k@[j]@.data.len() ==> #[trigger] k@[j]@.data[i] == 0,
                forall|j: int, i: int| 0 <= j < l && 0 <= i < v@[j]@.data.len() ==> #[trigger] v@[j]@.data[i] == 0,
            decreases num_layers - l,
        {
            k.push(Tensor::zeros(dims.as_slice(), DType::F32));
            v.push(Tensor::zeros(dims.as_slice(), DType::F32));
            l = l + 1;
        }
        KvCache { k, v, batch, seq_lens: vec![0usize; batch] }
    }

    /// Writes a block of rows, head by head and position by position, into a slot, from
    /// `position` on. All other rows stay.
    pub fn update(&mut self, layer_idx: usize, slot: usize, new_k: &Tensor, new_v: &Tensor, position: usize)
        requires
            layer_idx < old(self).k@.len(),
            new_k@.shape.len() == 3,
            new_v@.shape == new_k@.shape,
            new_k@.wf(),
            new_k@.dtype is F32,
            new_v@.wf(),
            new_v@.dtype is F32,
            old(self).k@[layer_idx as int]@.shape.len() == 4,
            ({
                let d = old(self).k@[layer_idx as int]@.shape;
                &&& old(self).wf(d[1], d[2], d[3])
                &&& slot < old(self).batch
                &&& new_k@.shape[0] <= d[1]
                &&& new_k@.shape[2] == d[3]
                &&& position + new_k@.shape[1] <= d[2]
            }),
        ensures
            block_written(*old(self), *final(self), layer_idx as int, slot as int, new_k@, new_v@, position as int),
    {
        let batch: usize = self.batch;
        let heads: usize = self.k[layer_idx].shape()[1];
        let max_len: usize = self.k[layer_idx].shape()[2];
        let width: usize = self.k[layer_idx].shape()[3];
        write_block(&mut self.k[layer_idx], new_k, slot, position, batch, heads, max_len, width);
        write_block(&mut self.v[layer_idx], new_v, slot, position, batch, heads, max_len, width);
    }

    /// Writes one row for each head and each of the first slots, at that slot's position. All
    /// other rows stay.
    pub fn update_batch(&mut self, layer_idx: usize, new_k: &Tensor, new_v: &Tensor, positions: &[usize])
        requires
            layer_idx < old(self).k@.len(),
            new_k@.shape.len() == 3,
            new_v@.shape == new_k@.shape,
            new_k@.wf(),
            new_k@.dtype is F32,
            new_v@.wf(),
            new_v@.dtype is F32,
            old(self).k@[layer_idx as int]@.shape.len() == 4,
            ({
                let d = old(self).k@[layer_idx as int]@.shape;
                &&& old(self).wf(d[1], d[2], d[3])
                &&& positions@.len() <= old(self).batch
                &&& positions@.len() <= new_k@.shape[1]
                &&& new_k@.shape[0] <= d[1]
                &&& new_k@.shape[2] == d[3]
                &&& forall|i: int| 0 <= i < positions@.len() ==> #[trigger] positions@[i] < d[2]
            }),
        ensures
            tokens_written(*old(self), *final(self), layer_idx as int, new_k@, new_v@, positions@),
    {
        let batch: usize = self.batch;
        let heads: usize = self.k[layer_idx].shape()[1];
        let max_len: usize = self.k[layer_idx].shape()[2];
        let width: usize = self.k[layer_idx].shape()[3];
        write_tokens(&mut self.k[layer_idx], new_k, positions, batch, heads, max_len, width);
        write_tokens(&mut self.v[layer_idx], new_v, positions, batch, heads, max_len, width);
    }

    /// The tensors of a layer.
    pub fn get_kv(&self, layer_idx: usize) -> (r: (&Tensor, &Tensor))
        requires
            layer_idx < self.k@.len(),
            layer_idx < self.v@.len(),
        ensures
            *r.0 == self.k@[layer_idx as int],
            *r.1 == self.v@[layer_idx as int],
    {
        (&self.k[layer_idx], &self.v[layer_idx])
    }

    /// The tensors of a layer, and how many positions of a slot are filled.
    pub fn get_kv_used(&self, layer_idx: usize, slot: usize) -> (r: (&Tensor, &Tensor, usize))
        requires
            layer_idx < self.k@.len(),
            layer_idx < self.v@.len(),
            slot < self.seq_lens@.len(),
        ensures
            *r.0 == self.k@[layer_idx as int],
            *r.1 == self.v@[layer_idx as int],
            r.2 == self.seq_lens@[slot as int],
    {
        (&self.k[layer_idx], &self.v[layer_idx], self.seq_lens[slot])
    }

    /// How many positions of each slot are filled.
    pub fn kv_lens(&self) -> (r: &[usize])
        ensures
            r@ == self.seq_lens@,
    {
        self.seq_lens.as_slice()
    }

    /// How many positions of a slot are filled.
    pub fn seq_len(&self, slot: usize) -> (r: usize)
        requires
            slot < self.seq_lens@.len(),
        ensures
            r == self.seq_lens@[slot as int],
    {
        self.seq_lens[slot]
    }

    /// Counts the positions of a slot as filled up to `position + len`.
    pub fn reserve(&mut self, slot: usize, position: usize, len: usize)
        requires
            slot < old(self).seq_lens@.len(),
            position + len <= usize::MAX,
        ensures
            final(self).seq_lens@ == old(self).seq_lens@.update(slot as int, (position + len) as usize),
            final(self).k == old(self).k,
            final(self).v == old(self).v,
            final(self).batch == old(self).batch,
    {
        self.seq_lens[slot] = position + len;
    }

    /// Counts no position of any slot as filled.
    pub fn clear(&mut self)
        ensures
            final(self).seq_lens@.len() == old(self).seq_lens@.len(),
            forall|s: int| 0 <= s < old(self).seq_lens@.len() ==> final(self).seq_lens@[s] == 0,
            final(self).k == old(self).k,
            final(self).v == old(self).v,
            final(self).batch == old(self).batch,
    {
        let n: usize = self.seq_lens.len();
        let mut s: usize = 0;
        while s < n
            invariant
                s <= n,
                n == old(self).seq_lens@.len(),
                self.seq_lens@.len() == n,
                forall|j: int| 0 <= j < s ==> self.seq_lens@[j] == 0,
                self.k == old(self).k,
                self.v == old(self).v,
                self.batch == old(self).batch,
            decreases n - s,
        {
            self.seq_lens[s] = 0;
            s = s + 1;
        }
    }

    /// Counts no position of a slot as filled.
    pub fn clear_slot(&mut self, slot: usize)
        requires
            slot < old(self).seq_lens@.len(),
        ensures
            final(self).seq_lens@ == old(self).seq_lens@.update(slot as int, 0),
            final(self).k == old(self).k,
            final(self).v == old(self).v,
            final(self).batch == old(self).batch,
    {
        self.seq_lens[slot] = 0;
    }

    /// Counts no more than `len` positions of a slot as filled.
    pub fn truncate(&mut self, slot: usize, len: usize)
        requires
            slot < old(self).seq_lens@.len(),
        ensures
            final(self).seq_lens@ == old(self).seq_lens@.update(
                slot as int,
                if len < old(self).seq_lens@[slot as int] { len } else { old(self).seq_lens@[slot as int] },
            ),
            final(self).k == old(self).k,
            final(self).v == old(self).v,
            final(self).batch == old(self).batch,
    {
        if len < self.seq_lens[slot] {
            self.seq_lens[slot] = len;
        }
        assert(self.seq_lens@ =~= old(self).seq_lens@.update(
            slot as int,
            if len < old(self).seq_lens@[slot as int] { len } else { old(self).seq_lens@[slot as int] },
        ));
    }
}

/// Only the tensors of one layer changed, and they kept their dimensions.
pub open spec fn written(before: KvCache, after: KvCache, layer: int) -> bool {
    &&& after.batch == before.batch
    &&& after.seq_lens == before.seq_lens
    &&& after.k@.len() == before.k@.len()
    &&& after.v@.len() == before.v@.len()
    &&& forall|l: int| 0 <= l < before.k@.len() && l != layer ==> #[trigger] after.k@[l] == before.k@[l]
    &&& forall|l: int| 0 <= l < before.v@.len() && l != layer ==> #[trigger] after.v@[l] == before.v@[l]
    &&& after.k@[layer]@.wf()
    &&& after.k@[layer]@.shape == before.k@[layer]@.shape
    &&& after.k@[layer]@.dtype == before.k@[layer]@.dtype
    &&& after.v@[layer]@.wf()
    &&& after.v@[layer]@.shape == before.v@[layer]@.shape
    &&& after.v@[layer]@.dtype == before.v@[layer]@.dtype
}

/// The rows of a block were written into a slot of a layer, from `position` on, and no others.
pub open spec fn block_written(
    before: KvCache,
    after: KvCache,
    layer: int,
    slot: int,
    new_k: TensorModel,
    new_v: TensorModel,
    position: int,
) -> bool {
    let d = before.k@[layer]@.shape;
    let n = new_k.shape[1] as int;
    &&& written(before, after, layer)
    &&& forall|b: int, g: int, p: int|
        0 <= b < before.batch && 0 <= g < d[1] && 0 <= p < d[2] ==> #[trigger] after.rows(layer, b, g, p) == (if b == slot && g < new_k.shape[0] && position <= p < position + n {
            (new_k.chunk(grid::cell(g, p - position, n), d[3] as int), new_v.chunk(grid::cell(g, p - position, n), d[3] as int))
        } else {
            before.rows(layer, b, g, p)
        })
}

/// One row was written into each of the first slots of a layer, at the slot's position, and no
/// others.
pub open spec fn tokens_written(
    before: KvCache,
    after: KvCache,
    layer: int,
    new_k: TensorModel,
    new_v: TensorModel,
    positions: Seq<usize>,
) -> bool {
    let d = before.k@[layer]@.shape;
    let n = new_k.shape[1] as int;
    &&& written(before, after, layer)
    &&& forall|b: int, g: int, p: int|
        0 <= b < before.batch && 0 <= g < d[1] && 0 <= p < d[2] ==> #[trigger] after.rows(layer, b, g, p) == (if b < positions.len() && g < new_k.shape[0] && p == positions[b] {
            (new_k.chunk(grid::cell(g, b, n), d[3] as int), new_v.chunk(grid::cell(g, b, n), d[3] as int))
        } else {
            before.rows(layer, b, g, p)
        })
}

/// A block of one position with the rows of a slot.
pub open spec fn column_of(one: TensorModel, t: TensorModel, b: int) -> bool {
    &&& one.shape == seq![t.shape[0], 1usize, t.shape[2]]
    &&& forall|g: int| 0 <= g < t.shape[0] ==> #[trigger] one.chunk(grid::cell(g, 0, 1), t.shape[2] as int) == t.chunk(
        grid::cell(g, b, t.shape[1] as int),
        t.shape[2] as int,
    )
}

/// One step of writing slot by slot.
pub open spec fn slot_step(
    steps: Seq<KvCache>,
    layer: int,
    ks: Seq<TensorModel>,
    vs: Seq<TensorModel>,
    positions: Seq<usize>,
    b: int,
) -> bool {
    block_written(steps[b], steps[b + 1], layer, b, ks[b], vs[b], positions[b] as int)
}

/// Two caches hold the same: the same rows of a layer, and all else alike.
pub open spec fn same_cache(a: KvCache, b: KvCache, layer: int, heads: usize, max_len: usize) -> bool {
    &&& a.batch == b.batch
    &&& a.seq_lens == b.seq_lens
    &&& a.k@.len() == b.k@.len()
    &&& a.v@.len() == b.v@.len()
    &&& forall|l: int| 0 <= l < a.k@.len() && l != layer ==> #[trigger] a.k@[l] == b.k@[l]
    &&& forall|l: int| 0 <= l < a.v@.len() && l != layer ==> #[trigger] a.v@[l] == b.v@[l]
    &&& a.k@[layer]@.shape == b.k@[layer]@.shape
    &&& a.v@[layer]@.shape == b.v@[layer]@.shape
    &&& forall|c: int, g: int, p: int|
        0 <= c < a.batch && 0 <= g < heads && 0 <= p < max_len ==> #[trigger] a.rows(layer, c, g, p) == b.rows(layer, c, g, p)
}

/// Writing a row into each of the first slots at once is the same as writing each slot's row by
/// itself, one slot after the other.
pub proof fn batch_is_slot_by_slot(
    steps: Seq<KvCache>,
    after: KvCache,
    layer: int,
    new_k: TensorModel,
    new_v: TensorModel,
    ks: Seq<TensorModel>,
    vs: Seq<TensorModel>,
    positions: Seq<usize>,
)
    requires
        steps.len() == positions.len() + 1,
        ({
            let before = steps[0];
            let d = before.k@[layer]@.shape;
            &&& 0 <= layer < before.k@.len()
            &&& d.len() == 4
            &&& before.wf(d[1], d[2], d[3])
            &&& positions.len() <= before.batch
            &&& new_k.shape.len() == 3
            &&& new_v.shape == new_k.shape
            &&& new_k.shape[0] <= d[1]
            &&& new_k.shape[2] == d[3]
            &&& tokens_written(before, after, layer, new_k, new_v, positions)
        }),
        ks.len() == positions.len(),
        vs.len() == positions.len(),
        forall|b: int| 0 <= b < positions.len() ==> column_of(#[trigger] ks[b], new_k, b),
        forall|b: int| 0 <= b < positions.len() ==> column_of(#[trigger] vs[b], new_v, b),
        forall|b: int| 0 <= b < positions.len() ==> #[trigger] slot_step(steps, layer, ks, vs, positions, b),
    ensures
        same_cache(steps.last(), after, layer, steps[0].k@[layer]@.shape[1], steps[0].k@[layer]@.shape[2]),
{
    let n = positions.len() as int;
    slots_so_far(steps, layer, new_k, new_v, ks, vs, positions, n);
    let d = steps[0].k@[layer]@.shape;
    assert forall|c: int, g: int, p: int| 0 <= c < after.batch && 0 <= g < d[1] && 0 <= p < d[2] implies #[trigger] steps.last().rows(
        layer,
        c,
        g,
        p,
    ) == after.rows(layer, c, g, p) by {
        assert(steps[n].rows(layer, c, g, p) == (if c < n && g < new_k.shape[0] && p == positions[c] {
            (new_k.chunk(grid::cell(g, c, new_k.shape[1] as int), d[3] as int), new_v.chunk(grid::cell(g, c, new_k.shape[1] as int), d[3] as int))
        } else {
            steps[0].rows(layer, c, g, p)
        }));
    }
}

/// After the first `m` slots their rows are written, and no others.
proof fn slots_so_far(
    steps: Seq<KvCache>,
    layer: int,
    new_k: TensorModel,
    new_v: TensorModel,
    ks: Seq<TensorModel>,
    vs: Seq<TensorModel>,
    positions: Seq<usize>,
    m: int,
)
    requires
        steps.len() == positions.len() + 1,
        0 <= m <= positions.len(),
        ({
            let d = steps[0].k@[layer]@.shape;
            &&& 0 <= layer < steps[0].k@.len()
            &&& d.len() == 4
            &&& steps[0].wf(d[1], d[2], d[3])
            &&& new_k.shape.len() == 3
            &&& new_v.shape == new_k.shape
            &&& new_k.shape[2] == d[3]
        }),
        ks.len() == positions.len(),
        vs.len() == positions.len(),
        forall|b: int| 0 <= b < positions.len() ==> column_of(#[trigger] ks[b], new_k, b),
        forall|b: int| 0 <= b < positions.len() ==> column_of(#[trigger] vs[b], new_v, b),
        forall|b: int| 0 <= b < positions.len() ==> #[trigger] slot_step(steps, layer, ks, vs, positions, b),
    ensures
        tokens_written(steps[0], steps[m], layer, new_k, new_v, positions.take(m)),
    decreases m,
{
    let first = steps[0];
    let d = first.k@[layer]@.shape;
    let n = new_k.shape[1] as int;
    if m > 0 {
        slots_so_far(steps, layer, new_k, new_v, ks, vs, positions, m - 1);
        let b = m - 1;
        assert(slot_step(steps, layer, ks, vs, positions, b));
        assert(column_of(ks[b], new_k, b) && column_of(vs[b], new_v, b));
        let mid = steps[b];
        let last = steps[m];
        assert forall|l: int| 0 <= l < first.k@.len() && l != layer implies #[trigger] last.k@[l] == first.k@[l] by {
            assert(last.k@[l] == mid.k@[l]);
        }
        assert forall|l: int| 0 <= l < first.v@.len() && l != layer implies #[trigger] last.v@[l] == first.v@[l] by {
            assert(last.v@[l] == mid.v@[l]);
        }
        assert forall|c: int, g: int, p: int| 0 <= c < first.batch && 0 <= g < d[1] && 0 <= p < d[2] implies #[trigger] last.rows(
            layer,
            c,
            g,
            p,
        ) == (if c < positions.take(m).len() && g < new_k.shape[0] && p == positions.take(m)[c] {
            (new_k.chunk(grid::cell(g, c, n), d[3] as int), new_v.chunk(grid::cell(g, c, n), d[3] as int))
        } else {
            first.rows(layer, c, g, p)
        }) by {
            assert(last.rows(layer, c, g, p) == (if c == b && g < ks[b].shape[0] && positions[b] <= p < positions[b] + 1 {
                (ks[b].chunk(grid::cell(g, p - positions[b], 1), d[3] as int), vs[b].chunk(grid::cell(g, p - positions[b], 1), d[3] as int))
            } else {
                mid.rows(layer, c, g, p)
            }));
            assert(mid.rows(layer, c, g, p) == (if c < b && g < new_k.shape[0] && p == positions.take(b)[c] {
                (new_k.chunk(grid::cell(g, c, n), d[3] as int), new_v.chunk(grid::cell(g, c, n), d[3] as int))
            } else {
                first.rows(layer, c, g, p)
            }));
            if c == b && g < new_k.shape[0] && p == positions[b] {
                assert(ks[b].chunk(grid::cell(g, 0, 1), d[3] as int) == new_k.chunk(grid::cell(g, b, n), d[3] as int));
                assert(vs[b].chunk(grid::cell(g, 0, 1), d[3] as int) == new_v.chunk(grid::cell(g, b, n), d[3] as int));
            }
        }
    }
}

/// Writes the rows of a block into a slot.
fn write_block(
    t: &mut Tensor,
    block: &Tensor,
    slot: usize,
    position: usize,
    batch: usize,
    heads: usize,
    max_len: usize,
    width: usize,
)
    requires
        shaped(old(t)@, batch, heads, max_len, width),
        block@.wf(),
        block@.shape.len() == 3,
        block@.shape[0] <= heads,
        block@.shape[2] == width,
        slot < batch,
        position + block@.shape[1] <= max_len,
    ensures
        shaped(final(t)@, batch, heads, max_len, width),
        forall|b: int, g: int, p: int| 0 <= b < batch && 0 <= g < heads && 0 <= p < max_len ==> #[trigger] final(t)@.chunk(
            row_number(b, g, p, heads as int, max_len as int),
            width as int,
        ) == (if b == slot && g < block@.shape[0] && position <= p < position + block@.shape[1] {
            block@.chunk(grid::cell(g, p - position, block@.shape[1] as int), width as int)
        } else {
            old(t)@.chunk(row_number(b, g, p, heads as int, max_len as int), width as int)
        }),
{
    let used: usize = block.shape()[0];
    let count: usize = block.shape()[1];
    proof {
        assert(block@.shape =~= seq![used, count, width]);
        shape::product_three(used, count, width);
        block@.sizes();
    }
    let mut h: usize = 0;
    while h < used
        invariant
            shaped(old(t)@, batch, heads, max_len, width),
            shaped(t@, batch, heads, max_len, width),
            block@.wf(),
            block@.shape == seq![used, count, width],
            block@.count() == used * count * width,
            block@.count() <= usize::MAX,
            used <= heads,
            slot < batch,
            position + count <= max_len,
            h <= used,
            forall|b: int, g: int, p: int| 0 <= b < batch && 0 <= g < heads && 0 <= p < max_len ==> #[trigger] t@.chunk(
                row_number(b, g, p, heads as int, max_len as int),
                width as int,
            ) == (if b == slot && g < h && position <= p < position + count {
                block@.chunk(grid::cell(g, p - position, count as int), width as int)
            } else {
                old(t)@.chunk(row_number(b, g, p, heads as int, max_len as int), width as int)
            }),
        decreases used - h,
    {
        let mut i: usize = 0;
        while i < count
            invariant
                shaped(old(t)@, batch, heads, max_len, width),
                shaped(t@, batch, heads, max_len, width),
                block@.wf(),
                block@.shape == seq![used, count, width],
                block@.count() == used * count * width,
                block@.count() <= usize::MAX,
                used <= heads,
                slot < batch,
                position + count <= max_len,
                h < used,
                i <= count,
                forall|b: int, g: int, p: int| 0 <= b < batch && 0 <= g < heads && 0 <= p < max_len ==> #[trigger] t@.chunk(
                    row_number(b, g, p, heads as int, max_len as int),
                    width as int,
                ) == (if b == slot && (g < h && position <= p < position + count || g == h && position <= p < position + i) {
                    block@.chunk(grid::cell(g, p - position, count as int), width as int)
                } else {
                    old(t)@.chunk(row_number(b, g, p, heads as int, max_len as int), width as int)
                }),
            decreases count - i,
        {
            proof {
                grid::cell_inside(h as int, i as int, used as int, count as int);
                let r = grid::cell(h as int, i as int, count as int);
                assert((r + 1) * width <= used * count * width && r <= r * width + r && 0 <= r) by (nonlinear_arith)
                    requires
                        0 <= r < used * count,
                ;
                row_inside(t@, slot as int, h as int, position + i, batch, heads, max_len, width);
            }
            copy_row(t, block, slot, h, position + i, h, i, used, count, batch, heads, max_len, width);
            i = i + 1;
        }
        h = h + 1;
    }
}

/// Copies row `(g, i)` of a block to the row of a slot, a head and a position.
fn copy_row(
    t: &mut Tensor,
    block: &Tensor,
    slot: usize,
    head: usize,
    position: usize,
    g: usize,
    i: usize,
    used: usize,
    count: usize,
    batch: usize,
    heads: usize,
    max_len: usize,
    width: usize,
)
    requires
        shaped(old(t)@, batch, heads, max_len, width),
        block@.wf(),
        block@.count() == used * count * width,
        g < used,
        i < count,
        slot < batch,
        head < heads,
        position < max_len,
    ensures
        shaped(final(t)@, batch, heads, max_len, width),
        forall|b: int, h: int, p: int| 0 <= b < batch && 0 <= h < heads && 0 <= p < max_len ==> #[trigger] final(t)@.chunk(
            row_number(b, h, p, heads as int, max_len as int),
            width as int,
        ) == (if b == slot && h == head && p == position {
            block@.chunk(grid::cell(g as int, i as int, count as int), width as int)
        } else {
            old(t)@.chunk(row_number(b, h, p, heads as int, max_len as int), width as int)
        }),
{
    if width == 0 {
        assert forall|b: int, h: int, p: int| 0 <= b < batch && 0 <= h < heads && 0 <= p < max_len implies #[trigger] t@.chunk(
            row_number(b, h, p, heads as int, max_len as int),
            width as int,
        ) == (if b == slot && h == head && p == position {
            block@.chunk(grid::cell(g as int, i as int, count as int), width as int)
        } else {
            old(t)@.chunk(row_number(b, h, p, heads as int, max_len as int), width as int)
        }) by {
            assert(t@.chunk(row_number(b, h, p, heads as int, max_len as int), width as int) =~= block@.chunk(
                grid::cell(g as int, i as int, count as int),
                width as int,
            ));
        }
        return;
    }
    proof {
        grid::cell_inside(g as int, i as int, used as int, count as int);
        let r = grid::cell(g as int, i as int, count as int);
        block@.sizes();
        assert((r + 1) * width <= used * count * width && r < (r + 1) * width && 0 <= r) by (nonlinear_arith)
            requires
                0 <= r < used * count,
                width > 0,
        ;
        row_inside(t@, slot as int, head as int, position as int, batch, heads, max_len, width);
        let n = row_number(slot as int, head as int, position as int, heads as int, max_len as int);
        let bg = grid::cell(slot as int, head as int, heads as int);
        assert(n < (n + 1) * width) by (nonlinear_arith)
            requires
                0 <= n,
                width > 0,
        ;
        assert(0 <= slot * heads && 0 <= bg * max_len) by (nonlinear_arith)
            requires
                0 <= bg,
        ;
        assert(bg <= bg * max_len) by (nonlinear_arith)
            requires
                0 <= bg,
                max_len > 0,
        ;
        assert(0 <= g * count) by (nonlinear_arith);
    }
    let row: Vec<u32> = block.chunk_lanes(g * count + i, width);
    let at: usize = (slot * heads + head) * max_len + position;
    t.set_chunk(at, width, row.as_slice());
    proof {
        assert forall|b: int, h: int, p: int| 0 <= b < batch && 0 <= h < heads && 0 <= p < max_len implies #[trigger] t@.chunk(
            row_number(b, h, p, heads as int, max_len as int),
            width as int,
        ) == (if b == slot && h == head && p == position {
            block@.chunk(grid::cell(g as int, i as int, count as int), width as int)
        } else {
            old(t)@.chunk(row_number(b, h, p, heads as int, max_len as int), width as int)
        }) by {
            row_inside(old(t)@, b, h, p, batch, heads, max_len, width);
            if row_number(b, h, p, heads as int, max_len as int) == at {
                row_unique(b, h, p, slot as int, head as int, position as int, heads as int, max_len as int);
            }
        }
    }
}

/// Writes one row for each head and slot.
fn write_tokens(t: &mut Tensor, block: &Tensor, positions: &[usize], batch: usize, heads: usize, max_len: usize, width: usize)
    requires
        shaped(old(t)@, batch, heads, max_len, width),
        block@.wf(),
        block@.shape.len() == 3,
        block@.shape[0] <= heads,
        block@.shape[2] == width,
        positions@.len() <= batch,
        positions@.len() <= block@.shape[1],
        forall|i: int| 0 <= i < positions@.len() ==> #[trigger] positions@[i] < max_len,
    ensures
        shaped(final(t)@, batch, heads, max_len, width),
        forall|b: int, g: int, p: int| 0 <= b < batch && 0 <= g < heads && 0 <= p < max_len ==> #[trigger] final(t)@.chunk(
            row_number(b, g, p, heads as int, max_len as int),
            width as int,
        ) == (if b < positions@.len() && g < block@.shape[0] && p == positions@[b] {
            block@.chunk(grid::cell(g, b, block@.shape[1] as int), width as int)
        } else {
            old(t)@.chunk(row_number(b, g, p, heads as int, max_len as int), width as int)
        }),
{
    let used: usize = block.shape()[0];
    let count: usize = block.shape()[1];
    proof {
        assert(block@.shape =~= seq![used, count, width]);
        shape::product_three(used, count, width);
    }
    let mut s: usize = 0;
    while s < positions.len()
        invariant
            shaped(old(t)@, batch, heads, max_len, width),
            shaped(t@, batch, heads, max_len, width),
            block@.wf(),
            block@.shape == seq![used, count, width],
            block@.count() == used * count * width,
            used <= heads,
            positions@.len() <= batch,
            positions@.len() <= count,
            forall|i: int| 0 <= i < positions@.len() ==> #[trigger] positions@[i] < max_len,
            s <= positions@.len(),
            forall|b: int, g: int, p: int| 0 <= b < batch && 0 <= g < heads && 0 <= p < max_len ==> #[trigger] t@.chunk(
                row_number(b, g, p, heads as int, max_len as int),
                width as int,
            ) == (if b < s && g < used && p == positions@[b] {
                block@.chunk(grid::cell(g, b, count as int), width as int)
            } else {
                old(t)@.chunk(row_number(b, g, p, heads as int, max_len as int), width as int)
            }),
        decreases positions.len() - s,
    {
        let mut h: usize = 0;
        while h < used
            invariant
                shaped(old(t)@, batch, heads, max_len, width),
                shaped(t@, batch, heads, max_len, width),
                block@.wf(),
                block@.shape == seq![used, count, width],
                block@.count() == used * count * width,
                used <= heads,
                positions@.len() <= batch,
                positions@.len() <= count,
                forall|i: int| 0 <= i < positions@.len() ==> #[trigger] positions@[i] < max_len,
                s < positions@.len(),
                h <= used,
                forall|b: int, g: int, p: int| 0 <= b < batch && 0 <= g < heads && 0 <= p < max_len ==> #[trigger] t@.chunk(
                    row_number(b, g, p, heads as int, max_len as int),
                    width as int,
                ) == (if (b < s && g < used || b == s && g < h) && p == positions@[b] {
                    block@.chunk(grid::cell(g, b, count as int), width as int)
                } else {
                    old(t)@.chunk(row_number(b, g, p, heads as int, max_len as int), width as int)
                }),
            decreases used - h,
        {
            let at: usize = positions[s];
            copy_row(t, block, s, h, at, h, s, used, count, batch, heads, max_len, width);
            h = h + 1;
        }
        s = s + 1;
    }
}

} // verus!
