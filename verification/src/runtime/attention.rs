//! Multi-head attention over a cache of keys and values.
use super::cache;
use super::cache::KvCache;
use super::config::{ModelConfig, Real};
use super::heads;
use super::layers::{Linear, RmsNorm};
use super::unit;
use super::unit::Op;
use crate::grid;
use crate::tensor::rows;
use crate::tensor::shape;
use crate::tensor::tensor;
use crate::tensor::tensor::{Tensor, TensorModel};
use crate::tensor::types::{DType, Device};
use vstd::prelude::*;

verus! {

/// The projections and norms of an attention block.
pub struct Attention {
    pub q_proj: Linear,
    pub k_proj: Linear,
    pub v_proj: Linear,
    pub o_proj: Linear,
    /// The norm of the heads of the queries, applied before rotation.
    pub q_norm: Option<RmsNorm>,
    /// The norm of the heads of the keys, applied before rotation.
    pub k_norm: Option<RmsNorm>,
    pub config: ModelConfig,
}

/// Rows of one width next to each other.
pub open spec fn side_by_side(list: Seq<Seq<u32>>, width: int) -> Seq<u32> {
    Seq::new((list.len() * width) as nat, |c: int| list[c / width][c % width])
}

/// The first position that counts when no more than a window of the filled positions does.
pub open spec fn window_start(window: Option<usize>, filled: int) -> int {
    match window {
        Some(w) => if filled > w {
            filled - w
        } else {
            0
        },
        None => 0,
    }
}

/// How many positions from `start` on a query sees: those that are filled and not after it.
pub open spec fn visible(filled: int, start: int, position: int) -> int {
    let end = if position + 1 < filled {
        position + 1
    } else {
        filled
    };
    if end > start {
        end - start
    } else {
        0
    }
}

/// At least one.
pub open spec fn at_least_one(n: int) -> int {
    if n > 1 {
        n
    } else {
        1
    }
}

/// How many positions of a slot count in a batched step: at least one, at most all there are.
pub open spec fn batch_filled(len: int, max_len: int) -> int {
    at_least_one(if len < max_len {
        len
    } else {
        max_len
    })
}

/// A span of rows is the rows next to each other.
pub proof fn span_is_rows(t: TensorModel, first: int, list: Seq<Seq<u32>>, width: int)
    requires
        0 <= first,
        0 <= width,
        (first + list.len()) * width <= t.count(),
        forall|i: int| 0 <= i < list.len() ==> #[trigger] t.chunk(first + i, width) == list[i],
    ensures
        heads::span(t, first, list.len() as int, width) == side_by_side(list, width),
{
    let n = list.len() as int;
    let s = heads::span(t, first, n, width);
    assert((first + n) * width == first * width + n * width && 0 <= first * width && 0 <= n * width) by (nonlinear_arith)
        requires
            0 <= first,
            0 <= width,
            0 <= n,
    ;
    assert forall|c: int| 0 <= c < n * width implies s[c] == side_by_side(list, width)[c] by {
        grid::cell_onto(c, n, width);
        let i = c / width;
        assert(t.chunk(first + i, width) == list[i]);
        assert((first + i) * width + c % width == first * width + c) by (nonlinear_arith)
            requires
                c == i * width + c % width,
        ;
        assert(t.chunk(first + i, width)[c % width] == t.lane(first * width + c));
    }
    assert(s =~= side_by_side(list, width));
}

/// A span inside a slot lies inside the tensor.
proof fn slot_span_inside(
    t: TensorModel,
    slot: int,
    g: int,
    start: int,
    len: int,
    batch: usize,
    g_count: usize,
    max_len: usize,
    width: usize,
)
    requires
        cache::shaped(t, batch, g_count, max_len, width),
        0 <= slot < batch,
        0 <= g < g_count,
        0 <= start,
        0 <= len,
        start + len <= max_len,
    ensures
        (cache::row_number(slot, g, start, g_count as int, max_len as int) + len) * width <= t.count(),
{
    grid::cell_inside(slot, g, batch as int, g_count as int);
    let bg = grid::cell(slot, g, g_count as int);
    shape::product_four(batch, g_count, max_len, width);
    let last = bg * max_len + start + len;
    assert(last <= batch * g_count * max_len) by (nonlinear_arith)
        requires
            0 <= bg < batch * g_count,
            last == bg * max_len + start + len,
            start + len <= max_len,
    ;
    assert(last * width <= batch * g_count * max_len * width) by (nonlinear_arith)
        requires
            last <= batch * g_count * max_len,
    ;
}

/// A span of rows of a slot and a head is those rows next to each other.
pub proof fn slot_span_is_rows(
    t: TensorModel,
    slot: int,
    g: int,
    start: int,
    list: Seq<Seq<u32>>,
    batch: usize,
    g_count: usize,
    max_len: usize,
    width: usize,
)
    requires
        cache::shaped(t, batch, g_count, max_len, width),
        0 <= slot < batch,
        0 <= g < g_count,
        0 <= start,
        start + list.len() <= max_len,
        forall|i: int| 0 <= i < list.len() ==> t.chunk(
            #[trigger] cache::row_number(slot, g, start + i, g_count as int, max_len as int),
            width as int,
        ) == list[i],
    ensures
        heads::span(t, cache::row_number(slot, g, start, g_count as int, max_len as int), list.len() as int, width as int) == side_by_side(
            list,
            width as int,
        ),
{
    let first = cache::row_number(slot, g, start, g_count as int, max_len as int);
    grid::cell_inside(slot, g, batch as int, g_count as int);
    assert(0 <= first) by (nonlinear_arith)
        requires
            0 <= grid::cell(slot, g, g_count as int),
            0 <= start,
            0 <= max_len,
            first == grid::cell(slot, g, g_count as int) * max_len + start,
    ;
    assert forall|i: int| 0 <= i < list.len() implies #[trigger] t.chunk(first + i, width as int) == list[i] by {
        assert(first + i == cache::row_number(slot, g, start + i, g_count as int, max_len as int));
    }
    slot_span_inside(t, slot, g, start, list.len() as int, batch, g_count, max_len, width);
    span_is_rows(t, first, list, width as int);
}

impl Attention {
    /// The number of query heads.
    pub open spec fn heads(self) -> int {
        self.config.num_heads as int
    }

    /// The number of key and value heads.
    pub open spec fn kv(self) -> int {
        self.config.kv_heads() as int
    }

    /// The width of a head.
    pub open spec fn width(self) -> int {
        self.config.head_width() as int
    }

    /// How many query heads share a key and value head.
    pub open spec fn group(self) -> int {
        self.heads() / self.kv()
    }

    /// The rotation of positions, if there is one.
    pub open spec fn rope(self, factor: Real) -> Option<(Real, Real)> {
        if self.config.use_rope {
            Some((self.config.rope_theta, factor))
        } else {
            None
        }
    }

    /// The projections and norms fit rows of width `hidden`, and the heads can be shared out.
    pub open spec fn fits(self, hidden: int) -> bool {
        &&& self.heads() > 0
        &&& self.kv() > 0
        &&& self.heads() % self.kv() == 0
        &&& self.q_proj.maps(hidden, self.heads() * self.width())
        &&& self.k_proj.maps(hidden, self.kv() * self.width())
        &&& self.v_proj.maps(hidden, self.kv() * self.width())
        &&& self.o_proj.weight@.shape.len() >= 1
        &&& self.o_proj.maps(self.heads() * self.width(), self.o_proj.weight@.shape[0] as int)
        &&& heads::norm_covers(self.q_norm, self.heads(), self.width())
        &&& heads::norm_covers(self.k_norm, self.kv(), self.width())
    }

    /// The tensors for so many rows can be stored.
    pub open spec fn room(self, count: usize) -> bool {
        &&& self.heads() * self.width() <= usize::MAX
        &&& count * self.heads() <= usize::MAX
        &&& tensor::storable(seq![count, (self.heads() * self.width()) as usize], DType::F32)
        &&& tensor::storable(seq![count, (self.kv() * self.width()) as usize], DType::F32)
        &&& tensor::storable(seq![count, self.o_proj.weight@.shape[0]], DType::F32)
    }

    /// The query row of a head at a position.
    pub open spec fn query<F: Fn(Op, &[u32], &[u32], &[u32]) -> Vec<u32>>(self, unit: F, factor: Real, x: Seq<u32>, h: int, position: int) -> Seq<u32> {
        heads::prepared(unit, self.q_norm, self.rope(factor), rows::row_of(self.q_proj.sole_image(unit, x), h, self.width()), h, position)
    }

    /// The key row of a head at a position.
    pub open spec fn key<F: Fn(Op, &[u32], &[u32], &[u32]) -> Vec<u32>>(self, unit: F, factor: Real, x: Seq<u32>, g: int, position: int) -> Seq<u32> {
        heads::prepared(unit, self.k_norm, self.rope(factor), rows::row_of(self.k_proj.sole_image(unit, x), g, self.width()), g, position)
    }

    /// The value row of a head.
    pub open spec fn value<F: Fn(Op, &[u32], &[u32], &[u32]) -> Vec<u32>>(self, unit: F, x: Seq<u32>, g: int) -> Seq<u32> {
        rows::row_of(self.v_proj.sole_image(unit, x), g, self.width())
    }

    /// What the heads make of a row, side by side, given the keys and values that each sees.
    pub open spec fn mixed<F: Fn(Op, &[u32], &[u32], &[u32]) -> Vec<u32>>(
        self,
        unit: F,
        factor: Real,
        x: Seq<u32>,
        position: int,
        keys: Seq<Seq<u32>>,
        values: Seq<Seq<u32>>,
    ) -> Seq<u32> {
        side_by_side(
            Seq::new(
                self.heads() as nat,
                |h: int|
                    unit::value(
                        unit,
                        Op::Attend { softcap: self.config.attn_logit_softcap },
                        self.query(unit, factor, x, h, position),
                        keys[h / self.group()],
                        values[h / self.group()],
                    ),
            ),
            self.width(),
        )
    }

    /// What the block makes of a row, given the keys and values that each head sees.
    pub open spec fn result<F: Fn(Op, &[u32], &[u32], &[u32]) -> Vec<u32>>(
        self,
        unit: F,
        factor: Real,
        x: Seq<u32>,
        position: int,
        keys: Seq<Seq<u32>>,
        values: Seq<Seq<u32>>,
    ) -> Seq<u32> {
        self.o_proj.sole_image(unit, self.mixed(unit, factor, x, position, keys, values))
    }

    /// The rows of a slot from `start` on, head by head.
    pub open spec fn seen(self, t: TensorModel, slot: int, start: int, len: int, max_len: int) -> Seq<Seq<u32>> {
        Seq::new(
            self.kv() as nat,
            |g: int| heads::span(t, cache::row_number(slot, g, start, self.kv(), max_len), len, self.width()),
        )
    }

    /// The first position that the row at a position sees: its own and those before it count, as
    /// many as the window lets through.
    pub open spec fn first_seen(self, position: int) -> int {
        window_start(self.config.sliding_window, position + 1)
    }

    /// The rows of a slot that the row at a position sees, head by head.
    pub open spec fn seen_by(self, t: TensorModel, slot: int, filled: int, position: int, max_len: int) -> Seq<Seq<u32>> {
        let start = self.first_seen(position);
        self.seen(t, slot, start, visible(filled, start, position), max_len)
    }

    /// How many of one row a row sees: itself, unless the window lets nothing through.
    pub open spec fn lone_len(self) -> int {
        1 - window_start(self.config.sliding_window, 1)
    }

    /// What the block makes of a row that sees only itself.
    pub open spec fn lone_result<F: Fn(Op, &[u32], &[u32], &[u32]) -> Vec<u32>>(self, unit: F, factor: Real, x: Seq<u32>, position: int) -> Seq<u32> {
        let n = self.lone_len() as nat;
        self.result(
            unit,
            factor,
            x,
            position,
            Seq::new(self.kv() as nat, |g: int| side_by_side(Seq::new(n, |t: int| self.key(unit, factor, x, g, position)), self.width())),
            Seq::new(self.kv() as nat, |g: int| side_by_side(Seq::new(n, |t: int| self.value(unit, x, g)), self.width())),
        )
    }

    /// An attention block without norms of its heads.
    pub fn new(q_proj: Linear, k_proj: Linear, v_proj: Linear, o_proj: Linear, config: ModelConfig) -> (r: Attention)
        ensures
            r == (Attention { q_proj, k_proj, v_proj, o_proj, q_norm: None, k_norm: None, config }),
    {
        Attention::new_with_qk_norm(q_proj, k_proj, v_proj, o_proj, None, None, config)
    }

    /// An attention block.
    pub fn new_with_qk_norm(
        q_proj: Linear,
        k_proj: Linear,
        v_proj: Linear,
        o_proj: Linear,
        q_norm: Option<RmsNorm>,
        k_norm: Option<RmsNorm>,
        config: ModelConfig,
    ) -> (r: Attention)
        ensures
            r == (Attention { q_proj, k_proj, v_proj, o_proj, q_norm, k_norm, config }),
    {
        Attention { q_proj, k_proj, v_proj, o_proj, q_norm, k_norm, config }
    }

    /// The rotation of positions, if there is one.
    fn rotation(&self, factor: Real) -> (r: Option<(Real, Real)>)
        ensures
            r == self.rope(factor),
    {
        if self.config.use_rope {
            Some((self.config.rope_theta, factor))
        } else {
            None
        }
    }

    /// Projects rows and takes them apart into prepared heads.
    fn project<F: Fn(Op, &[u32], &[u32], &[u32]) -> Vec<u32>>(
        proj: &Linear,
        norm: &Option<RmsNorm>,
        rope: Option<(Real, Real)>,
        input: &Tensor,
        count: usize,
        width: usize,
        positions: &[usize],
        unit: &F,
    ) -> (r: Tensor)
        requires
            unit::lawful(*unit),
            input@.wf(),
            input@.dtype is F32,
            input@.shape.len() == 2,
            input@.shape[0] == positions@.len(),
            proj.maps(input@.shape[1] as int, count * width),
            heads::norm_covers(*norm, count as int, width as int),
            count * width <= usize::MAX,
            positions@.len() * count <= usize::MAX,
            tensor::storable(seq![input@.shape[0], (count * width) as usize], DType::F32),
        ensures
            r@.wf(),
            r@.dtype is F32,
            r@.shape == seq![count, positions@.len() as usize, width],
            forall|h: int, i: int| 0 <= h < count && 0 <= i < positions@.len() ==> #[trigger] r@.chunk(
                grid::cell(h, i, positions@.len() as int),
                width as int,
            ) == heads::prepared(
                *unit,
                *norm,
                rope,
                rows::row_of(proj.sole_image(*unit, input@.chunk(i, input@.shape[1] as int)), h, width as int),
                h,
                positions@[i] as int,
            ),
    {
        let n: usize = positions.len();
        let ghost k = input@.shape[1] as int;
        let t: Tensor = proj.forward(input, unit);
        let ghost whole = count * width;
        proof {
            shape::product_two(n, (count * width) as usize);
            shape::product_three(count, n, width);
            assert(n * (count * width) == n * count * width && count * n * width == n * count * width && count * n == n * count)
                by (nonlinear_arith);
        }
        let apart: Tensor = heads::reshape_for_attention(&t, count, width);
        let r: Tensor = heads::prepare_heads(&apart, count, width, norm, rope, positions, unit);
        proof {
            assert forall|h: int, i: int| 0 <= h < count && 0 <= i < n implies #[trigger] r@.chunk(grid::cell(h, i, n as int), width as int)
                == heads::prepared(
                *unit,
                *norm,
                rope,
                rows::row_of(proj.sole_image(*unit, input@.chunk(i, k)), h, width as int),
                h,
                positions@[i] as int,
            ) by {
                heads::head_of_row(t@, i, h, count as int, width as int);
                proj.image_is_sole(*unit, input@.chunk(i, k), i, k, whole);
                assert(t@.chunk(i, whole) == proj.image(*unit, input@.chunk(i, k), i));
                assert(apart@.chunk(grid::cell(h, i, n as int), width as int) == t@.chunk(grid::cell(i, h, count as int), width as int));
            }
        }
        r
    }

    /// Lets prepared queries attend and puts what comes out of the heads side by side. Key and
    /// value head `g` of row `i` sees `lens[i]` rows from row `firsts[g * count + i]` on.
    fn mix<F: Fn(Op, &[u32], &[u32], &[u32]) -> Vec<u32>>(
        &self,
        q: &Tensor,
        k: &Tensor,
        v: &Tensor,
        count: usize,
        firsts: &[usize],
        lens: &[usize],
        hidden: Ghost<int>,
        unit: &F,
    ) -> (r: Tensor)
        requires
            unit::lawful(*unit),
            self.fits(hidden@),
            self.room(count),
            q@.wf(),
            q@.dtype is F32,
            q@.shape == seq![self.config.num_heads, count, self.config.head_width()],
            k@.wf(),
            v@.wf(),
            firsts@.len() == self.kv() * count,
            lens@.len() == count,
            forall|g: int, i: int| 0 <= g < self.kv() && 0 <= i < count ==> (#[trigger] firsts@[grid::cell(g, i, count as int)] + lens@[i])
                * self.width() <= k@.count(),
            forall|g: int, i: int| 0 <= g < self.kv() && 0 <= i < count ==> (#[trigger] firsts@[grid::cell(g, i, count as int)] + lens@[i])
                * self.width() <= v@.count(),
        ensures
            r@.wf(),
            r@.dtype is F32,
            r@.device == Device::Cpu,
            r@.shape == seq![count, (self.heads() * self.width()) as usize],
            forall|i: int| 0 <= i < count ==> #[trigger] r@.chunk(i, self.heads() * self.width()) == side_by_side(
                Seq::new(
                    self.heads() as nat,
                    |h: int|
                        unit::value(
                            *unit,
                            Op::Attend { softcap: self.config.attn_logit_softcap },
                            q@.chunk(grid::cell(h, i, count as int), self.width()),
                            heads::span(k@, firsts@[grid::cell(h / self.group(), i, count as int)] as int, lens@[i] as int, self.width()),
                            heads::span(v@, firsts@[grid::cell(h / self.group(), i, count as int)] as int, lens@[i] as int, self.width()),
                        ),
                ),
                self.width(),
            ),
    {
        let h_count: usize = self.config.num_heads;
        let g_count: usize = self.config.num_kv_heads();
        let width: usize = self.config.head_dim();
        let group: usize = self.config.num_kv_groups();
        let total: usize = {
            proof {
                assert(h_count * count == count * h_count) by (nonlinear_arith);
            }
            h_count * count
        };
        let mut starts: Vec<usize> = Vec::new();
        let mut sizes: Vec<usize> = Vec::new();
        let mut n: usize = 0;
        while n < total
            invariant
                self.fits(hidden@),
                h_count == self.heads(),
                g_count == self.kv(),
                width == self.width(),
                group == self.group(),
                total == h_count * count,
                total <= usize::MAX,
                firsts@.len() == self.kv() * count,
                lens@.len() == count,
                n <= total,
                starts@.len() == n,
                sizes@.len() == n,
                forall|m: int| 0 <= m < n ==> #[trigger] starts@[m] == firsts@[grid::cell(
                    (m / (count as int)) / self.group(),
                    m % (count as int),
                    count as int,
                )],
                forall|m: int| 0 <= m < n ==> #[trigger] sizes@[m] == lens@[m % (count as int)],
            decreases total - n,
        {
            proof {
                grid::cell_onto(n as int, h_count as int, count as int);
                self.shared_head((n as int) / (count as int), hidden@);
                grid::cell_inside((n as int) / (count as int) / self.group(), (n as int) % (count as int), self.kv(), count as int);
                assert(firsts.len() == firsts@.len());
            }
            let h: usize = n / count;
            let i: usize = n % count;
            let g: usize = h / group;
            starts.push(firsts[g * count + i]);
            sizes.push(lens[i]);
            n = n + 1;
        }
        proof {
            assert forall|m: int| 0 <= m < h_count * count implies (#[trigger] starts@[m] + sizes@[m]) * width <= k@.count() && (starts@[m]
                + sizes@[m]) * width <= v@.count() by {
                grid::cell_onto(m, h_count as int, count as int);
                self.shared_head(m / (count as int), hidden@);
                let g = (m / (count as int)) / self.group();
                let i = m % (count as int);
                assert((firsts@[grid::cell(g, i, count as int)] + lens@[i]) * self.width() <= k@.count());
                assert((firsts@[grid::cell(g, i, count as int)] + lens@[i]) * self.width() <= v@.count());
            }
        }
        let out: Tensor = heads::attend(
            q,
            k,
            v,
            h_count,
            count,
            width,
            starts.as_slice(),
            sizes.as_slice(),
            self.config.attn_logit_softcap,
            unit,
        );
        proof {
            shape::product_three(h_count, count, width);
        }
        let hid: Tensor = heads::permute_outer_inner(&out, h_count, count, width);
        proof {
            let w = width as int;
            let c = count as int;
            assert forall|i: int| 0 <= i < count implies #[trigger] hid@.chunk(i, self.heads() * self.width()) == side_by_side(
                Seq::new(
                    self.heads() as nat,
                    |h: int|
                        unit::value(
                            *unit,
                            Op::Attend { softcap: self.config.attn_logit_softcap },
                            q@.chunk(grid::cell(h, i, count as int), self.width()),
                            heads::span(k@, firsts@[grid::cell(h / self.group(), i, count as int)] as int, lens@[i] as int, self.width()),
                            heads::span(v@, firsts@[grid::cell(h / self.group(), i, count as int)] as int, lens@[i] as int, self.width()),
                        ),
                ),
                self.width(),
            ) by {
                let parts = Seq::new(
                    self.heads() as nat,
                    |h: int|
                        unit::value(
                            *unit,
                            Op::Attend { softcap: self.config.attn_logit_softcap },
                            q@.chunk(grid::cell(h, i, count as int), self.width()),
                            heads::span(k@, firsts@[grid::cell(h / self.group(), i, count as int)] as int, lens@[i] as int, self.width()),
                            heads::span(v@, firsts@[grid::cell(h / self.group(), i, count as int)] as int, lens@[i] as int, self.width()),
                        ),
                );
                let row = hid@.chunk(i, h_count * w);
                assert forall|e: int| 0 <= e < h_count * w implies row[e] == side_by_side(parts, w)[e] by {
                    grid::cell_onto(e, h_count as int, w);
                    let h = e / w;
                    grid::cell_inside(h, i, h_count as int, c);
                    grid::cell_unique(h, i, c);
                    heads::head_of_row(hid@, i, h, h_count as int, w);
                    assert(out@.chunk(grid::cell(h, i, c), w) == hid@.chunk(grid::cell(i, h, h_count as int), w));
                    assert(out@.chunk(grid::cell(h, i, c), w) == parts[h]);
                    assert(0 <= h * w && h * w + w <= h_count * w) by (nonlinear_arith)
                        requires
                            0 <= h < h_count,
                            0 <= w,
                    ;
                    assert(rows::row_of(row, h, w)[e % w] == row[e]);
                }
                assert(row =~= side_by_side(parts, w));
            }
        }
        hid
    }

    /// Projects what came out of the heads.
    pub(crate) fn project_out<F: Fn(Op, &[u32], &[u32], &[u32]) -> Vec<u32>>(&self, mixed: &Tensor, hidden: Ghost<int>, unit: &F) -> (r: Tensor)
        requires
            unit::lawful(*unit),
            self.fits(hidden@),
            mixed@.wf(),
            mixed@.dtype is F32,
            mixed@.shape.len() == 2,
            mixed@.shape[1] == self.heads() * self.width(),
            self.room(mixed@.shape[0]),
        ensures
            r@.wf(),
            r@.dtype is F32,
            r@.device == Device::Cpu,
            r@.shape == seq![mixed@.shape[0], self.o_proj.weight@.shape[0]],
            forall|i: int| 0 <= i < mixed@.shape[0] ==> #[trigger] r@.chunk(i, self.o_proj.weight@.shape[0] as int) == self.o_proj.sole_image(
                *unit,
                mixed@.chunk(i, self.heads() * self.width()),
            ),
    {
        let r: Tensor = self.o_proj.forward(mixed, unit);
        proof {
            let w = self.heads() * self.width();
            let n = self.o_proj.weight@.shape[0] as int;
            assert forall|i: int| 0 <= i < mixed@.shape[0] implies #[trigger] r@.chunk(i, n) == self.o_proj.sole_image(*unit, mixed@.chunk(i, w)) by {
                self.o_proj.image_is_sole(*unit, mixed@.chunk(i, w), i, w, n);
            }
        }
        r
    }

    /// A query head's key and value head exists.
    proof fn shared_head(self, h: int, hidden: int)
        requires
            self.fits(hidden),
            0 <= h < self.heads(),
        ensures
            self.group() > 0,
            0 <= h / self.group() < self.kv(),
    {
        let n = self.heads();
        let k = self.kv();
        vstd::arithmetic::div_mod::lemma_fundamental_div_mod(n, k);
        assert(n == k * (n / k));
        assert(n / k > 0) by (nonlinear_arith)
            requires
                n == k * (n / k),
                n > 0,
                k > 0,
        ;
        let g = n / k;
        grid::cell_onto(h, k, g);
    }

    /// Attends within a slot of the cache, up to what comes out of the heads.
    pub(crate) fn attend_cached<F: Fn(Op, &[u32], &[u32], &[u32]) -> Vec<u32>>(
        &self,
        input: &Tensor,
        cache: &mut KvCache,
        layer_idx: usize,
        slot: usize,
        position: usize,
        factor: Real,
        unit: &F,
    ) -> (r: Tensor)
        requires
            unit::lawful(*unit),
            input@.wf(),
            input@.dtype is F32,
            input@.shape.len() == 2,
            self.fits(input@.shape[1] as int),
            self.room(input@.shape[0]),
            layer_idx < old(cache).k@.len(),
            old(cache).k@[layer_idx as int]@.shape.len() == 4,
            ({
                let d = old(cache).k@[layer_idx as int]@.shape;
                &&& old(cache).wf(d[1], d[2], d[3])
                &&& d[1] == self.kv()
                &&& d[3] == self.width()
                &&& slot < old(cache).batch
                &&& position + input@.shape[0] <= d[2]
                &&& old(cache).batch * d[1] * d[2] <= usize::MAX
                &&& at_least_one(old(cache).seq_lens@[slot as int] as int) <= d[2]
            }),
        ensures
            cache::written(*old(cache), *final(cache), layer_idx as int),
            ({
                let d = old(cache).k@[layer_idx as int]@.shape;
                let n = input@.shape[0];
                let k = input@.shape[1] as int;
                forall|b: int, g: int, p: int| 0 <= b < old(cache).batch && 0 <= g < d[1] && 0 <= p < d[2] ==> #[trigger] final(cache).rows(layer_idx as int, b, g, p) == (if b == slot && position <= p < position + n {
                    (self.key(*unit, factor, input@.chunk(p - position, k), g, p), self.value(*unit, input@.chunk(p - position, k), g))
                } else {
                    old(cache).rows(layer_idx as int, b, g, p)
                })
            }),
            r@.wf(),
            r@.dtype is F32,
            r@.device == Device::Cpu,
            r@.shape == seq![input@.shape[0], (self.heads() * self.width()) as usize],
            ({
                let d = old(cache).k@[layer_idx as int]@.shape;
                let filled = at_least_one(old(cache).seq_lens@[slot as int] as int);
                forall|i: int| 0 <= i < input@.shape[0] ==> #[trigger] r@.chunk(i, self.heads() * self.width()) == self.mixed(
                    *unit,
                    factor,
                    input@.chunk(i, input@.shape[1] as int),
                    position + i,
                    self.seen_by(final(cache).k@[layer_idx as int]@, slot as int, filled, position + i, d[2] as int),
                    self.seen_by(final(cache).v@[layer_idx as int]@, slot as int, filled, position + i, d[2] as int),
                )
            }),
    {
        let count: usize = input.shape()[0];
        let ghost k_in = input@.shape[1] as int;
        let h_count: usize = self.config.num_heads;
        let g_count: usize = self.config.num_kv_heads();
        let width: usize = self.config.head_dim();
        let max_len: usize = cache.k[layer_idx].shape()[2];
        let batch: usize = cache.batch;
        let rope: Option<(Real, Real)> = self.rotation(factor);
        let mut positions: Vec<usize> = Vec::new();
        let mut i: usize = 0;
        while i < count
            invariant
                i <= count,
                position + count <= max_len,
                positions@.len() == i,
                forall|j: int| 0 <= j < i ==> #[trigger] positions@[j] == position + j,
            decreases count - i,
        {
            positions.push(position + i);
            i = i + 1;
        }
        proof {
            self.sizes_fit(count, k_in);
        }
        let none: Option<RmsNorm> = None;
        let q: Tensor = Attention::project(&self.q_proj, &self.q_norm, rope, input, h_count, width, positions.as_slice(), unit);
        let k: Tensor = Attention::project(&self.k_proj, &self.k_norm, rope, input, g_count, width, positions.as_slice(), unit);
        let v: Tensor = Attention::project(&self.v_proj, &none, None, input, g_count, width, positions.as_slice(), unit);
        let ghost before = *cache;
        cache.update(layer_idx, slot, &k, &v, position);
        let filled: usize = {
            let n: usize = cache.seq_lens[slot];
            if n > 1 { n } else { 1 }
        };
        let mut slots: Vec<usize> = Vec::new();
        let mut starts: Vec<usize> = Vec::new();
        let mut lens: Vec<usize> = Vec::new();
        let mut i: usize = 0;
        while i < count
            invariant
                i <= count,
                position + count <= max_len,
                filled <= max_len,
                slots@.len() == i,
                starts@.len() == i,
                lens@.len() == i,
                forall|j: int| 0 <= j < i ==> #[trigger] slots@[j] == slot,
                forall|j: int| 0 <= j < i ==> #[trigger] starts@[j] == self.first_seen(position + j) && starts@[j] <= max_len,
                forall|j: int| 0 <= j < i ==> #[trigger] lens@[j] == visible(filled as int, starts@[j] as int, position + j),
                forall|j: int| 0 <= j < i ==> starts@[j] + #[trigger] lens@[j] <= max_len,
            decreases count - i,
        {
            let next: usize = position + i + 1;
            let start: usize = match self.config.sliding_window {
                Some(w) => if next > w { next - w } else { 0 },
                None => 0,
            };
            let end: usize = if next < filled { next } else { filled };
            slots.push(slot);
            starts.push(start);
            lens.push(if end > start { end - start } else { 0 });
            i = i + 1;
        }
        let firsts: Vec<usize> = slot_rows(slots.as_slice(), starts.as_slice(), batch, g_count, max_len);
        proof {
            assert forall|g: int, i: int| 0 <= g < self.kv() && 0 <= i < count implies (#[trigger] firsts@[grid::cell(g, i, count as int)] + lens@[i])
                * self.width() <= cache.k@[layer_idx as int]@.count() && (firsts@[grid::cell(g, i, count as int)] + lens@[i]) * self.width()
                <= cache.v@[layer_idx as int]@.count() by {
                assert(slots@[i] == slot);
                slot_span_inside(cache.k@[layer_idx as int]@, slot as int, g, starts@[i] as int, lens@[i] as int, batch, g_count, max_len, width);
                slot_span_inside(cache.v@[layer_idx as int]@, slot as int, g, starts@[i] as int, lens@[i] as int, batch, g_count, max_len, width);
            }
        }
        let r: Tensor = self.mix(
            &q,
            &cache.k[layer_idx],
            &cache.v[layer_idx],
            count,
            firsts.as_slice(),
            lens.as_slice(),
            Ghost(k_in),
            unit,
        );
        proof {
            let kt = cache.k@[layer_idx as int]@;
            let vt = cache.v@[layer_idx as int]@;
            assert forall|i: int| 0 <= i < count implies #[trigger] r@.chunk(i, self.heads() * self.width()) == self.mixed(
                *unit,
                factor,
                input@.chunk(i, k_in),
                position + i,
                self.seen_by(kt, slot as int, filled as int, position + i, max_len as int),
                self.seen_by(vt, slot as int, filled as int, position + i, max_len as int),
            ) by {
                let x = input@.chunk(i, k_in);
                let keys = self.seen_by(kt, slot as int, filled as int, position + i, max_len as int);
                let values = self.seen_by(vt, slot as int, filled as int, position + i, max_len as int);
                assert(slots@[i] == slot);
                assert(starts@[i] == self.first_seen(position + i));
                let parts = Seq::new(
                    self.heads() as nat,
                    |h: int|
                        unit::value(
                            *unit,
                            Op::Attend { softcap: self.config.attn_logit_softcap },
                            q@.chunk(grid::cell(h, i, count as int), self.width()),
                            heads::span(kt, firsts@[grid::cell(h / self.group(), i, count as int)] as int, lens@[i] as int, self.width()),
                            heads::span(vt, firsts@[grid::cell(h / self.group(), i, count as int)] as int, lens@[i] as int, self.width()),
                        ),
                );
                let wanted = Seq::new(
                    self.heads() as nat,
                    |h: int|
                        unit::value(
                            *unit,
                            Op::Attend { softcap: self.config.attn_logit_softcap },
                            self.query(*unit, factor, x, h, position + i),
                            keys[h / self.group()],
                            values[h / self.group()],
                        ),
                );
                assert forall|h: int| 0 <= h < self.heads() implies parts[h] == wanted[h] by {
                    self.shared_head(h, k_in);
                    let g = h / self.group();
                    grid::cell_inside(h, i, h_count as int, count as int);
                    assert(q@.chunk(grid::cell(h, i, count as int), width as int) == self.query(*unit, factor, x, h, position + i));
                    assert(firsts@[grid::cell(g, i, count as int)] == cache::row_number(slot as int, g, starts@[i] as int, self.kv(), max_len as int));
                }
                assert(parts =~= wanted);
            }
            assert forall|b: int, g: int, p: int| 0 <= b < old(cache).batch && 0 <= g < g_count && 0 <= p < max_len implies #[trigger] cache.rows(layer_idx as int, b, g, p) == (if b == slot && position <= p < position + count {
                    (self.key(*unit, factor, input@.chunk(p - position, k_in), g, p), self.value(*unit, input@.chunk(p - position, k_in), g))
                } else {
                    old(cache).rows(layer_idx as int, b, g, p)
                }) by {
                assert(cache.rows(layer_idx as int, b, g, p) == (if b == slot && position <= p < position + count {
                    (k@.chunk(grid::cell(g, p - position, count as int), width as int), v@.chunk(grid::cell(g, p - position, count as int), width as int))
                } else {
                    before.rows(layer_idx as int, b, g, p)
                }));
                if b == slot && position <= p < position + count {
                    let i = p - position;
                    assert(k@.chunk(grid::cell(g, i, count as int), width as int) == self.key(*unit, factor, input@.chunk(i, k_in), g, p));
                    assert(v@.chunk(grid::cell(g, i, count as int), width as int) == self.value(*unit, input@.chunk(i, k_in), g));
                }
            }
        }
        r
    }

    /// Attends within a slot of the cache. The rows stand at `position` and after it; their keys
    /// and values are written to the cache first. Each row sees the filled positions up to its
    /// own, the last of them where there is a window.
    pub fn forward_gpu_with_rope_cache<F: Fn(Op, &[u32], &[u32], &[u32]) -> Vec<u32>>(
        &self,
        input: &Tensor,
        cache: &mut KvCache,
        layer_idx: usize,
        slot: usize,
        position: usize,
        factor: Real,
        unit: &F,
    ) -> (r: Tensor)
        requires
            unit::lawful(*unit),
            input@.wf(),
            input@.dtype is F32,
            input@.shape.len() == 2,
            self.fits(input@.shape[1] as int),
            self.room(input@.shape[0]),
            layer_idx < old(cache).k@.len(),
            old(cache).k@[layer_idx as int]@.shape.len() == 4,
            ({
                let d = old(cache).k@[layer_idx as int]@.shape;
                &&& old(cache).wf(d[1], d[2], d[3])
                &&& d[1] == self.kv()
                &&& d[3] == self.width()
                &&& slot < old(cache).batch
                &&& position + input@.shape[0] <= d[2]
                &&& old(cache).batch * d[1] * d[2] <= usize::MAX
                &&& at_least_one(old(cache).seq_lens@[slot as int] as int) <= d[2]
            }),
        ensures
            cache::written(*old(cache), *final(cache), layer_idx as int),
            ({
                let d = old(cache).k@[layer_idx as int]@.shape;
                let n = input@.shape[0];
                let k = input@.shape[1] as int;
                forall|b: int, g: int, p: int| 0 <= b < old(cache).batch && 0 <= g < d[1] && 0 <= p < d[2] ==> #[trigger] final(cache).rows(layer_idx as int, b, g, p) == (if b == slot && position <= p < position + n {
                    (self.key(*unit, factor, input@.chunk(p - position, k), g, p), self.value(*unit, input@.chunk(p - position, k), g))
                } else {
                    old(cache).rows(layer_idx as int, b, g, p)
                })
            }),
            r@.wf(),
            r@.dtype is F32,
            r@.device == Device::Cpu,
            r@.shape == seq![input@.shape[0], self.o_proj.weight@.shape[0]],
            ({
                let d = old(cache).k@[layer_idx as int]@.shape;
                let filled = at_least_one(old(cache).seq_lens@[slot as int] as int);
                forall|i: int| 0 <= i < input@.shape[0] ==> #[trigger] r@.chunk(i, self.o_proj.weight@.shape[0] as int) == self.result(
                    *unit,
                    factor,
                    input@.chunk(i, input@.shape[1] as int),
                    position + i,
                    self.seen_by(final(cache).k@[layer_idx as int]@, slot as int, filled, position + i, d[2] as int),
                    self.seen_by(final(cache).v@[layer_idx as int]@, slot as int, filled, position + i, d[2] as int),
                )
            }),
    {
        let mixed: Tensor = self.attend_cached(input, cache, layer_idx, slot, position, factor, unit);
        let r: Tensor = self.project_out(&mixed, Ghost(input@.shape[1] as int), unit);
        proof {
            let d = old(cache).k@[layer_idx as int]@.shape;
            let filled = at_least_one(old(cache).seq_lens@[slot as int] as int);
            assert forall|i: int| 0 <= i < input@.shape[0] implies #[trigger] r@.chunk(i, self.o_proj.weight@.shape[0] as int) == self.result(
                *unit,
                factor,
                input@.chunk(i, input@.shape[1] as int),
                position + i,
                self.seen_by(cache.k@[layer_idx as int]@, slot as int, filled, position + i, d[2] as int),
                self.seen_by(cache.v@[layer_idx as int]@, slot as int, filled, position + i, d[2] as int),
            ) by {
                assert(r@.chunk(i, self.o_proj.weight@.shape[0] as int) == self.o_proj.sole_image(
                    *unit,
                    mixed@.chunk(i, self.heads() * self.width()),
                ));
            }
        }
        r
    }

    /// Attends for one row in each of the first slots of the cache, each at its own position.
    /// The keys and values of the rows are written to the cache first; a row sees all filled
    /// positions of its slot.
    pub fn forward_batch_gpu<F: Fn(Op, &[u32], &[u32], &[u32]) -> Vec<u32>>(
        &self,
        input: &Tensor,
        cache: &mut KvCache,
        layer_idx: usize,
        positions: &[usize],
        factor: Real,
        unit: &F,
    ) -> (r: Tensor)
        requires
            unit::lawful(*unit),
            input@.wf(),
            input@.dtype is F32,
            input@.shape.len() == 2,
            input@.shape[0] == positions@.len(),
            self.fits(input@.shape[1] as int),
            self.room(input@.shape[0]),
            layer_idx < old(cache).k@.len(),
            old(cache).k@[layer_idx as int]@.shape.len() == 4,
            ({
                let d = old(cache).k@[layer_idx as int]@.shape;
                &&& old(cache).wf(d[1], d[2], d[3])
                &&& d[1] == self.kv()
                &&& d[2] > 0
                &&& d[3] == self.width()
                &&& positions@.len() <= old(cache).batch
                &&& old(cache).batch * d[1] * d[2] <= usize::MAX
                &&& forall|i: int| 0 <= i < positions@.len() ==> #[trigger] positions@[i] < d[2]
            }),
        ensures
            cache::written(*old(cache), *final(cache), layer_idx as int),
            ({
                let d = old(cache).k@[layer_idx as int]@.shape;
                let k = input@.shape[1] as int;
                forall|b: int, g: int, p: int| 0 <= b < old(cache).batch && 0 <= g < d[1] && 0 <= p < d[2] ==> #[trigger] final(cache).rows(layer_idx as int, b, g, p) == (if b < positions@.len() && p == positions@[b] {
                    (self.key(*unit, factor, input@.chunk(b, k), g, p), self.value(*unit, input@.chunk(b, k), g))
                } else {
                    old(cache).rows(layer_idx as int, b, g, p)
                })
            }),
            r@.wf(),
            r@.dtype is F32,
            r@.device == Device::Cpu,
            r@.shape == seq![input@.shape[0], self.o_proj.weight@.shape[0]],
            ({
                let d = old(cache).k@[layer_idx as int]@.shape;
                forall|b: int| 0 <= b < input@.shape[0] ==> #[trigger] r@.chunk(b, self.o_proj.weight@.shape[0] as int) == {
                    let filled = batch_filled(old(cache).seq_lens@[b] as int, d[2] as int);
                    let start = window_start(self.config.sliding_window, filled);
                    self.result(
                        *unit,
                        factor,
                        input@.chunk(b, input@.shape[1] as int),
                        positions@[b] as int,
                        self.seen(final(cache).k@[layer_idx as int]@, b, start, filled - start, d[2] as int),
                        self.seen(final(cache).v@[layer_idx as int]@, b, start, filled - start, d[2] as int),
                    )
                }
            }),
    {
        let count: usize = input.shape()[0];
        let ghost k_in = input@.shape[1] as int;
        let h_count: usize = self.config.num_heads;
        let g_count: usize = self.config.num_kv_heads();
        let width: usize = self.config.head_dim();
        let max_len: usize = cache.k[layer_idx].shape()[2];
        let batch: usize = cache.batch;
        let rope: Option<(Real, Real)> = self.rotation(factor);
        proof {
            self.sizes_fit(count, k_in);
        }
        let none: Option<RmsNorm> = None;
        let q: Tensor = Attention::project(&self.q_proj, &self.q_norm, rope, input, h_count, width, positions, unit);
        let k: Tensor = Attention::project(&self.k_proj, &self.k_norm, rope, input, g_count, width, positions, unit);
        let v: Tensor = Attention::project(&self.v_proj, &none, None, input, g_count, width, positions, unit);
        let ghost before = *cache;
        cache.update_batch(layer_idx, &k, &v, positions);
        let mut slots: Vec<usize> = Vec::new();
        let mut starts: Vec<usize> = Vec::new();
        let mut lens: Vec<usize> = Vec::new();
        let mut b: usize = 0;
        while b < count
            invariant
                b <= count,
                count <= cache.seq_lens@.len(),
                0 < max_len,
                slots@.len() == b,
                forall|j: int| 0 <= j < b ==> #[trigger] slots@[j] == j,
                starts@.len() == b,
                lens@.len() == b,
                forall|j: int| 0 <= j < b ==> #[trigger] starts@[j] == window_start(
                    self.config.sliding_window,
                    batch_filled(cache.seq_lens@[j] as int, max_len as int),
                ),
                forall|j: int| 0 <= j < b ==> starts@[j] + #[trigger] lens@[j] == batch_filled(cache.seq_lens@[j] as int, max_len as int),
            decreases count - b,
        {
            let n: usize = cache.seq_lens[b];
            let capped: usize = if n < max_len { n } else { max_len };
            let filled: usize = if capped > 1 { capped } else { 1 };
            let start: usize = match self.config.sliding_window {
                Some(w) => if filled > w { filled - w } else { 0 },
                None => 0,
            };
            slots.push(b);
            starts.push(start);
            lens.push(filled - start);
            b = b + 1;
        }
        let firsts: Vec<usize> = slot_rows(slots.as_slice(), starts.as_slice(), batch, g_count, max_len);
        proof {
            assert forall|g: int, i: int| 0 <= g < self.kv() && 0 <= i < count implies (#[trigger] firsts@[grid::cell(g, i, count as int)] + lens@[i])
                * self.width() <= cache.k@[layer_idx as int]@.count() && (firsts@[grid::cell(g, i, count as int)] + lens@[i]) * self.width()
                <= cache.v@[layer_idx as int]@.count() by {
                assert(slots@[i] == i);
                slot_span_inside(cache.k@[layer_idx as int]@, i, g, starts@[i] as int, lens@[i] as int, batch, g_count, max_len, width);
                slot_span_inside(cache.v@[layer_idx as int]@, i, g, starts@[i] as int, lens@[i] as int, batch, g_count, max_len, width);
            }
        }
        let mixed: Tensor = self.mix(
            &q,
            &cache.k[layer_idx],
            &cache.v[layer_idx],
            count,
            firsts.as_slice(),
            lens.as_slice(),
            Ghost(k_in),
            unit,
        );
        let r: Tensor = self.project_out(&mixed, Ghost(k_in), unit);
        proof {
            let kt = cache.k@[layer_idx as int]@;
            let vt = cache.v@[layer_idx as int]@;
            assert forall|b: int| 0 <= b < count implies #[trigger] r@.chunk(b, self.o_proj.weight@.shape[0] as int) == {
                let filled = batch_filled(old(cache).seq_lens@[b] as int, max_len as int);
                let start = window_start(self.config.sliding_window, filled);
                self.result(
                    *unit,
                    factor,
                    input@.chunk(b, k_in),
                    positions@[b] as int,
                    self.seen(kt, b, start, filled - start, max_len as int),
                    self.seen(vt, b, start, filled - start, max_len as int),
                )
            } by {
                let x = input@.chunk(b, k_in);
                let keys = self.seen(kt, b, starts@[b] as int, lens@[b] as int, max_len as int);
                let values = self.seen(vt, b, starts@[b] as int, lens@[b] as int, max_len as int);
                let parts = Seq::new(
                    self.heads() as nat,
                    |h: int|
                        unit::value(
                            *unit,
                            Op::Attend { softcap: self.config.attn_logit_softcap },
                            q@.chunk(grid::cell(h, b, count as int), self.width()),
                            heads::span(kt, firsts@[grid::cell(h / self.group(), b, count as int)] as int, lens@[b] as int, self.width()),
                            heads::span(vt, firsts@[grid::cell(h / self.group(), b, count as int)] as int, lens@[b] as int, self.width()),
                        ),
                );
                let wanted = Seq::new(
                    self.heads() as nat,
                    |h: int|
                        unit::value(
                            *unit,
                            Op::Attend { softcap: self.config.attn_logit_softcap },
                            self.query(*unit, factor, x, h, positions@[b] as int),
                            keys[h / self.group()],
                            values[h / self.group()],
                        ),
                );
                assert forall|h: int| 0 <= h < self.heads() implies parts[h] == wanted[h] by {
                    self.shared_head(h, k_in);
                    let g = h / self.group();
                    assert(slots@[b] == b);
                    assert(q@.chunk(grid::cell(h, b, count as int), width as int) == self.query(*unit, factor, x, h, positions@[b] as int));
                    assert(firsts@[grid::cell(g, b, count as int)] == cache::row_number(b, g, starts@[b] as int, self.kv(), max_len as int));
                }
                assert(parts =~= wanted);
            }
            assert forall|b: int, g: int, p: int| 0 <= b < old(cache).batch && 0 <= g < g_count && 0 <= p < max_len implies #[trigger] cache.rows(layer_idx as int, b, g, p) == (if b < positions@.len() && p == positions@[b] {
                    (self.key(*unit, factor, input@.chunk(b, k_in), g, p), self.value(*unit, input@.chunk(b, k_in), g))
                } else {
                    old(cache).rows(layer_idx as int, b, g, p)
                }) by {
                assert(cache.rows(layer_idx as int, b, g, p) == (if b < positions@.len() && p == positions@[b] {
                    (k@.chunk(grid::cell(g, b, count as int), width as int), v@.chunk(grid::cell(g, b, count as int), width as int))
                } else {
                    before.rows(layer_idx as int, b, g, p)
                }));
                if b < positions@.len() && p == positions@[b] {
                    assert(k@.chunk(grid::cell(g, b, count as int), width as int) == self.key(*unit, factor, input@.chunk(b, k_in), g, p));
                    assert(v@.chunk(grid::cell(g, b, count as int), width as int) == self.value(*unit, input@.chunk(b, k_in), g));
                }
            }
        }
        r
    }

    /// Attends for one row of each of some sequences without a cache, each at its own position: a
    /// row sees only itself.
    pub fn forward_batch_alone<F: Fn(Op, &[u32], &[u32], &[u32]) -> Vec<u32>>(
        &self,
        input: &Tensor,
        positions: &[usize],
        factor: Real,
        unit: &F,
    ) -> (r: Tensor)
        requires
            unit::lawful(*unit),
            input@.wf(),
            input@.dtype is F32,
            input@.shape.len() == 2,
            input@.shape[0] == positions@.len(),
            self.fits(input@.shape[1] as int),
            self.room(input@.shape[0]),
        ensures
            r@.wf(),
            r@.dtype is F32,
            r@.device == Device::Cpu,
            r@.shape == seq![input@.shape[0], self.o_proj.weight@.shape[0]],
            forall|b: int| 0 <= b < input@.shape[0] ==> #[trigger] r@.chunk(b, self.o_proj.weight@.shape[0] as int) == self.lone_result(
                *unit,
                factor,
                input@.chunk(b, input@.shape[1] as int),
                positions@[b] as int,
            ),
    {
        let count: usize = input.shape()[0];
        let ghost k_in = input@.shape[1] as int;
        let h_count: usize = self.config.num_heads;
        let g_count: usize = self.config.num_kv_heads();
        let width: usize = self.config.head_dim();
        let rope: Option<(Real, Real)> = self.rotation(factor);
        proof {
            self.sizes_fit(count, k_in);
        }
        let none: Option<RmsNorm> = None;
        let q: Tensor = Attention::project(&self.q_proj, &self.q_norm, rope, input, h_count, width, positions, unit);
        let k: Tensor = Attention::project(&self.k_proj, &self.k_norm, rope, input, g_count, width, positions, unit);
        let v: Tensor = Attention::project(&self.v_proj, &none, None, input, g_count, width, positions, unit);
        let len: usize = match self.config.sliding_window {
            Some(w) => if w < 1 { 0 } else { 1 },
            None => 1,
        };
        let mut lens: Vec<usize> = Vec::new();
        let mut b: usize = 0;
        while b < count
            invariant
                b <= count,
                lens@.len() == b,
                forall|j: int| 0 <= j < b ==> #[trigger] lens@[j] == len,
            decreases count - b,
        {
            lens.push(len);
            b = b + 1;
        }
        let total: usize = g_count * count;
        let mut firsts: Vec<usize> = Vec::new();
        let mut n: usize = 0;
        while n < total
            invariant
                n <= total,
                firsts@.len() == n,
                forall|m: int| 0 <= m < n ==> #[trigger] firsts@[m] == m,
            decreases total - n,
        {
            firsts.push(n);
            n = n + 1;
        }
        proof {
            shape::product_three(g_count, count, width);
            assert forall|g: int, i: int| 0 <= g < self.kv() && 0 <= i < count implies (#[trigger] firsts@[grid::cell(g, i, count as int)] + lens@[i])
                * self.width() <= k@.count() && (firsts@[grid::cell(g, i, count as int)] + lens@[i]) * self.width() <= v@.count() by {
                grid::cell_inside(g, i, g_count as int, count as int);
                let last = grid::cell(g, i, count as int) + lens@[i];
                assert(last * width <= g_count * count * width) by (nonlinear_arith)
                    requires
                        last <= g_count * count,
                ;
            }
        }
        let mixed: Tensor = self.mix(&q, &k, &v, count, firsts.as_slice(), lens.as_slice(), Ghost(k_in), unit);
        let r: Tensor = self.project_out(&mixed, Ghost(k_in), unit);
        proof {
            assert forall|b: int| 0 <= b < count implies #[trigger] r@.chunk(b, self.o_proj.weight@.shape[0] as int) == self.lone_result(
                *unit,
                factor,
                input@.chunk(b, k_in),
                positions@[b] as int,
            ) by {
                let x = input@.chunk(b, k_in);
                let position = positions@[b] as int;
                let some = self.lone_len() as nat;
                let keys = Seq::new(
                    self.kv() as nat,
                    |g: int| side_by_side(Seq::new(some, |t: int| self.key(*unit, factor, x, g, position)), self.width()),
                );
                let values = Seq::new(self.kv() as nat, |g: int| side_by_side(Seq::new(some, |t: int| self.value(*unit, x, g)), self.width()));
                let parts = Seq::new(
                    self.heads() as nat,
                    |h: int|
                        unit::value(
                            *unit,
                            Op::Attend { softcap: self.config.attn_logit_softcap },
                            q@.chunk(grid::cell(h, b, count as int), self.width()),
                            heads::span(k@, firsts@[grid::cell(h / self.group(), b, count as int)] as int, lens@[b] as int, self.width()),
                            heads::span(v@, firsts@[grid::cell(h / self.group(), b, count as int)] as int, lens@[b] as int, self.width()),
                        ),
                );
                let wanted = Seq::new(
                    self.heads() as nat,
                    |h: int|
                        unit::value(
                            *unit,
                            Op::Attend { softcap: self.config.attn_logit_softcap },
                            self.query(*unit, factor, x, h, position),
                            keys[h / self.group()],
                            values[h / self.group()],
                        ),
                );
                assert forall|h: int| 0 <= h < self.heads() implies parts[h] == wanted[h] by {
                    self.shared_head(h, k_in);
                    let g = h / self.group();
                    grid::cell_inside(g, b, g_count as int, count as int);
                    let first = grid::cell(g, b, count as int);
                    assert(q@.chunk(grid::cell(h, b, count as int), width as int) == self.query(*unit, factor, x, h, position));
                    let key_rows = Seq::new(some, |t: int| self.key(*unit, factor, x, g, position));
                    let value_rows = Seq::new(some, |t: int| self.value(*unit, x, g));
                    assert(k@.chunk(first, width as int) == self.key(*unit, factor, x, g, position));
                    assert(v@.chunk(first, width as int) == self.value(*unit, x, g));
                    assert forall|t: int| 0 <= t < key_rows.len() implies #[trigger] k@.chunk(first + t, width as int) == key_rows[t] by {
                        assert(first + t == first);
                    }
                    assert forall|t: int| 0 <= t < value_rows.len() implies #[trigger] v@.chunk(first + t, width as int) == value_rows[t] by {
                        assert(first + t == first);
                    }
                    assert((firsts@[grid::cell(g, b, count as int)] + lens@[b]) * self.width() <= k@.count());
                    span_is_rows(k@, first, key_rows, width as int);
                    span_is_rows(v@, first, value_rows, width as int);
                }
                assert(parts =~= wanted);
            }
        }
        r
    }

    /// Attends without a cache, up to what comes out of the heads.
    pub(crate) fn attend_alone<F: Fn(Op, &[u32], &[u32], &[u32]) -> Vec<u32>>(
        &self,
        input: &Tensor,
        position: usize,
        factor: Real,
        unit: &F,
    ) -> (r: Tensor)
        requires
            unit::lawful(*unit),
            input@.wf(),
            input@.dtype is F32,
            input@.shape.len() == 2,
            self.fits(input@.shape[1] as int),
            self.room(input@.shape[0]),
            position + input@.shape[0] <= usize::MAX,
        ensures
            r@.wf(),
            r@.dtype is F32,
            r@.device == Device::Cpu,
            r@.shape == seq![input@.shape[0], (self.heads() * self.width()) as usize],
            ({
                let n = input@.shape[0] as int;
                let k = input@.shape[1] as int;
                forall|i: int| 0 <= i < n ==> #[trigger] r@.chunk(i, self.heads() * self.width()) == self.mixed(
                    *unit,
                    factor,
                    input@.chunk(i, k),
                    position + i,
                    self.block_keys(*unit, factor, input@, k, position as int, self.first_seen(i), i + 1 - self.first_seen(i)),
                    self.block_values(*unit, input@, k, self.first_seen(i), i + 1 - self.first_seen(i)),
                )
            }),
    {
        let count: usize = input.shape()[0];
        let ghost k_in = input@.shape[1] as int;
        let h_count: usize = self.config.num_heads;
        let g_count: usize = self.config.num_kv_heads();
        let width: usize = self.config.head_dim();
        let rope: Option<(Real, Real)> = self.rotation(factor);
        let mut positions: Vec<usize> = Vec::new();
        let mut starts: Vec<usize> = Vec::new();
        let mut lens: Vec<usize> = Vec::new();
        let mut i: usize = 0;
        while i < count
            invariant
                i <= count,
                position + count <= usize::MAX,
                positions@.len() == i,
                starts@.len() == i,
                lens@.len() == i,
                forall|j: int| 0 <= j < i ==> #[trigger] positions@[j] == position + j,
                forall|j: int| 0 <= j < i ==> #[trigger] starts@[j] == self.first_seen(j),
                forall|j: int| 0 <= j < i ==> starts@[j] + #[trigger] lens@[j] == j + 1,
            decreases count - i,
        {
            let start: usize = match self.config.sliding_window {
                Some(w) => if i + 1 > w { i + 1 - w } else { 0 },
                None => 0,
            };
            positions.push(position + i);
            starts.push(start);
            lens.push(i + 1 - start);
            i = i + 1;
        }
        proof {
            self.sizes_fit(count, k_in);
        }
        let none: Option<RmsNorm> = None;
        let q: Tensor = Attention::project(&self.q_proj, &self.q_norm, rope, input, h_count, width, positions.as_slice(), unit);
        let k: Tensor = Attention::project(&self.k_proj, &self.k_norm, rope, input, g_count, width, positions.as_slice(), unit);
        let v: Tensor = Attention::project(&self.v_proj, &none, None, input, g_count, width, positions.as_slice(), unit);
        let mut firsts: Vec<usize> = Vec::new();
        let mut n: usize = 0;
        while n < g_count * count
            invariant
                g_count * count <= usize::MAX,
                starts@.len() == count,
                lens@.len() == count,
                forall|j: int| 0 <= j < count ==> starts@[j] + #[trigger] lens@[j] == j + 1,
                n <= g_count * count,
                firsts@.len() == n,
                forall|m: int| 0 <= m < n ==> #[trigger] firsts@[m] == (m / (count as int)) * count + starts@[m % (count as int)],
            decreases g_count * count - n,
        {
            proof {
                grid::cell_onto(n as int, g_count as int, count as int);
                let g = (n as int) / (count as int);
                let i = (n as int) % (count as int);
                assert(starts@[i] + lens@[i] == i + 1);
                assert(g * count + starts@[i] <= g_count * count && 0 <= g * count) by (nonlinear_arith)
                    requires
                        0 <= g < g_count,
                        starts@[i] <= count,
                ;
            }
            firsts.push((n / count) * count + starts[n % count]);
            n = n + 1;
        }
        proof {
            shape::product_three(g_count, count, width);
            assert forall|g: int, i: int| 0 <= g < self.kv() && 0 <= i < count implies (#[trigger] firsts@[grid::cell(g, i, count as int)] + lens@[i])
                * self.width() <= k@.count() && (firsts@[grid::cell(g, i, count as int)] + lens@[i]) * self.width() <= v@.count() by {
                grid::cell_inside(g, i, g_count as int, count as int);
                grid::cell_unique(g, i, count as int);
                let last = g * count + starts@[i] + lens@[i];
                assert(starts@[i] + lens@[i] == i + 1);
                assert(last <= g_count * count) by (nonlinear_arith)
                    requires
                        0 <= g < g_count,
                        starts@[i] + lens@[i] <= count,
                        last == g * count + starts@[i] + lens@[i],
                ;
                assert(last * width <= g_count * count * width) by (nonlinear_arith)
                    requires
                        last <= g_count * count,
                ;
            }
        }
        let r: Tensor = self.mix(&q, &k, &v, count, firsts.as_slice(), lens.as_slice(), Ghost(k_in), unit);
        proof {
            assert forall|i: int| 0 <= i < count implies #[trigger] r@.chunk(i, self.heads() * self.width()) == self.mixed(
                *unit,
                factor,
                input@.chunk(i, k_in),
                position + i,
                self.block_keys(*unit, factor, input@, k_in, position as int, self.first_seen(i), i + 1 - self.first_seen(i)),
                self.block_values(*unit, input@, k_in, self.first_seen(i), i + 1 - self.first_seen(i)),
            ) by {
                let x = input@.chunk(i, k_in);
                let start = self.first_seen(i);
                let len = i + 1 - start;
                assert(starts@[i] == start && starts@[i] + lens@[i] == i + 1);
                let keys = self.block_keys(*unit, factor, input@, k_in, position as int, start, len);
                let values = self.block_values(*unit, input@, k_in, start, len);
                let parts = Seq::new(
                    self.heads() as nat,
                    |h: int|
                        unit::value(
                            *unit,
                            Op::Attend { softcap: self.config.attn_logit_softcap },
                            q@.chunk(grid::cell(h, i, count as int), self.width()),
                            heads::span(k@, firsts@[grid::cell(h / self.group(), i, count as int)] as int, lens@[i] as int, self.width()),
                            heads::span(v@, firsts@[grid::cell(h / self.group(), i, count as int)] as int, lens@[i] as int, self.width()),
                        ),
                );
                let wanted = Seq::new(
                    self.heads() as nat,
                    |h: int|
                        unit::value(
                            *unit,
                            Op::Attend { softcap: self.config.attn_logit_softcap },
                            self.query(*unit, factor, x, h, position + i),
                            keys[h / self.group()],
                            values[h / self.group()],
                        ),
                );
                assert forall|h: int| 0 <= h < self.heads() implies parts[h] == wanted[h] by {
                    self.shared_head(h, k_in);
                    let g = h / self.group();
                    grid::cell_inside(g, i, g_count as int, count as int);
                    grid::cell_unique(g, i, count as int);
                    let first = grid::cell(g, start, count as int);
                    assert(firsts@[grid::cell(g, i, count as int)] == first);
                    assert(q@.chunk(grid::cell(h, i, count as int), width as int) == self.query(*unit, factor, x, h, position + i));
                    let key_rows = Seq::new(
                        len as nat,
                        |t: int| self.key(*unit, factor, input@.chunk(start + t, k_in), g, position + start + t),
                    );
                    let value_rows = Seq::new(len as nat, |t: int| self.value(*unit, input@.chunk(start + t, k_in), g));
                    assert forall|t: int| 0 <= t < len implies #[trigger] k@.chunk(first + t, width as int) == key_rows[t] by {
                        assert(k@.chunk(grid::cell(g, start + t, count as int), width as int) == self.key(
                            *unit,
                            factor,
                            input@.chunk(start + t, k_in),
                            g,
                            position + start + t,
                        ));
                    }
                    assert forall|t: int| 0 <= t < len implies #[trigger] v@.chunk(first + t, width as int) == value_rows[t] by {
                        assert(v@.chunk(grid::cell(g, start + t, count as int), width as int) == self.value(*unit, input@.chunk(start + t, k_in), g));
                    }
                    assert((firsts@[grid::cell(g, i, count as int)] + lens@[i]) * self.width() <= k@.count());
                    span_is_rows(k@, first, key_rows, width as int);
                    span_is_rows(v@, first, value_rows, width as int);
                }
                assert(parts =~= wanted);
            }
        }
        r
    }

    /// Attends without a cache: each row sees itself and the rows before it, the last of them
    /// where there is a window. The rows stand at `position` and after it.
    pub fn forward<F: Fn(Op, &[u32], &[u32], &[u32]) -> Vec<u32>>(
        &self,
        input: &Tensor,
        position: usize,
        factor: Real,
        unit: &F,
    ) -> (r: Tensor)
        requires
            unit::lawful(*unit),
            input@.wf(),
            input@.dtype is F32,
            input@.shape.len() == 2,
            self.fits(input@.shape[1] as int),
            self.room(input@.shape[0]),
            position + input@.shape[0] <= usize::MAX,
        ensures
            r@.wf(),
            r@.dtype is F32,
            r@.device == Device::Cpu,
            r@.shape == seq![input@.shape[0], self.o_proj.weight@.shape[0]],
            ({
                let n = input@.shape[0] as int;
                let k = input@.shape[1] as int;
                forall|i: int| 0 <= i < n ==> #[trigger] r@.chunk(i, self.o_proj.weight@.shape[0] as int) == self.result(
                    *unit,
                    factor,
                    input@.chunk(i, k),
                    position + i,
                    self.block_keys(*unit, factor, input@, k, position as int, self.first_seen(i), i + 1 - self.first_seen(i)),
                    self.block_values(*unit, input@, k, self.first_seen(i), i + 1 - self.first_seen(i)),
                )
            }),
    {
        let mixed: Tensor = self.attend_alone(input, position, factor, unit);
        let r: Tensor = self.project_out(&mixed, Ghost(input@.shape[1] as int), unit);
        proof {
            let k = input@.shape[1] as int;
            assert forall|i: int| 0 <= i < input@.shape[0] implies #[trigger] r@.chunk(i, self.o_proj.weight@.shape[0] as int) == self.result(
                *unit,
                factor,
                input@.chunk(i, k),
                position + i,
                self.block_keys(*unit, factor, input@, k, position as int, self.first_seen(i), i + 1 - self.first_seen(i)),
                self.block_values(*unit, input@, k, self.first_seen(i), i + 1 - self.first_seen(i)),
            ) by {
                assert(r@.chunk(i, self.o_proj.weight@.shape[0] as int) == self.o_proj.sole_image(
                    *unit,
                    mixed@.chunk(i, self.heads() * self.width()),
                ));
            }
        }
        r
    }

    /// The keys of rows of a block, head by head.
    pub open spec fn block_keys<F: Fn(Op, &[u32], &[u32], &[u32]) -> Vec<u32>>(
        self,
        unit: F,
        factor: Real,
        input: TensorModel,
        k: int,
        position: int,
        start: int,
        len: int,
    ) -> Seq<Seq<u32>> {
        Seq::new(
            self.kv() as nat,
            |g: int|
                side_by_side(
                    Seq::new(len as nat, |t: int| self.key(unit, factor, input.chunk(start + t, k), g, position + start + t)),
                    self.width(),
                ),
        )
    }

    /// The values of rows of a block, head by head.
    pub open spec fn block_values<F: Fn(Op, &[u32], &[u32], &[u32]) -> Vec<u32>>(
        self,
        unit: F,
        input: TensorModel,
        k: int,
        start: int,
        len: int,
    ) -> Seq<Seq<u32>> {
        Seq::new(
            self.kv() as nat,
            |g: int| side_by_side(Seq::new(len as nat, |t: int| self.value(unit, input.chunk(start + t, k), g)), self.width()),
        )
    }

    /// What the tensors of a block need is within the range of a size.
    proof fn sizes_fit(self, count: usize, hidden: int)
        requires
            self.fits(hidden),
            self.room(count),
        ensures
            self.kv() * self.width() <= self.heads() * self.width(),
            count * self.kv() <= count * self.heads(),
            self.kv() * count <= count * self.heads(),
            self.heads() * count == count * self.heads(),
    {
        let n = self.heads();
        let k = self.kv();
        self.shared_head(0, hidden);
        vstd::arithmetic::div_mod::lemma_fundamental_div_mod(n, k);
        assert(k <= n) by (nonlinear_arith)
            requires
                n == k * (n / k),
                n / k > 0,
                k > 0,
        ;
        assert(k * self.width() <= n * self.width() && count * k <= count * n && k * count == count * k && n * count == count * n)
            by (nonlinear_arith)
            requires
                k <= n,
                0 <= self.width(),
        ;
    }
}

/// The first row that counts of each head of a slot, for each of some slots.
fn slot_rows(slots: &[usize], starts: &[usize], batch: usize, g_count: usize, max_len: usize) -> (r: Vec<usize>)
    requires
        slots@.len() == starts@.len(),
        forall|i: int| 0 <= i < slots@.len() ==> #[trigger] slots@[i] < batch,
        forall|i: int| 0 <= i < starts@.len() ==> #[trigger] starts@[i] <= max_len,
        0 < max_len,
        g_count * starts@.len() <= usize::MAX,
        batch * g_count * max_len <= usize::MAX,
    ensures
        r@.len() == g_count * starts@.len(),
        forall|g: int, i: int| 0 <= g < g_count && 0 <= i < starts@.len() ==> #[trigger] r@[grid::cell(g, i, starts@.len() as int)]
            == cache::row_number(slots@[i] as int, g, starts@[i] as int, g_count as int, max_len as int),
{
    let count: usize = starts.len();
    let total: usize = g_count * count;
    let mut r: Vec<usize> = Vec::new();
    let mut n: usize = 0;
    while n < total
        invariant
            count == starts@.len(),
            count == slots@.len(),
            forall|i: int| 0 <= i < slots@.len() ==> #[trigger] slots@[i] < batch,
            forall|i: int| 0 <= i < starts@.len() ==> #[trigger] starts@[i] <= max_len,
            0 < max_len,
            batch * g_count * max_len <= usize::MAX,
            total == g_count * count,
            n <= total,
            r@.len() == n,
            forall|m: int| 0 <= m < n ==> #[trigger] r@[m] == cache::row_number(
                slots@[m % (count as int)] as int,
                m / (count as int),
                starts@[m % (count as int)] as int,
                g_count as int,
                max_len as int,
            ),
        decreases total - n,
    {
        let g: usize = n / count;
        let i: usize = n % count;
        proof {
            grid::cell_onto(n as int, g_count as int, count as int);
            let slot = slots@[i as int];
            grid::cell_inside(slot as int, g as int, batch as int, g_count as int);
            let bg = grid::cell(slot as int, g as int, g_count as int);
            let start = starts@[i as int];
            assert(bg * max_len + start <= batch * g_count * max_len && 0 <= bg * max_len) by (nonlinear_arith)
                requires
                    0 <= bg < batch * g_count,
                    start <= max_len,
            ;
            assert(bg <= bg * max_len) by (nonlinear_arith)
                requires
                    0 <= bg,
                    0 < max_len,
            ;
            assert(0 <= slot * g_count) by (nonlinear_arith);
        }
        r.push((slots[i] * g_count + g) * max_len + starts[i]);
        n = n + 1;
    }
    assert forall|g: int, i: int| 0 <= g < g_count && 0 <= i < count implies #[trigger] r@[grid::cell(g, i, count as int)]
        == cache::row_number(slots@[i] as int, g, starts@[i] as int, g_count as int, max_len as int) by {
        grid::cell_inside(g, i, g_count as int, count as int);
        grid::cell_unique(g, i, count as int);
    }
    r
}

} // verus!
