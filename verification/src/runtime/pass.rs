//! What a pass through a model makes of rows, stated from the operations of the float unit up.
use super::attention;
use super::attention::Attention;
use super::cache;
use super::config::{Activation, Real};
use super::drawing;
use super::heads;
use super::layers::{Embedding, Linear, RmsNorm};
use super::network::Network;
use super::transformer::TransformerLayer;
use super::unit;
use super::unit::Op;
use crate::grid;
use crate::tensor::rows;
use crate::tensor::tensor::TensorModel;
use vstd::prelude::*;

verus! {

/// Elements of a tensor one after the other.
pub open spec fn stretch(t: TensorModel, from: int, len: nat) -> Seq<u32> {
    Seq::new(len, |c: int| t.lane(from + c))
}

/// One answer of the float unit to two rows.
pub open spec fn of_two<F: Fn(Op, &[u32], &[u32], &[u32]) -> Vec<u32>>(unit: F, op: Op, x: Seq<u32>, y: Seq<u32>) -> Seq<u32> {
    unit::value(unit, op, x, y, Seq::empty())
}

/// Rows of one width that stand side by side can be told apart again.
pub proof fn side_row(list: Seq<Seq<u32>>, width: int, h: int)
    requires
        0 <= h < list.len(),
        0 <= width,
        list[h].len() == width,
    ensures
        rows::row_of(attention::side_by_side(list, width), h, width) == list[h],
        attention::side_by_side(list, width).len() == list.len() * width,
{
    let all = attention::side_by_side(list, width);
    assert(0 <= h * width && h * width + width <= list.len() * width) by (nonlinear_arith)
        requires
            0 <= h < list.len(),
            0 <= width,
    ;
    let row = rows::row_of(all, h, width);
    assert forall|c: int| 0 <= c < width implies row[c] == list[h][c] by {
        grid::cell_unique(h, c, width);
        assert(row[c] == all[h * width + c]);
    }
    assert(row =~= list[h]);
}

impl Linear {
    /// Element `j` of the image of a row is the inner product of the row with row `j` of the weight,
    /// and no other; a bias is added to them all.
    pub proof fn image_is_made_of_inner_products<F: Fn(Op, &[u32], &[u32], &[u32]) -> Vec<u32>>(self, unit: F, x: Seq<u32>, n: int)
        requires
            unit::lawful(unit),
            self.maps(x.len() as int, n),
            0 <= n,
        ensures
            ({
                let k = x.len();
                let products = Seq::new(
                    n as nat,
                    |j: int|
                        if self.bits is Some {
                            unit::value(
                                unit,
                                Op::BitDot { a8: self.bits.unwrap().a8 },
                                x,
                                stretch(self.weight@, j * k, k),
                                self.bits.unwrap().scales@,
                            )[0]
                        } else {
                            of_two(unit, Op::Dot, x, stretch(self.weight@, j * k, k))[0]
                        },
                );
                &&& self.bias is None ==> self.sole_image(unit, x) == products
                &&& self.bias matches Some(b) ==> self.sole_image(unit, x) == of_two(unit, Op::Plus, products, stretch(b@, 0, n as nat))
                &&& self.sole_image(unit, x).len() == n
            }),
    {
        let k = x.len();
        let products = Seq::new(
            n as nat,
            |j: int|
                if self.bits is Some {
                    unit::value(unit, Op::BitDot { a8: self.bits.unwrap().a8 }, x, stretch(self.weight@, j * k, k), self.bits.unwrap().scales@)[0]
                } else {
                    of_two(unit, Op::Dot, x, stretch(self.weight@, j * k, k))[0]
                },
        );
        let dots = super::layers::dots(unit, self.weight@, self.bits, x);
        assert forall|j: int| 0 <= j < n implies dots[j] == products[j] by {
            assert(self.weight@.chunk(j, k as int) =~= stretch(self.weight@, j * k, k));
        }
        assert(dots =~= products);
        if let Some(b) = self.bias {
            crate::tensor::shape::product_one(n as usize);
            assert(self.bias_row(0) =~= stretch(b@, 0, n as nat));
            drawing::answer_has_its_width(unit, Op::Plus, products, stretch(b@, 0, n as nat), Seq::empty());
        }
    }
}

impl RmsNorm {
    /// A row is normalized with the first weights of the norm, one for each element, and a layer norm
    /// adds as many of its biases.
    pub proof fn row_is_normalized_with_its_weights<F: Fn(Op, &[u32], &[u32], &[u32]) -> Vec<u32>>(self, unit: F, x: Seq<u32>)
        requires
            unit::lawful(unit),
            self.accepts(x.len() as int),
        ensures
            self.kind is Rms ==> self.image(unit, x) == unit::value(
                unit,
                Op::Norm { layer: false, centered: self.one_centered, eps: self.eps },
                x,
                stretch(self.weight@, 0, x.len()),
                Seq::empty(),
            ),
            self.kind is Layer ==> self.image(unit, x) == unit::value(
                unit,
                Op::Norm { layer: true, centered: false, eps: self.eps },
                x,
                stretch(self.weight@, 0, x.len()),
                if self.bias is Some {
                    stretch(self.bias.unwrap()@, 0, x.len())
                } else {
                    Seq::empty()
                },
            ),
            self.image(unit, x).len() == x.len(),
    {
        assert(self.weight@.lanes().take(x.len() as int) =~= stretch(self.weight@, 0, x.len()));
        if self.kind is Layer && self.bias is Some {
            let b = self.bias.unwrap();
            assert(b@.lanes().take(x.len() as int) =~= stretch(b@, 0, x.len()));
        }
        drawing::answer_has_its_width(unit, self.op(), x, self.weight@.lanes().take(x.len() as int), self.shift(x.len() as int));
    }
}

impl Embedding {
    /// The row of a token is the one at its place in the table.
    pub proof fn token_has_its_own_row(self, token: u32)
        ensures
            self.row(token) == stretch(self.weight@, token * self.embed_dim, self.embed_dim as nat),
    {
        assert(self.row(token) =~= stretch(self.weight@, token * self.embed_dim, self.embed_dim as nat));
    }
}

/// The row of a head as attention takes it has the width of the head.
proof fn prepared_keeps_width<F: Fn(Op, &[u32], &[u32], &[u32]) -> Vec<u32>>(
    unit: F,
    norm: Option<RmsNorm>,
    rope: Option<(Real, Real)>,
    raw: Seq<u32>,
    head: int,
    position: int,
)
    requires
        unit::lawful(unit),
    ensures
        heads::prepared(unit, norm, rope, raw, head, position).len() == raw.len(),
{
    if let Some(n) = norm {
        drawing::answer_has_its_width(
            unit,
            Op::HeadNorm { centered: n.one_centered, eps: n.eps },
            raw,
            n.weight@.chunk(head, raw.len() as int),
            Seq::empty(),
        );
    }
    if let Some((theta, factor)) = rope {
        let x = heads::prepared(unit, norm, None, raw, head, position);
        drawing::answer_has_its_width(unit, Op::Rotate { position: position as usize, theta, factor }, x, Seq::empty(), Seq::empty());
    }
}

/// A head's row: normalized with the weights of that head, where there is a norm, and then rotated by
/// its position, where there are rotations.
pub open spec fn head_row<F: Fn(Op, &[u32], &[u32], &[u32]) -> Vec<u32>>(
    unit: F,
    norm: Option<RmsNorm>,
    rotated: bool,
    theta: Real,
    factor: Real,
    raw: Seq<u32>,
    head: int,
    position: int,
) -> Seq<u32> {
    let x = if norm is Some {
        of_two(
            unit,
            Op::HeadNorm { centered: norm.unwrap().one_centered, eps: norm.unwrap().eps },
            raw,
            stretch(norm.unwrap().weight@, head * raw.len(), raw.len()),
        )
    } else {
        raw
    };
    if rotated {
        of_two(unit, Op::Rotate { position: position as usize, theta, factor }, x, Seq::empty())
    } else {
        x
    }
}

impl Attention {
    /// Head `h` of a projected row is its part number `h`. Queries and keys are normalized and rotated
    /// by the position, values are not.
    pub proof fn heads_are_parts_of_projected_rows<F: Fn(Op, &[u32], &[u32], &[u32]) -> Vec<u32>>(
        self,
        unit: F,
        factor: Real,
        x: Seq<u32>,
        h: int,
        position: int,
    )
        requires
            unit::lawful(unit),
            self.fits(x.len() as int),
            0 <= h,
        ensures
            ({
                let w = self.config.head_width() as int;
                let c = self.config;
                let part = |row: Seq<u32>| row.subrange(h * w, h * w + w);
                &&& h < c.num_heads ==> self.query(unit, factor, x, h, position) == head_row(
                    unit,
                    self.q_norm,
                    c.use_rope,
                    c.rope_theta,
                    factor,
                    part(self.q_proj.sole_image(unit, x)),
                    h,
                    position,
                ) && self.query(unit, factor, x, h, position).len() == w
                &&& h < c.kv_heads() ==> self.key(unit, factor, x, h, position) == head_row(
                    unit,
                    self.k_norm,
                    c.use_rope,
                    c.rope_theta,
                    factor,
                    part(self.k_proj.sole_image(unit, x)),
                    h,
                    position,
                ) && self.key(unit, factor, x, h, position).len() == w
                &&& h < c.kv_heads() ==> self.value(unit, x, h) == part(self.v_proj.sole_image(unit, x)) && self.value(unit, x, h).len() == w
            }),
    {
        let w = self.width();
        if h < self.heads() {
            self.q_proj.image_is_made_of_inner_products(unit, x, self.heads() * w);
            part_inside(h, self.heads(), w);
            let raw = rows::row_of(self.q_proj.sole_image(unit, x), h, w);
            prepared_is_head_row(unit, self.q_norm, self.config.use_rope, self.config.rope_theta, factor, raw, h, position);
            prepared_keeps_width(unit, self.q_norm, self.rope(factor), raw, h, position);
        }
        if h < self.kv() {
            self.k_proj.image_is_made_of_inner_products(unit, x, self.kv() * w);
            self.v_proj.image_is_made_of_inner_products(unit, x, self.kv() * w);
            part_inside(h, self.kv(), w);
            let raw = rows::row_of(self.k_proj.sole_image(unit, x), h, w);
            prepared_is_head_row(unit, self.k_norm, self.config.use_rope, self.config.rope_theta, factor, raw, h, position);
            prepared_keeps_width(unit, self.k_norm, self.rope(factor), raw, h, position);
        }
    }

    /// Query heads are shared out evenly: key and value head `g` is the one that the query heads from
    /// `g * (heads / kv_heads)` on attend to, as many as `heads / kv_heads`, and each query head attends
    /// to one. Where there are as many of both, query head `g` attends to key and value head `g`. What
    /// comes out stands at the query head's own place.
    pub proof fn query_heads_are_shared_out_evenly<F: Fn(Op, &[u32], &[u32], &[u32]) -> Vec<u32>>(
        self,
        unit: F,
        factor: Real,
        x: Seq<u32>,
        position: int,
        keys: Seq<Seq<u32>>,
        values: Seq<Seq<u32>>,
        g: int,
        j: int,
    )
        requires
            unit::lawful(unit),
            self.fits(x.len() as int),
            0 <= g < self.config.kv_heads(),
            0 <= j < self.config.num_heads / self.config.kv_heads(),
        ensures
            ({
                let share = self.config.num_heads as int / self.config.kv_heads() as int;
                let h = g * share + j;
                let w = self.config.head_width() as int;
                &&& share * self.config.kv_heads() == self.config.num_heads
                &&& 0 <= h < self.config.num_heads
                &&& self.config.kv_heads() == self.config.num_heads ==> h == g
                &&& self.mixed(unit, factor, x, position, keys, values).len() == self.config.num_heads * w
                &&& self.mixed(unit, factor, x, position, keys, values).subrange(h * w, h * w + w) == unit::value(
                    unit,
                    Op::Attend { softcap: self.config.attn_logit_softcap },
                    self.query(unit, factor, x, h, position),
                    keys[g],
                    values[g],
                )
            }),
    {
        let n = self.heads();
        let k = self.kv();
        let share = n / k;
        let h = g * share + j;
        let w = self.width();
        vstd::arithmetic::div_mod::lemma_fundamental_div_mod(n, k);
        assert(n == k * share);
        assert(share * k == k * share) by (nonlinear_arith);
        grid::cell_inside(g, j, k, share);
        grid::cell_unique(g, j, share);
        if k == n {
            assert(share == 1) by (nonlinear_arith)
                requires
                    n == k * share,
                    k == n,
                    n > 0,
            ;
            assert(g * 1 == g);
        }
        self.heads_are_parts_of_projected_rows(unit, factor, x, h, position);
        let op = Op::Attend { softcap: self.config.attn_logit_softcap };
        let list = Seq::new(
            n as nat,
            |i: int| unit::value(unit, op, self.query(unit, factor, x, i, position), keys[i / self.group()], values[i / self.group()]),
        );
        drawing::answer_has_its_width(unit, op, self.query(unit, factor, x, h, position), keys[g], values[g]);
        assert(h / self.group() == g);
        side_row(list, w, h);
    }

    /// A row sees the filled positions up to its own, and where there is a window only the last of
    /// them, as many as the window says, its own among them.
    pub proof fn row_sees_its_window(self, filled: int, position: int, q: int)
        requires
            0 <= filled,
            0 <= position,
        ensures
            ({
                let start = self.first_seen(position);
                let len = attention::visible(filled, start, position);
                let w = self.config.sliding_window;
                (start <= q < start + len) <==> (0 <= q <= position && q < filled && (w is None || position - q < w.unwrap()))
            }),
    {
    }

    /// In a batched step a row sees what is filled in its slot, at least one position and no more than
    /// there are, and where there is a window only the last of them.
    pub proof fn batched_row_sees_its_window(self, len: int, max_len: int, q: int)
        requires
            0 <= len,
            0 < max_len,
        ensures
            ({
                let filled = attention::batch_filled(len, max_len);
                let start = attention::window_start(self.config.sliding_window, filled);
                let w = self.config.sliding_window;
                &&& len > max_len ==> filled == max_len
                &&& 1 <= len <= max_len ==> filled == len
                &&& len == 0 ==> filled == 1
                &&& (start <= q < filled) <==> (0 <= q < filled && (w is None || filled - 1 - q < w.unwrap()))
            }),
    {
    }

    /// The rows of a cache that a head sees are those of its own slot and head at the positions from
    /// `start` on, in their order.
    pub proof fn cached_rows_are_seen_in_order(
        self,
        t: TensorModel,
        slot: int,
        start: int,
        len: int,
        batch: usize,
        max_len: usize,
        g: int,
        c: int,
    )
        requires
            cache::shaped(t, batch, self.config.kv_heads(), max_len, self.config.head_width()),
            0 <= slot < batch,
            0 <= g < self.config.kv_heads(),
            0 <= start,
            start + len <= max_len,
            0 <= c < len,
        ensures
            ({
                let w = self.config.head_width() as int;
                self.seen(t, slot, start, len, max_len as int)[g].subrange(c * w, c * w + w) == stretch(
                    t,
                    ((slot * self.config.kv_heads() + g) * max_len + start + c) * w,
                    w as nat,
                )
            }),
    {
        let w = self.width();
        let kv = self.config.kv_heads();
        let first = cache::row_number(slot, g, start, kv as int, max_len as int);
        let list = Seq::new(len as nat, |i: int| t.chunk(first + i, w));
        assert forall|i: int| 0 <= i < list.len() implies t.chunk(
            #[trigger] cache::row_number(slot, g, start + i, kv as int, max_len as int),
            w,
        ) == list[i] by {
            assert(cache::row_number(slot, g, start + i, kv as int, max_len as int) == first + i);
        }
        attention::slot_span_is_rows(t, slot, g, start, list, batch, kv, max_len, self.config.head_width());
        assert(list[c].len() == w);
        side_row(list, w, c);
        assert(list[c] =~= stretch(t, ((slot * kv + g) * max_len + start + c) * w, w as nat));
    }
}

/// A part of a row lies inside it.
proof fn part_inside(h: int, count: int, w: int)
    requires
        0 <= h < count,
        0 <= w,
    ensures
        0 <= h * w,
        h * w + w <= count * w,
{
    assert(0 <= h * w && h * w + w <= count * w) by (nonlinear_arith)
        requires
            0 <= h < count,
            0 <= w,
    ;
}

/// A head's row is prepared by norm and rotation.
proof fn prepared_is_head_row<F: Fn(Op, &[u32], &[u32], &[u32]) -> Vec<u32>>(
    unit: F,
    norm: Option<RmsNorm>,
    rotated: bool,
    theta: Real,
    factor: Real,
    raw: Seq<u32>,
    head: int,
    position: int,
)
    ensures
        heads::prepared(
            unit,
            norm,
            if rotated {
                Some((theta, factor))
            } else {
                None
            },
            raw,
            head,
            position,
        ) == head_row(unit, norm, rotated, theta, factor, raw, head, position),
{
    if let Some(n) = norm {
        assert(n.weight@.chunk(head, raw.len() as int) =~= stretch(n.weight@, head * raw.len(), raw.len()));
    }
}

impl TransformerLayer {
    /// What a block takes for a row: the row normalized; or the row less its norm, where there is a
    /// norm to be taken away.
    pub open spec fn taken_by_block<F: Fn(Op, &[u32], &[u32], &[u32]) -> Vec<u32>>(self, unit: F, norm: RmsNorm, x: Seq<u32>) -> Seq<u32> {
        if self.sub_ln is Some {
            of_two(unit, Op::Minus, x, self.sub_ln.unwrap().image(unit, x))
        } else {
            norm.image(unit, x)
        }
    }

    /// A layer adds to its row what attention makes of it, and to that sum what the feed-forward block
    /// makes of the sum: each block takes the row normalized, and in the feed-forward block gated
    /// and upward rows meet in the activation before they are mapped down.
    pub proof fn layer_adds_what_its_blocks_make<F: Fn(Op, &[u32], &[u32], &[u32]) -> Vec<u32>>(
        self,
        unit: F,
        factor: Real,
        x: Seq<u32>,
        position: int,
        keys: Seq<Seq<u32>>,
        values: Seq<Seq<u32>>,
    )
        ensures
            ({
                let a = self.taken_by_block(unit, self.attn_norm, x);
                let attended = self.attention.o_proj.sole_image(unit, self.attention.mixed(unit, factor, a, position, keys, values));
                let h = of_two(unit, Op::Plus, x, attended);
                let b = self.taken_by_block(unit, self.ffn_norm, h);
                let up = self.ffn_up.sole_image(unit, b);
                let inner = if self.config.activation is Gelu {
                    of_two(unit, Op::Gate(Activation::Gelu), up, Seq::empty())
                } else {
                    of_two(unit, Op::Gate(self.config.activation), self.ffn_gate.sole_image(unit, b), up)
                };
                let down = self.ffn_down.sole_image(unit, inner);
                let out = if self.post_ffn_norm is Some {
                    self.post_ffn_norm.unwrap().image(unit, down)
                } else {
                    down
                };
                self.step(unit, factor, x, position, keys, values) == of_two(unit, Op::Plus, h, out)
            }),
    {
    }

    /// The keys and values that a row sees in a sequence are those of the rows from `start` on, in
    /// their order: each is made of the row at its own place, and a key also of its own position.
    pub proof fn rows_are_seen_in_order<F: Fn(Op, &[u32], &[u32], &[u32]) -> Vec<u32>>(
        self,
        unit: F,
        factor: Real,
        entering: Seq<Seq<u32>>,
        position: int,
        start: int,
        len: int,
        g: int,
        c: int,
    )
        requires
            unit::lawful(unit),
            0 <= start,
            start + len <= entering.len(),
            0 <= c < len,
            0 <= g < self.attention.config.kv_heads(),
            self.attention.fits(self.taken_by_block(unit, self.attn_norm, entering[start + c]).len() as int),
        ensures
            ({
                let w = self.attention.config.head_width() as int;
                let row = self.taken_by_block(unit, self.attn_norm, entering[start + c]);
                &&& self.keys_between(unit, factor, entering, position, start, len)[g].subrange(c * w, c * w + w) == self.attention.key(
                    unit,
                    factor,
                    row,
                    g,
                    position + start + c,
                )
                &&& self.values_between(unit, entering, start, len)[g].subrange(c * w, c * w + w) == self.attention.value(unit, row, g)
            }),
    {
        let w = self.attention.width();
        let row = self.taken_by_block(unit, self.attn_norm, entering[start + c]);
        self.attention.heads_are_parts_of_projected_rows(unit, factor, row, g, position + start + c);
        let keys = Seq::new(len as nat, |t: int| self.key_row(unit, factor, entering[start + t], g, position + start + t));
        let values = Seq::new(len as nat, |t: int| self.value_row(unit, entering[start + t], g));
        side_row(keys, w, c);
        side_row(values, w, c);
    }
}

impl Network {
    /// A token enters as its row of the table of embeddings; where positions are learned, the row of
    /// its position is added, that of the last one for positions beyond the table.
    pub proof fn token_enters_with_its_position<F: Fn(Op, &[u32], &[u32], &[u32]) -> Vec<u32>>(self, unit: F, tokens: Seq<u32>, p: int)
        requires
            0 <= p < tokens.len(),
        ensures
            self.pos_embedding is None ==> self.state(unit, tokens, 0, p) == self.embedding.row(tokens[p]),
            self.pos_embedding matches Some(t) ==> ({
                let last = if self.config.position_embeddings is Some && self.config.position_embeddings.unwrap() > 0 {
                    self.config.position_embeddings.unwrap() - 1
                } else {
                    0
                };
                self.state(unit, tokens, 0, p) == of_two(
                    unit,
                    Op::Plus,
                    self.embedding.row(tokens[p]),
                    stretch(
                        t@,
                        (if p <= last {
                            p
                        } else {
                            last
                        }) * self.config.hidden_size,
                        self.config.hidden_size as nat,
                    ),
                )
            }),
    {
        reveal(Network::state);
        if let Some(t) = self.pos_embedding {
            let at = self.placed(p);
            assert(t@.chunk(at, self.hidden()) =~= stretch(t@, at * self.config.hidden_size, self.config.hidden_size as nat));
        }
    }

    /// Layer after layer, in their order: the row that leaves a layer at a position is what the layer
    /// makes of the row that entered it there, given the keys and values of the rows that entered it at
    /// the positions which the row sees.
    pub proof fn layers_follow_one_another<F: Fn(Op, &[u32], &[u32], &[u32]) -> Vec<u32>>(self, unit: F, tokens: Seq<u32>, l: int, p: int)
        requires
            0 <= l < self.layers.len(),
            0 <= p < tokens.len(),
        ensures
            ({
                let layer = self.layers[l];
                let rows = Seq::new((p + 1) as nat, |q: int| self.state(unit, tokens, l, q));
                let w = layer.attention.config.sliding_window;
                let start = if w is Some && p + 1 > w.unwrap() {
                    p + 1 - w.unwrap()
                } else {
                    0
                };
                self.state(unit, tokens, l + 1, p) == layer.step(
                    unit,
                    self.config.stretch(),
                    rows[p],
                    p,
                    layer.keys_between(unit, self.config.stretch(), rows, 0, start, p + 1 - start),
                    layer.values_between(unit, rows, start, p + 1 - start),
                )
            }),
    {
        reveal(Network::state);
        let rows = Seq::new((p + 1) as nat, |q: int| self.state(unit, tokens, l, q));
        assert(rows =~= self.entering(unit, tokens, l, (p + 1) as nat));
    }

    /// The scores that follow a sequence are those of its last row after the last layer: normalized,
    /// mapped to a score for each token, and limited softly where there is a limit.
    pub proof fn scores_are_read_from_the_last_row<F: Fn(Op, &[u32], &[u32], &[u32]) -> Vec<u32>>(self, unit: F, tokens: Seq<u32>)
        ensures
            ({
                let row = self.state(unit, tokens, self.layers.len() as int, tokens.len() - 1);
                let scores = self.lm_head.sole_image(unit, self.norm.image(unit, row));
                self.scores_after(unit, tokens) == (if self.config.final_logit_softcap is Some {
                    of_two(unit, Op::Softcap { cap: self.config.final_logit_softcap.unwrap() }, scores, Seq::empty())
                } else {
                    scores
                })
            }),
    {
    }
}

} // verus!
