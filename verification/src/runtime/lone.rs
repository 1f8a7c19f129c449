//! Rows that see only themselves, and rows with biases of their own.
use super::config::Real;
use super::layers::Linear;
use super::network::Network;
use super::pass;
use super::transformer::TransformerLayer;
use super::unit;
use super::unit::Op;
use vstd::prelude::*;

verus! {

impl Linear {
    /// A bias with several rows gives each row its own: row `i` gets row `i` of the bias. A bias with
    /// one row is the same for all.
    pub proof fn rows_have_their_own_biases<F: Fn(Op, &[u32], &[u32], &[u32]) -> Vec<u32>>(self, unit: F, x: Seq<u32>, i: int)
        requires
            self.bias is Some,
            0 <= i,
        ensures
            ({
                let b = self.bias.unwrap()@;
                let plain = Linear { bias: None, ..self }.image(unit, x, i);
                &&& b.shape.len() == 2 ==> self.image(unit, x, i) == pass::of_two(
                    unit,
                    Op::Plus,
                    plain,
                    pass::stretch(b, i * b.shape[1], b.shape[1] as nat),
                )
                &&& b.shape.len() == 1 ==> self.image(unit, x, i) == pass::of_two(unit, Op::Plus, plain, pass::stretch(b, 0, b.count()))
            }),
    {
        let b = self.bias.unwrap()@;
        if b.shape.len() == 2 {
            assert(b.row(i) =~= pass::stretch(b, i * b.shape[1], b.shape[1] as nat));
        } else {
            assert(b.lanes() =~= pass::stretch(b, 0, b.count()));
        }
    }
}

impl TransformerLayer {
    /// A row that sees only itself is run as one of a sequence that sees one key and one value for each
    /// head, its own; where the window is zero it sees none.
    pub proof fn lone_row_sees_itself<F: Fn(Op, &[u32], &[u32], &[u32]) -> Vec<u32>>(self, unit: F, factor: Real, x: Seq<u32>, position: int)
        requires
            unit::lawful(unit),
            self.attention.fits(self.taken_by_block(unit, self.attn_norm, x).len() as int),
        ensures
            ({
                let a = self.attention;
                let y = self.taken_by_block(unit, self.attn_norm, x);
                let n = a.config.kv_heads() as nat;
                let keys = Seq::new(n, |g: int| a.key(unit, factor, y, g, position));
                let values = Seq::new(n, |g: int| a.value(unit, y, g));
                let none = Seq::new(n, |g: int| Seq::<u32>::empty());
                &&& a.config.sliding_window != Some(0usize) ==> self.lone_step(unit, factor, x, position) == self.step(
                    unit,
                    factor,
                    x,
                    position,
                    keys,
                    values,
                )
                &&& a.config.sliding_window == Some(0usize) ==> self.lone_step(unit, factor, x, position) == self.step(
                    unit,
                    factor,
                    x,
                    position,
                    none,
                    none,
                )
            }),
    {
        let a = self.attention;
        let y = self.taken_by_block(unit, self.attn_norm, x);
        let n = a.kv() as nat;
        let m = a.lone_len() as nat;
        let w = a.width();
        let ks = Seq::new(n, |g: int| super::attention::side_by_side(Seq::new(m, |t: int| a.key(unit, factor, y, g, position)), w));
        let vs = Seq::new(n, |g: int| super::attention::side_by_side(Seq::new(m, |t: int| a.value(unit, y, g)), w));
        let keys = Seq::new(n, |g: int| a.key(unit, factor, y, g, position));
        let values = Seq::new(n, |g: int| a.value(unit, y, g));
        let none = Seq::new(n, |g: int| Seq::<u32>::empty());
        if a.config.sliding_window == Some(0usize) {
            assert(m == 0);
            assert forall|g: int| 0 <= g < n implies ks[g] =~= none[g] && vs[g] =~= none[g] by {
                nothing_side_by_side(w);
                assert(Seq::new(m, |t: int| a.key(unit, factor, y, g, position)) =~= Seq::<Seq<u32>>::empty());
                assert(Seq::new(m, |t: int| a.value(unit, y, g)) =~= Seq::<Seq<u32>>::empty());
            }
            assert(ks =~= none);
            assert(vs =~= none);
        } else {
            assert(m == 1);
            assert forall|g: int| 0 <= g < n implies ks[g] =~= keys[g] && vs[g] =~= values[g] by {
                a.heads_are_parts_of_projected_rows(unit, factor, y, g, position);
                let k = Seq::new(m, |t: int| a.key(unit, factor, y, g, position));
                let v = Seq::new(m, |t: int| a.value(unit, y, g));
                one_side_by_side(k, w);
                one_side_by_side(v, w);
            }
            assert(ks =~= keys);
            assert(vs =~= values);
        }
    }
}

proof fn nothing_side_by_side(width: int)
    ensures
        super::attention::side_by_side(Seq::empty(), width).len() == 0,
{
}

proof fn one_side_by_side(list: Seq<Seq<u32>>, width: int)
    requires
        list.len() == 1,
        0 <= width,
        list[0].len() == width,
    ensures
        super::attention::side_by_side(list, width) == list[0],
{
    pass::side_row(list, width, 0);
    let all = super::attention::side_by_side(list, width);
    assert(all.subrange(0, width) =~= all);
    assert(0 * width == 0);
}

impl Network {
    /// A token that is run without a cache at a position goes through all layers by itself, starting
    /// with its row of the table of embeddings and its position.
    pub proof fn lone_token_goes_through_the_layers<F: Fn(Op, &[u32], &[u32], &[u32]) -> Vec<u32>>(self, unit: F, token: u32, position: int, l: int)
        requires
            0 <= l < self.layers.len(),
        ensures
            self.lone_state(unit, token, position, 0) == self.entry(unit, token, position),
            self.lone_state(unit, token, position, l + 1) == self.layers[l].lone_step(
                unit,
                self.config.stretch(),
                self.lone_state(unit, token, position, l),
                position,
            ),
            self.pos_embedding is None ==> self.entry(unit, token, position) == self.embedding.row(token),
    {
        reveal_with_fuel(Network::lone_state, 2);
    }
}

} // verus!
