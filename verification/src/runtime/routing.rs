//! Packets on their ways.
use super::sampler;
use super::scheduler;
use super::scheduler::{Graph, MatMulNode, Node, NodeId, Packet, Scheduler, SinkNode, SparsifyNode};
use super::worth;
use crate::tensor::pnword;
use crate::tensor::pnword::PNActivation256;
use vstd::arithmetic::power2;
use vstd::prelude::*;

verus! {

/// One packet has gone to each of the nodes, in their order, with the same trits and a life of `ttl`
/// hops, and each was stamped by the clock in its turn.
pub open spec fn gone_to(out: Seq<Packet>, activation: PNActivation256, to: Seq<NodeId>, clock: u64, ttl: u8) -> bool {
    &&& out.len() == to.len()
    &&& forall|i: int| 0 <= i < to.len() ==> {
        &&& (#[trigger] out[i]).destination == to[i]
        &&& out[i].activation == activation
        &&& out[i].ttl == ttl
        &&& out[i].priority == 0
        &&& out[i].timestamp == (clock + i) % 0x1_0000_0000_0000_0000
    }
}

proof fn sent_have_gone(activation: PNActivation256, to: Seq<NodeId>, clock: u64, ttl: u8)
    ensures
        gone_to(scheduler::sent(activation, to, clock, ttl), activation, to, clock, ttl),
{
    let out = scheduler::sent(activation, to, clock, ttl);
    assert forall|i: int| 0 <= i < to.len() implies {
        &&& (#[trigger] out[i]).destination == to[i]
        &&& out[i].activation == activation
        &&& out[i].ttl == ttl
        &&& out[i].priority == 0
        &&& out[i].timestamp == (clock + i) % 0x1_0000_0000_0000_0000
    } by {
        scheduler::clock_shows(clock, i as nat);
    }
}

/// A node with weights hands a packet on to each of its successors, with sixteen hops to live.
pub proof fn weights_hand_packets_on(node: MatMulNode, p: Packet, clock: u64, after: MatMulNode, later: u64, out: Seq<Packet>)
    requires
        node.answers(p, clock, after, later, out),
    ensures
        gone_to(out, p.activation, node.successors@, clock, 16),
        after == node,
        later == (clock + node.successors@.len()) % 0x1_0000_0000_0000_0000,
{
    sent_have_gone(p.activation, node.successors@, clock, 16);
    scheduler::clock_shows(clock, node.successors@.len());
}

/// A sink hands nothing on, and counts.
pub proof fn sinks_count_packets(node: SinkNode, p: Packet, clock: u64, after: SinkNode, later: u64, out: Seq<Packet>)
    requires
        node.answers(p, clock, after, later, out),
    ensures
        out.len() == 0,
        node.received < u64::MAX ==> after.received == node.received + 1,
        node.received == u64::MAX ==> after.received == 0,
        after.name == node.name,
        later == clock,
{
}

/// The threshold is the share of 128 trits that a float tells, without the rest.
pub proof fn threshold_is_a_share_of_the_trits(s: u32)
    requires
        worth::finite(s as int),
        0 <= worth::worth(s as int) < worth::one(),
        s < 0x8000_0000,
    ensures
        scheduler::threshold(s) * worth::one() <= 128 * worth::worth(s as int) < (scheduler::threshold(s) + 1) * worth::one(),
        scheduler::threshold(s) < 128,
{
    let e = worth::exponent(s as int);
    let low = if e > 1 {
        e
    } else {
        1
    };
    let m = if e == 0 {
        worth::mantissa(s as int)
    } else {
        0x80_0000 + worth::mantissa(s as int)
    };
    power2::lemma2_to64();
    let space = power2::pow2((low - 1) as nat) as int;
    power2::lemma_pow2_pos((low - 1) as nat);
    assert(worth::spacing(s as int) == space);
    assert(worth::worth(s as int) == m * space);
    if low > 126 {
        power2::lemma_pow2_adds(126, (low - 127) as nat);
        power2::lemma_pow2_pos((low - 127) as nat);
        power2::lemma_pow2_adds(23, 126);
        let p = power2::pow2(126) as int;
        let q = power2::pow2((low - 127) as nat) as int;
        power2::lemma_pow2_pos(126);
        assert(m * space >= 0x80_0000 * p) by (nonlinear_arith)
            requires
                m >= 0x80_0000,
                space == p * q,
                p > 0,
                q >= 1,
        ;
        assert(false);
    }
    let down = 143 - low;
    let d = power2::pow2(down as nat) as int;
    power2::lemma_pow2_pos(down as nat);
    power2::lemma_pow2_adds(down as nat, (low - 1) as nat);
    power2::lemma_pow2_adds(7, 142);
    let t = m / d;
    vstd::arithmetic::div_mod::lemma_fundamental_div_mod(m, d);
    vstd::arithmetic::div_mod::lemma_mod_bound(m, d);
    vstd::arithmetic::div_mod::lemma_div_pos_is_pos(m, d);
    assert(scheduler::threshold(s) == t) by {
        assert(s as int / 0x80_0000 == e);
        assert(!sampler::is_nan(s)) by {
            worth::at_most_is_worth_no_more(s, s);
        }
    }
    let one = worth::one();
    assert(power2::pow2(142) as int == d * space);
    assert(one == 128 * (d * space));
    assert(t * one <= 128 * (m * space) < (t + 1) * one) by (nonlinear_arith)
        requires
            one == 128 * (d * space),
            m == d * t + m % d,
            0 <= m % d < d,
            space > 0,
    ;
    assert(t < 128) by (nonlinear_arith)
        requires
            t * one <= 128 * (m * space),
            m * space < one,
            one > 0,
    ;
}

proof fn shifted_out(m: u128, t: u128, k: u128)
    requires
        t <= k < 128,
        m >> t == 0,
    ensures
        (m >> k) & 1 == 0,
{
    assert((m >> k) & 1 == 0) by (bit_vector)
        requires
            t <= k,
            k < 128,
            m >> t == 0,
    ;
}

proof fn none_is_left(m: u128, t: int, j: int)
    requires
        0 <= t <= j <= 127,
        forall|k: int| t <= k < 128 ==> !#[trigger] pnword::mask_bit(m, k),
    ensures
        m >> (j as u128) == 0,
    decreases 127 - j,
{
    assert(!pnword::mask_bit(m, j));
    let a = j as u128;
    if j == 127 {
        assert(m >> 127u128 == 0) by (bit_vector)
            requires
                (m >> 127u128) & 1 != 1,
        ;
    } else {
        none_is_left(m, t, j + 1);
        let b = (j + 1) as u128;
        assert(m >> a == 0) by (bit_vector)
            requires
                b == a + 1,
                a < 127,
                m >> b == 0,
                (m >> a) & 1 != 1,
        ;
    }
}

/// A node of more than half a share lets a packet die just where no trit from its share on is
/// active; other packets go on with sixteen hops to live.
pub proof fn sparse_packets_die(node: SparsifyNode, p: Packet, clock: u64, after: SparsifyNode, later: u64, out: Seq<Packet>)
    requires
        node.answers(p, clock, after, later, out),
        worth::finite(node.sparsity as int),
        0 <= worth::worth(node.sparsity as int) < worth::one(),
        node.sparsity < 0x8000_0000,
    ensures
        ({
            let t = scheduler::threshold(node.sparsity) as int;
            let quiet = forall|k: int| t <= k < 128 ==> !#[trigger] pnword::mask_bit(p.activation.active_mask, k);
            gone_to(
                out,
                p.activation,
                node.successors@,
                clock,
                if quiet && 2 * worth::worth(node.sparsity as int) > worth::one() {
                    0
                } else {
                    16
                },
            )
        }),
        after == node,
        later == (clock + node.successors@.len()) % 0x1_0000_0000_0000_0000,
{
    let s = node.sparsity;
    let t = scheduler::threshold(s) as int;
    let m = p.activation.active_mask;
    threshold_is_a_share_of_the_trits(s);
    scheduler::clock_shows(clock, node.successors@.len());
    sent_have_gone(p.activation, node.successors@, clock, 0);
    sent_have_gone(p.activation, node.successors@, clock, 16);
    assert(worth::exponent(0x3f00_0000) == 126 && worth::mantissa(0x3f00_0000) == 0);
    power2::lemma_pow2_adds(24, 125);
    power2::lemma2_to64();
    let gap = power2::pow2(125) as int;
    assert(worth::worth(0x3f00_0000) == 0x80_0000 * gap);
    assert(worth::one() == 0x100_0000 * gap);
    worth::at_most_is_worth_no_more(s, 0x3f00_0000);
    let quiet = forall|k: int| t <= k < 128 ==> !#[trigger] pnword::mask_bit(m, k);
    if m >> (t as u128) == 0 {
        assert forall|k: int| t <= k < 128 implies !#[trigger] pnword::mask_bit(m, k) by {
            shifted_out(m, t as u128, k as u128);
        }
    } else if quiet {
        none_is_left(m, t, t);
    }
}

/// Of the packets that a node hands on, those with a hop left after the next go on, in their order,
/// with one hop less.
pub proof fn packets_lose_a_hop(a: Seq<Packet>, p: Packet, b: Seq<Packet>)
    ensures
        p.ttl >= 2 ==> scheduler::going_on(a.push(p)) == scheduler::going_on(a).push(Packet { ttl: (p.ttl - 1) as u8, ..p }),
        p.ttl <= 1 ==> scheduler::going_on(a.push(p)) == scheduler::going_on(a),
        scheduler::going_on(a + b) == scheduler::going_on(a) + scheduler::going_on(b),
        scheduler::going_on(Seq::empty()).len() == 0,
    decreases b.len(),
{
    assert(a.push(p).drop_last() =~= a);
    if b.len() == 0 {
        assert(a + b =~= a);
        assert(scheduler::going_on(a) + scheduler::going_on(b) =~= scheduler::going_on(a));
    } else {
        packets_lose_a_hop(a, p, b.drop_last());
        assert((a + b).drop_last() =~= a + b.drop_last());
        assert(scheduler::going_on(a + b) =~= scheduler::going_on(a) + scheduler::going_on(b));
    }
}

/// A step takes the packet that has waited longest; the others move up, and what follows from it
/// waits behind them. It is processed, and each packet that follows waits or is dropped.
pub proof fn packets_wait_in_line<N: Node>(before: Scheduler<N>, clock: u64, after: Scheduler<N>, later: u64, out: Seq<Packet>, i: int)
    requires
        before.stepped(clock, after, later, out),
    ensures
        before.graph.answered(before.queue@[0], clock, after.graph, later, out),
        0 <= i < before.queue@.len() - 1 ==> after.queue@[i] == before.queue@[i + 1],
        0 <= i < scheduler::going_on(out).len() ==> after.queue@[before.queue@.len() - 1 + i] == scheduler::going_on(out)[i],
        after.queue@.len() == before.queue@.len() - 1 + scheduler::going_on(out).len(),
        after.packets_processed == before.packets_processed + 1,
        before.packets_dropped + out.len() <= u64::MAX ==> after.packets_dropped - before.packets_dropped + scheduler::going_on(out).len()
            == out.len(),
{
}

/// A packet for a node of the graph is answered by that node, and no other node changes; one for a
/// node that is not there is lost.
pub proof fn packets_reach_their_nodes<N: Node>(g: Graph<N>, p: Packet, clock: u64, after: Graph<N>, later: u64, out: Seq<Packet>, i: int)
    requires
        g.answered(p, clock, after, later, out),
    ensures
        p.destination.0 < g.nodes@.len() ==> g.nodes@[p.destination.0 as int].answers(p, clock, after.nodes@[p.destination.0 as int], later, out),
        0 <= i < g.nodes@.len() && i != p.destination.0 ==> after.nodes@[i] == g.nodes@[i],
        p.destination.0 >= g.nodes@.len() ==> out.len() == 0 && later == clock,
        after.nodes@.len() == g.nodes@.len(),
        after.adjacency == g.adjacency,
{
}

/// The edges of a number are those that stand with it first.
pub proof fn first_edges_count<N: Node>(g: Graph<N>, id: NodeId, i: int)
    requires
        0 <= i <= g.adjacency@.len(),
        i < g.adjacency@.len() ==> g.adjacency@[i].0 == id,
        forall|j: int| 0 <= j < i ==> (#[trigger] g.adjacency@[j]).0 != id,
    ensures
        g.edges(id) == (if i < g.adjacency@.len() {
            Some(g.adjacency@[i].1@)
        } else {
            None
        }),
{
    first_place(g.adjacency@, id, i, 0);
}

proof fn first_place(list: Seq<(NodeId, Vec<NodeId>)>, id: NodeId, i: int, k: int)
    requires
        0 <= k <= i <= list.len(),
        i < list.len() ==> list[i].0 == id,
        forall|j: int| 0 <= j < i ==> (#[trigger] list[j]).0 != id,
    ensures
        scheduler::place_of(list, id, k) == (if i < list.len() {
            Some(i)
        } else {
            None
        }),
    decreases i - k,
{
    if k < i {
        assert(list[k].0 != id);
        first_place(list, id, i, k + 1);
    }
}

} // verus!
