//! A scheduler that routes packets of packed trits through a graph of nodes.
use super::sampler;
use crate::tensor::pnword::{PNActivation256, PNWeight256};
use std::collections::VecDeque;
use vstd::prelude::*;

verus! {

/// The number of a node in a graph.
#[derive(Debug, Clone, Copy, PartialEq, Eq, Structural)]
pub struct NodeId(pub u32);

/// Trits on their way to a node.
#[derive(Debug, Clone, Copy)]
pub struct Packet {
    pub activation: PNActivation256,
    pub destination: NodeId,
    pub priority: u8,
    /// How many more hops the packet may take.
    pub ttl: u8,
    pub timestamp: u64,
}

/// A fresh packet, stamped by a clock.
pub open spec fn fresh(activation: PNActivation256, destination: NodeId, clock: u64) -> Packet {
    Packet { activation, destination, priority: 0, ttl: 16, timestamp: clock }
}

/// What a clock shows after one more stamp; it starts over when it is full.
pub open spec fn ticked(clock: u64) -> u64 {
    if clock == u64::MAX {
        0
    } else {
        (clock + 1) as u64
    }
}

/// What a clock shows after `n` stamps.
pub open spec fn ticked_by(clock: u64, n: nat) -> u64
    decreases n,
{
    if n == 0 {
        clock
    } else {
        ticked(ticked_by(clock, (n - 1) as nat))
    }
}

/// What a clock shows after `n` stamps, as a number.
pub proof fn clock_shows(clock: u64, n: nat)
    ensures
        ticked_by(clock, n) == (clock + n) % 0x1_0000_0000_0000_0000,
    decreases n,
{
    if n > 0 {
        clock_shows(clock, (n - 1) as nat);
        let m = clock + n - 1;
        let full = 0x1_0000_0000_0000_0000int;
        assert(m % full == full - 1 ==> (m + 1) % full == 0);
        assert(m % full < full - 1 ==> (m + 1) % full == m % full + 1);
    }
}

/// One clock never shows the same for two stamps, unless it has started over in between: packets
/// that it stamps can be told apart, whichever schedulers they are in.
pub proof fn stamps_differ(clock: u64, m: nat, n: nat)
    requires
        m < n < m + 0x1_0000_0000_0000_0000,
    ensures
        ticked_by(clock, m) != ticked_by(clock, n),
{
    clock_shows(clock, m);
    clock_shows(clock, n);
    let full = 0x1_0000_0000_0000_0000int;
    if (clock + m) % full == (clock + n) % full {
        vstd::arithmetic::div_mod::lemma_fundamental_div_mod(clock + m, full);
        vstd::arithmetic::div_mod::lemma_fundamental_div_mod(clock + n, full);
        let d = (clock + n) / full - (clock + m) / full;
        assert(n - m == full * d);
    }
}

/// Stamps once.
fn tick(clock: &mut u64) -> (r: u64)
    ensures
        r == *old(clock),
        *final(clock) == ticked(*old(clock)),
{
    let now: u64 = *clock;
    *clock = if now == u64::MAX { 0 } else { now + 1 };
    now
}

impl Packet {
    /// A packet with all its hops before it, stamped by the clock.
    pub fn new(activation: PNActivation256, destination: NodeId, clock: &mut u64) -> (r: Packet)
        ensures
            r == fresh(activation, destination, *old(clock)),
            *final(clock) == ticked(*old(clock)),
    {
        let timestamp: u64 = tick(clock);
        Packet { activation, destination, priority: 0, ttl: 16, timestamp }
    }

    /// Whether the packet may take another hop.
    pub open spec fn alive(self) -> bool {
        self.ttl > 0
    }

    /// Whether the packet may take another hop.
    pub fn is_alive(&self) -> (r: bool)
        ensures
            r == self.alive(),
    {
        self.ttl > 0
    }
}

/// A node of a graph.
pub trait Node: Sized {
    /// The node may answer a packet with `out`, and become `after`, while the clock goes on.
    spec fn answers(self, packet: Packet, clock: u64, after: Self, later: u64, out: Seq<Packet>) -> bool;

    /// The node's number, as far as it knows it.
    fn id(&self) -> NodeId;

    /// Takes a packet and gives the packets that follow from it.
    fn process(&mut self, packet: &Packet, clock: &mut u64) -> (out: Vec<Packet>)
        ensures
            old(self).answers(*packet, *old(clock), *final(self), *final(clock), out@),
    ;

    /// The node's name.
    fn name(&self) -> String;
}

/// A fresh packet for each of several nodes.
pub open spec fn sent(activation: PNActivation256, to: Seq<NodeId>, clock: u64, ttl: u8) -> Seq<Packet> {
    Seq::new(to.len(), |i: int| Packet { ttl, ..fresh(activation, to[i], ticked_by(clock, i as nat)) })
}

/// Makes a fresh packet for each of several nodes.
fn send(activation: PNActivation256, to: &Vec<NodeId>, clock: &mut u64, ttl: u8) -> (out: Vec<Packet>)
    ensures
        out@ == sent(activation, to@, *old(clock), ttl),
        *final(clock) == ticked_by(*old(clock), to@.len()),
{
    let n: usize = to.len();
    let mut out: Vec<Packet> = Vec::new();
    let mut i: usize = 0;
    while i < n
        invariant
            n == to@.len(),
            i <= n,
            *clock == ticked_by(*old(clock), i as nat),
            out@ == sent(activation, to@, *old(clock), ttl).take(i as int),
        decreases n - i,
    {
        let mut p: Packet = Packet::new(activation, to[i], clock);
        p.ttl = ttl;
        out.push(p);
        i = i + 1;
        assert(out@ =~= sent(activation, to@, *old(clock), ttl).take(i as int));
    }
    assert(out@ =~= sent(activation, to@, *old(clock), ttl));
    out
}

/// A node that takes the inner product with a fixed weight and passes the packet on.
#[derive(Debug)]
pub struct MatMulNode {
    pub id: NodeId,
    pub name: String,
    pub weight: PNWeight256,
    pub successors: Vec<NodeId>,
}

impl MatMulNode {
    /// A node with this weight.
    pub fn new(name: String, weight: PNWeight256, successors: Vec<NodeId>) -> (r: MatMulNode)
        ensures
            r == (MatMulNode { id: NodeId(0), name, weight, successors }),
    {
        MatMulNode { id: NodeId(0), name, weight, successors }
    }
}

impl Node for MatMulNode {
    open spec fn answers(self, packet: Packet, clock: u64, after: Self, later: u64, out: Seq<Packet>) -> bool {
        &&& after == self
        &&& out == sent(packet.activation, self.successors@, clock, 16)
        &&& later == ticked_by(clock, self.successors@.len())
    }

    fn id(&self) -> (r: NodeId)
        ensures
            r == self.id,
    {
        self.id
    }

    fn process(&mut self, packet: &Packet, clock: &mut u64) -> (out: Vec<Packet>) {
        let _product: i32 = packet.activation.dot(&self.weight);
        send(packet.activation, &self.successors, clock, 16)
    }

    fn name(&self) -> (r: String)
        ensures
            r@ == self.name@,
    {
        self.name.clone()
    }
}

/// A node that counts the packets it receives and sends none.
#[derive(Debug)]
pub struct SinkNode {
    pub name: String,
    pub received: u64,
}

impl SinkNode {
    /// A sink that has received nothing.
    pub fn new(name: String) -> (r: SinkNode)
        ensures
            r == (SinkNode { name, received: 0 }),
    {
        SinkNode { name, received: 0 }
    }
}

impl Node for SinkNode {
    open spec fn answers(self, packet: Packet, clock: u64, after: Self, later: u64, out: Seq<Packet>) -> bool {
        &&& after == (SinkNode { received: ticked(self.received), ..self })
        &&& out == Seq::<Packet>::empty()
        &&& later == clock
    }

    fn id(&self) -> (r: NodeId)
        ensures
            r == NodeId(0),
    {
        NodeId(0)
    }

    fn process(&mut self, packet: &Packet, clock: &mut u64) -> (out: Vec<Packet>) {
        let _before: u64 = tick(&mut self.received);
        Vec::new()
    }

    fn name(&self) -> (r: String)
        ensures
            r@ == self.name@,
    {
        self.name.clone()
    }
}

/// The whole part of 128 times a float below one; zero for what is no positive number.
pub open spec fn threshold(sparsity: u32) -> nat {
    if sparsity >= 0x8000_0000 || sampler::is_nan(sparsity) {
        0
    } else {
        let e = sparsity / 0x80_0000;
        let m = (sparsity % 0x80_0000) + (if e > 0 {
            0x80_0000int
        } else {
            0
        });
        let down = 143 - (if e > 1 {
            e as int
        } else {
            1
        });
        if down >= 0 {
            (m / (vstd::arithmetic::power2::pow2(down as nat) as int)) as nat
        } else {
            128
        }
    }
}

/// Computes the threshold of a sparsity, at most 128.
fn threshold_of(sparsity: u32) -> (r: u32)
    ensures
        threshold(sparsity) < 128 ==> r == threshold(sparsity),
        threshold(sparsity) >= 128 ==> r == 128,
{
    if sparsity >= 0x8000_0000 || sampler::test_nan(sparsity) {
        return 0;
    }
    let e: u32 = sparsity / 0x80_0000;
    let m: u32 = if e > 0 { (sparsity % 0x80_0000) + 0x80_0000 } else { sparsity % 0x80_0000 };
    let up: u32 = if e > 1 { e } else { 1 };
    if up > 143 {
        return 128;
    }
    let down: u32 = 143 - up;
    if down >= 32 {
        proof {
            vstd::arithmetic::power2::lemma2_to64();
            vstd::arithmetic::power2::lemma_pow2_strictly_increases(31, down as nat);
            vstd::arithmetic::div_mod::lemma_basic_div(m as int, vstd::arithmetic::power2::pow2(down as nat) as int);
        }
        return 0;
    }
    proof {
        vstd::bits::lemma_u32_shr_is_div(m, down);
    }
    let t: u32 = m >> down;
    if t < 128 {
        t
    } else {
        128
    }
}

/// No trit at or past the threshold is active.
pub open spec fn quiet_past(activation: PNActivation256, t: nat) -> bool {
    t >= 128 || activation.active_mask >> (t as u128) == 0
}

/// A node that lets a packet die where the trits past its threshold are all zero, and passes it
/// on otherwise.
#[derive(Debug)]
pub struct SparsifyNode {
    pub name: String,
    /// The bits of the share of trits before the threshold.
    pub sparsity: u32,
    pub successors: Vec<NodeId>,
}

impl SparsifyNode {
    /// A node with this sparsity.
    pub fn new(name: String, sparsity: u32, successors: Vec<NodeId>) -> (r: SparsifyNode)
        requires
            threshold(sparsity) < 128,
        ensures
            r == (SparsifyNode { name, sparsity, successors }),
    {
        SparsifyNode { name, sparsity, successors }
    }

    /// The packet is to die.
    pub open spec fn kills(self, packet: Packet) -> bool {
        quiet_past(packet.activation, threshold(self.sparsity)) && !sampler::at_most(self.sparsity, 0x3f00_0000)
            && !sampler::is_nan(self.sparsity)
    }
}

impl Node for SparsifyNode {
    open spec fn answers(self, packet: Packet, clock: u64, after: Self, later: u64, out: Seq<Packet>) -> bool {
        let ttl = if self.kills(packet) {
            0u8
        } else {
            16u8
        };
        &&& after == self
        &&& out == sent(packet.activation, self.successors@, clock, ttl)
        &&& later == ticked_by(clock, self.successors@.len())
    }

    fn id(&self) -> (r: NodeId)
        ensures
            r == NodeId(0),
    {
        NodeId(0)
    }

    fn process(&mut self, packet: &Packet, clock: &mut u64) -> (out: Vec<Packet>) {
        let t: u32 = threshold_of(self.sparsity);
        let quiet: bool = t >= 128 || packet.activation.active_mask >> (t as u128) == 0;
        let sparse: bool = !sampler::test_nan(self.sparsity) && !sampler::test_at_most(self.sparsity, 0x3f00_0000);
        let ttl: u8 = if quiet && sparse { 0 } else { 16 };
        send(packet.activation, &self.successors, clock, ttl)
    }

    fn name(&self) -> (r: String)
        ensures
            r@ == self.name@,
    {
        self.name.clone()
    }
}

/// One of the nodes above, for graphs that mix them.
#[derive(Debug)]
pub enum BuiltinNode {
    MatMul(MatMulNode),
    Sparsify(SparsifyNode),
    Sink(SinkNode),
}

impl Node for BuiltinNode {
    open spec fn answers(self, packet: Packet, clock: u64, after: Self, later: u64, out: Seq<Packet>) -> bool {
        match (self, after) {
            (BuiltinNode::MatMul(a), BuiltinNode::MatMul(b)) => a.answers(packet, clock, b, later, out),
            (BuiltinNode::Sparsify(a), BuiltinNode::Sparsify(b)) => a.answers(packet, clock, b, later, out),
            (BuiltinNode::Sink(a), BuiltinNode::Sink(b)) => a.answers(packet, clock, b, later, out),
            _ => false,
        }
    }

    fn id(&self) -> (r: NodeId)
        ensures
            r == (match *self {
                BuiltinNode::MatMul(n) => n.id,
                _ => NodeId(0),
            }),
    {
        match self {
            BuiltinNode::MatMul(n) => n.id(),
            BuiltinNode::Sparsify(n) => n.id(),
            BuiltinNode::Sink(n) => n.id(),
        }
    }

    fn process(&mut self, packet: &Packet, clock: &mut u64) -> (out: Vec<Packet>) {
        match self {
            BuiltinNode::MatMul(n) => n.process(packet, clock),
            BuiltinNode::Sparsify(n) => n.process(packet, clock),
            BuiltinNode::Sink(n) => n.process(packet, clock),
        }
    }

    fn name(&self) -> (r: String)
        ensures
            r@ == (match *self {
                BuiltinNode::MatMul(n) => n.name@,
                BuiltinNode::Sparsify(n) => n.name@,
                BuiltinNode::Sink(n) => n.name@,
            }),
    {
        match self {
            BuiltinNode::MatMul(n) => n.name(),
            BuiltinNode::Sparsify(n) => n.name(),
            BuiltinNode::Sink(n) => n.name(),
        }
    }
}

/// Nodes, numbered in the order in which they were added, and the edges between them.
#[derive(Debug)]
pub struct Graph<N> {
    pub nodes: Vec<N>,
    /// The nodes that edges lead to, for each number that edges lead from.
    pub adjacency: Vec<(NodeId, Vec<NodeId>)>,
}

/// The place of a number among those that edges lead from, at or after place `i`.
pub open spec fn place_of(adjacency: Seq<(NodeId, Vec<NodeId>)>, id: NodeId, i: int) -> Option<int>
    decreases adjacency.len() - i,
{
    if i >= adjacency.len() {
        None
    } else if adjacency[i].0 == id {
        Some(i)
    } else {
        place_of(adjacency, id, i + 1)
    }
}

/// Where a number is found, it stands there.
proof fn place_found(adjacency: Seq<(NodeId, Vec<NodeId>)>, id: NodeId, i: int)
    requires
        0 <= i,
    ensures
        place_of(adjacency, id, i) matches Some(p) ==> i <= p < adjacency.len() && adjacency[p].0 == id,
    decreases adjacency.len() - i,
{
    if i < adjacency.len() && adjacency[i].0 != id {
        place_found(adjacency, id, i + 1);
    }
}

/// Only the numbers count for where a number is found.
proof fn place_same(a: Seq<(NodeId, Vec<NodeId>)>, b: Seq<(NodeId, Vec<NodeId>)>, id: NodeId, i: int)
    requires
        0 <= i,
        a.len() == b.len(),
        forall|j: int| 0 <= j < a.len() ==> (#[trigger] a[j]).0 == b[j].0,
    ensures
        place_of(a, id, i) == place_of(b, id, i),
    decreases a.len() - i,
{
    if i < a.len() {
        assert(a[i].0 == b[i].0);
        place_same(a, b, id, i + 1);
    }
}

/// A number added at the end is found there, unless it was found before; others are found where
/// they were.
proof fn place_added(a: Seq<(NodeId, Vec<NodeId>)>, entry: (NodeId, Vec<NodeId>), id: NodeId, i: int)
    requires
        0 <= i <= a.len(),
    ensures
        place_of(a.push(entry), id, i) == (match place_of(a, id, i) {
            Some(p) => Some(p),
            None => if entry.0 == id {
                Some(a.len() as int)
            } else {
                None
            },
        }),
    decreases a.len() - i,
{
    let b = a.push(entry);
    if i < a.len() {
        assert(b[i] == a[i]);
        place_added(a, entry, id, i + 1);
    } else {
        assert(b[i] == entry);
        assert(place_of(b, id, i + 1) is None);
    }
}

impl<N: Node> Graph<N> {
    /// The nodes that edges lead to from a number, if it is known.
    pub open spec fn edges(self, id: NodeId) -> Option<Seq<NodeId>> {
        match place_of(self.adjacency@, id, 0) {
            Some(p) => Some(self.adjacency@[p].1@),
            None => None,
        }
    }

    /// A graph without nodes.
    pub fn new() -> (r: Graph<N>)
        ensures
            r.nodes@.len() == 0,
            r.adjacency@.len() == 0,
    {
        Graph { nodes: Vec::new(), adjacency: Vec::new() }
    }

    /// The place of a number among those that edges lead from.
    fn find(&self, id: NodeId) -> (r: Option<usize>)
        ensures
            match r {
                Some(p) => place_of(self.adjacency@, id, 0) == Some(p as int) && p < self.adjacency@.len(),
                None => place_of(self.adjacency@, id, 0) is None,
            },
    {
        let n: usize = self.adjacency.len();
        let mut i: usize = 0;
        while i < n
            invariant
                n == self.adjacency@.len(),
                i <= n,
                place_of(self.adjacency@, id, 0) == place_of(self.adjacency@, id, i as int),
            decreases n - i,
        {
            if self.adjacency[i].0 == id {
                return Some(i);
            }
            i = i + 1;
        }
        None
    }

    /// Adds a node and gives its number: the first node has number zero.
    pub fn add_node(&mut self, node: N) -> (id: NodeId)
        requires
            old(self).nodes@.len() < u32::MAX,
        ensures
            id == NodeId(old(self).nodes@.len() as u32),
            final(self).nodes@ == old(self).nodes@.push(node),
            forall|other: NodeId| #[trigger] final(self).edges(other) == (if other == id && old(self).edges(id) is None {
                Some(Seq::empty())
            } else {
                old(self).edges(other)
            }),
    {
        let id: NodeId = NodeId(self.nodes.len() as u32);
        let ghost before = self.adjacency@;
        self.nodes.push(node);
        let at: Option<usize> = self.find(id);
        if at.is_none() {
            let none: Vec<NodeId> = Vec::new();
            self.adjacency.push((id, none));
            proof {
                let entry = self.adjacency@.last();
                assert(self.adjacency@ =~= before.push(entry));
                assert forall|other: NodeId| #[trigger] self.edges(other) == (if other == id && old(self).edges(id) is None {
                    Some(Seq::empty())
                } else {
                    old(self).edges(other)
                }) by {
                    place_added(before, entry, other, 0);
                    place_found(before, other, 0);
                    assert(entry.1@ =~= Seq::<NodeId>::empty());
                }
            }
        }
        id
    }

    /// Adds an edge.
    pub fn add_edge(&mut self, from: NodeId, to: NodeId)
        ensures
            final(self).nodes == old(self).nodes,
            forall|other: NodeId| #[trigger] final(self).edges(other) == (if other == from {
                Some(
                    (match old(self).edges(from) {
                        Some(list) => list,
                        None => Seq::empty(),
                    }).push(to),
                )
            } else {
                old(self).edges(other)
            }),
    {
        let ghost before = self.adjacency@;
        let at: Option<usize> = self.find(from);
        match at {
            Some(p) => {
                self.adjacency[p].1.push(to);
                proof {
                    place_found(before, from, 0);
                    assert forall|other: NodeId| #[trigger] self.edges(other) == (if other == from {
                        Some(old(self).edges(from).unwrap().push(to))
                    } else {
                        old(self).edges(other)
                    }) by {
                        place_same(self.adjacency@, before, other, 0);
                        place_found(before, other, 0);
                    }
                }
            },
            None => {
                let mut list: Vec<NodeId> = Vec::new();
                list.push(to);
                self.adjacency.push((from, list));
                proof {
                    let entry = self.adjacency@.last();
                    assert(self.adjacency@ =~= before.push(entry));
                    assert(entry.1@ =~= Seq::<NodeId>::empty().push(to));
                    assert forall|other: NodeId| #[trigger] self.edges(other) == (if other == from {
                        Some(Seq::<NodeId>::empty().push(to))
                    } else {
                        old(self).edges(other)
                    }) by {
                        place_added(before, entry, other, 0);
                        place_found(before, other, 0);
                    }
                }
            },
        }
    }

    /// The graph has answered a packet: its destination has, or nothing has where there is none.
    pub open spec fn answered(self, packet: Packet, clock: u64, after: Self, later: u64, out: Seq<Packet>) -> bool {
        let d = packet.destination.0 as int;
        &&& after.adjacency == self.adjacency
        &&& if d < self.nodes@.len() {
            &&& after.nodes@.len() == self.nodes@.len()
            &&& self.nodes@[d].answers(packet, clock, after.nodes@[d], later, out)
            &&& forall|i: int| 0 <= i < self.nodes@.len() && i != d ==> #[trigger] after.nodes@[i] == self.nodes@[i]
        } else {
            &&& after.nodes == self.nodes
            &&& later == clock
            &&& out == Seq::<Packet>::empty()
        }
    }

    /// Lets the node that a packet is for take it.
    pub fn process(&mut self, packet: &Packet, clock: &mut u64) -> (out: Vec<Packet>)
        ensures
            old(self).answered(*packet, *old(clock), *final(self), *final(clock), out@),
    {
        let d: usize = packet.destination.0 as usize;
        if d < self.nodes.len() {
            self.nodes[d].process(packet, clock)
        } else {
            Vec::new()
        }
    }

    /// The nodes that edges lead to from a number, if it is known.
    pub fn successors(&self, node_id: &NodeId) -> (r: Option<&Vec<NodeId>>)
        ensures
            match r {
                Some(list) => self.edges(*node_id) == Some(list@),
                None => self.edges(*node_id) is None,
            },
    {
        match self.find(*node_id) {
            Some(p) => Some(&self.adjacency[p].1),
            None => None,
        }
    }

    /// The number of nodes.
    pub fn node_count(&self) -> (n: usize)
        ensures
            n == self.nodes@.len(),
    {
        self.nodes.len()
    }
}

impl<N: Node> Default for Graph<N> {
    fn default() -> (r: Self)
        ensures
            r.nodes@.len() == 0,
            r.adjacency@.len() == 0,
    {
        Graph::new()
    }
}

/// A queue of packets and the graph that they go through.
#[derive(Debug)]
pub struct Scheduler<N> {
    pub queue: VecDeque<Packet>,
    pub graph: Graph<N>,
    pub cycles: u64,
    pub packets_processed: u64,
    pub packets_dropped: u64,
}

/// Packets after one hop.
pub open spec fn hopped(p: Packet) -> Packet {
    Packet {
        ttl: if p.ttl > 0 {
            (p.ttl - 1) as u8
        } else {
            0
        },
        ..p
    }
}

/// The packets that go on after a hop, in order.
pub open spec fn going_on(out: Seq<Packet>) -> Seq<Packet>
    decreases out.len(),
{
    if out.len() == 0 {
        Seq::empty()
    } else if hopped(out.last()).alive() {
        going_on(out.drop_last()).push(hopped(out.last()))
    } else {
        going_on(out.drop_last())
    }
}

/// No more packets go on than there were.
pub proof fn going_on_bound(out: Seq<Packet>)
    ensures
        going_on(out).len() <= out.len(),
    decreases out.len(),
{
    if out.len() > 0 {
        going_on_bound(out.drop_last());
    }
}

/// Every packet that goes on may take another hop.
pub proof fn going_on_alive(out: Seq<Packet>)
    ensures
        forall|i: int| 0 <= i < going_on(out).len() ==> (#[trigger] going_on(out)[i]).alive(),
    decreases out.len(),
{
    if out.len() > 0 {
        going_on_alive(out.drop_last());
        let before = going_on(out.drop_last());
        assert forall|i: int| 0 <= i < going_on(out).len() implies (#[trigger] going_on(out)[i]).alive() by {
            if i < before.len() {
                assert(going_on(out)[i] == before[i]);
            }
        }
    }
}

/// The numbers of a run so far.
#[derive(Debug, Clone, Copy, PartialEq, Eq, Structural)]
pub struct SchedulerStats {
    pub queue_depth: usize,
    pub cycles: u64,
    pub packets_processed: u64,
    pub packets_dropped: u64,
}

impl<N: Node> Scheduler<N> {
    /// A scheduler with an empty queue.
    pub fn new(graph: Graph<N>) -> (r: Scheduler<N>)
        ensures
            r.graph == graph,
            r.queue@.len() == 0,
            r.cycles == 0,
            r.packets_processed == 0,
            r.packets_dropped == 0,
            r.all_alive(),
    {
        Scheduler { queue: VecDeque::new(), graph, cycles: 0, packets_processed: 0, packets_dropped: 0 }
    }

    /// Every packet in the queue may take another hop.
    pub open spec fn all_alive(self) -> bool {
        forall|i: int| 0 <= i < self.queue@.len() ==> (#[trigger] self.queue@[i]).alive()
    }

    /// Adds a packet to the queue, if it may take a hop.
    pub fn enqueue(&mut self, packet: Packet)
        ensures
            final(self).queue@ == (if packet.alive() {
                old(self).queue@.push(packet)
            } else {
                old(self).queue@
            }),
            final(self).graph == old(self).graph,
            final(self).cycles == old(self).cycles,
            final(self).packets_processed == old(self).packets_processed,
            final(self).packets_dropped == old(self).packets_dropped,
            old(self).all_alive() ==> final(self).all_alive(),
    {
        if packet.is_alive() {
            self.queue.push_back(packet);
        }
    }

    /// The scheduler after it has taken a packet from the queue: the graph has answered it while
    /// the clock went on, the answers that may take another hop are in the queue, the others are
    /// dropped.
    pub open spec fn stepped(self, clock: u64, after: Self, later: u64, out: Seq<Packet>) -> bool {
        &&& self.queue@.len() > 0
        &&& self.graph.answered(self.queue@[0], clock, after.graph, later, out)
        &&& after.queue@ == self.queue@.skip(1) + going_on(out)
        &&& after.packets_processed == self.packets_processed + 1
        &&& self.packets_dropped + out.len() <= u64::MAX ==> after.packets_dropped == self.packets_dropped + (out.len() - going_on(out).len())
    }

    /// Takes a packet from the queue, if there is one, and lets the graph answer it; the clock
    /// stamps the answers. Gives the number of packets taken.
    pub fn step(&mut self, clock: &mut u64) -> (n: usize)
        requires
            old(self).packets_processed < u64::MAX,
        ensures
            old(self).queue@.len() == 0 ==> {
                &&& n == 0
                &&& final(self).queue@.len() == 0
                &&& final(self).graph == old(self).graph
                &&& final(self).packets_processed == old(self).packets_processed
                &&& final(self).packets_dropped == old(self).packets_dropped
                &&& *final(clock) == *old(clock)
            },
            old(self).queue@.len() > 0 ==> n == 1 && exists|out: Seq<Packet>| #[trigger]
                old(self).stepped(*old(clock), *final(self), *final(clock), out),
            final(self).cycles == old(self).cycles,
            old(self).all_alive() ==> final(self).all_alive(),
    {
        let ghost before = *self;
        let packet: Packet = match self.queue.pop_front() {
            Some(p) => p,
            None => {
                return 0;
            },
        };
        self.packets_processed = self.packets_processed + 1;
        let outputs: Vec<Packet> = self.graph.process(&packet, clock);
        let n: usize = outputs.len();
        let ghost rest = self.queue@;
        let ghost mid = *self;
        let mut i: usize = 0;
        assert(outputs@.take(0) =~= Seq::<Packet>::empty());
        assert(rest + going_on(outputs@.take(0)) =~= rest);
        while i < n
            invariant
                n == outputs@.len(),
                i <= n,
                self.queue@ == rest + going_on(outputs@.take(i as int)),
                self.graph == mid.graph,
                self.cycles == mid.cycles,
                self.packets_processed == mid.packets_processed,
                mid.packets_dropped + n <= u64::MAX ==> self.packets_dropped == mid.packets_dropped + (i - going_on(outputs@.take(i as int)).len()),
            decreases n - i,
        {
            let mut p: Packet = outputs[i];
            p.ttl = if p.ttl > 0 { p.ttl - 1 } else { 0 };
            proof {
                assert(outputs@.take(i + 1).drop_last() =~= outputs@.take(i as int));
                assert(p == hopped(outputs@[i as int]));
                going_on_bound(outputs@.take(i as int));
            }
            if p.is_alive() {
                self.queue.push_back(p);
                assert(self.queue@ =~= rest + going_on(outputs@.take(i + 1)));
            } else {
                self.packets_dropped = self.packets_dropped.wrapping_add(1);
            }
            i = i + 1;
        }
        proof {
            assert(outputs@.take(n as int) =~= outputs@);
            assert(rest =~= before.queue@.skip(1));
            assert(packet == before.queue@[0]);
            assert(before.stepped(*old(clock), *self, *clock, outputs@));
            going_on_alive(outputs@);
        }
        1
    }

    /// Step `i` of a trace is a cycle that took a packet.
    pub open spec fn cycle_at(trace: Seq<(Self, u64)>, i: int) -> bool {
        let (before, clock) = trace[i];
        let (after, later) = trace[i + 1];
        &&& after.cycles == before.cycles + 1
        &&& exists|out: Seq<Packet>| #[trigger] before.stepped(clock, after, later, out)
    }

    /// The states that a run went through and what the clock showed in each, one cycle after the
    /// other.
    pub open spec fn traced(self, clock: u64, after: Self, later: u64, trace: Seq<(Self, u64)>) -> bool {
        &&& trace.len() > 0
        &&& trace[0] == (self, clock)
        &&& trace.last() == (after, later)
        &&& forall|i: int| 0 <= i < trace.len() - 1 ==> #[trigger] Self::cycle_at(trace, i)
    }

    /// Takes packets until the queue is empty or `max_steps` have been taken; the clock stamps the
    /// answers.
    pub fn run(&mut self, max_steps: usize, clock: &mut u64) -> (steps: usize)
        requires
            old(self).cycles + max_steps <= u64::MAX,
            old(self).packets_processed + max_steps <= u64::MAX,
        ensures
            steps <= max_steps,
            steps == max_steps || final(self).queue@.len() == 0,
            exists|trace: Seq<(Scheduler<N>, u64)>|
                trace.len() == steps + 1 && #[trigger] old(self).traced(*old(clock), *final(self), *final(clock), trace),
            final(self).cycles == old(self).cycles + steps,
            final(self).packets_processed == old(self).packets_processed + steps,
            old(self).all_alive() ==> final(self).all_alive(),
    {
        let mut steps: usize = 0;
        let ghost mut trace: Seq<(Scheduler<N>, u64)> = seq![(*self, *clock)];
        while steps < max_steps && self.queue.len() > 0
            invariant
                steps <= max_steps,
                old(self).cycles + max_steps <= u64::MAX,
                old(self).packets_processed + max_steps <= u64::MAX,
                trace.len() == steps + 1,
                old(self).traced(*old(clock), *self, *clock, trace),
                self.cycles == old(self).cycles + steps,
                self.packets_processed == old(self).packets_processed + steps,
                old(self).all_alive() ==> self.all_alive(),
            decreases max_steps - steps,
        {
            let ghost mid = *self;
            let ghost shown = *clock;
            self.step(clock);
            let ghost after = *self;
            self.cycles = self.cycles + 1;
            proof {
                let out = choose|out: Seq<Packet>| #[trigger] mid.stepped(shown, after, *clock, out);
                assert(mid.stepped(shown, *self, *clock, out));
                let longer = trace.push((*self, *clock));
                assert forall|i: int| 0 <= i < longer.len() - 1 implies #[trigger] Scheduler::<N>::cycle_at(longer, i) by {
                    if i < trace.len() - 1 {
                        assert(Scheduler::<N>::cycle_at(trace, i));
                        let o = choose|o: Seq<Packet>| #[trigger] trace[i].0.stepped(trace[i].1, trace[i + 1].0, trace[i + 1].1, o);
                        assert(longer[i].0.stepped(longer[i].1, longer[i + 1].0, longer[i + 1].1, o));
                    } else {
                        assert(longer[i].0.stepped(longer[i].1, longer[i + 1].0, longer[i + 1].1, out));
                    }
                }
                trace = longer;
            }
            steps = steps + 1;
        }
        steps
    }

    /// The numbers so far.
    pub fn stats(&self) -> (r: SchedulerStats)
        ensures
            r.queue_depth == self.queue@.len(),
            r.cycles == self.cycles,
            r.packets_processed == self.packets_processed,
            r.packets_dropped == self.packets_dropped,
    {
        SchedulerStats {
            queue_depth: self.queue.len(),
            cycles: self.cycles,
            packets_processed: self.packets_processed,
            packets_dropped: self.packets_dropped,
        }
    }
}

} // verus!
