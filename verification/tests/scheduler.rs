//! Packets on their way through a graph of nodes.
use bitllm::runtime::scheduler::{
    BuiltinNode, Graph, MatMulNode, Node, NodeId, Packet, Scheduler, SinkNode, SparsifyNode,
};
use bitllm::tensor::pnword::{PNActivation256, PNWeight256};

fn make_activation(active_count: usize) -> PNActivation256 {
    let mut vals = [0i8; 128];
    for (i, v) in vals.iter_mut().enumerate().take(active_count.min(128)) {
        *v = if i % 2 == 0 { 1 } else { -1 };
    }
    PNActivation256::pack(&vals)
}

fn make_weight() -> PNWeight256 {
    let vals: Vec<i8> = (0..128).map(|i| if i % 2 == 0 { 1 } else { -1 }).collect();
    PNWeight256::pack(&vals, 1.0f32.to_bits())
}

#[test]
fn test_scheduler_single_node() {
    let mut graph = Graph::new();

    let sink_id = {
        let sink = BuiltinNode::Sink(SinkNode::new("sink".to_string()));
        graph.add_node(sink)
    };

    let mut scheduler = Scheduler::new(graph);
    let mut clock = 0u64;
    let packet = Packet::new(make_activation(4), sink_id, &mut clock);
    scheduler.enqueue(packet);
    scheduler.run(100, &mut clock);

    let stats = scheduler.stats();
    assert_eq!(stats.packets_processed, 1);
    assert_eq!(stats.queue_depth, 0);
}

#[test]
fn test_scheduler_chain() {
    let mut graph = Graph::new();

    let w = make_weight();

    let sink_id = {
        let sink = BuiltinNode::Sink(SinkNode::new("sink".to_string()));
        graph.add_node(sink)
    };

    let matmul_id = {
        let matmul = BuiltinNode::MatMul(MatMulNode::new("matmul".to_string(), w, vec![sink_id]));
        graph.add_node(matmul)
    };

    graph.add_edge(matmul_id, sink_id);

    let mut scheduler = Scheduler::new(graph);
    let mut clock = 0u64;
    let packet = Packet::new(make_activation(4), matmul_id, &mut clock);
    scheduler.enqueue(packet);
    scheduler.run(100, &mut clock);

    let stats = scheduler.stats();
    assert_eq!(stats.packets_processed, 2); // matmul + sink
}

#[test]
fn test_scheduler_sparsity_skips_dead_packets() {
    let mut graph = Graph::new();

    let w = make_weight();
    let sparsity = 0.9f32.to_bits();

    let sink_id = {
        let sink = BuiltinNode::Sink(SinkNode::new("sink".to_string()));
        graph.add_node(sink)
    };

    let matmul_id = {
        let matmul = BuiltinNode::MatMul(MatMulNode::new("matmul".to_string(), w, vec![sink_id]));
        graph.add_node(matmul)
    };

    let sparsify_id = {
        let sparsify = BuiltinNode::Sparsify(SparsifyNode::new(
            "sparsify".to_string(), sparsity, vec![matmul_id],
        ));
        graph.add_node(sparsify)
    };

    graph.add_edge(sparsify_id, matmul_id);
    graph.add_edge(matmul_id, sink_id);

    let mut scheduler = Scheduler::new(graph);
    let mut clock = 0u64;
    for _ in 0..10 {
        let packet = Packet::new(make_activation(4), sparsify_id, &mut clock);
        scheduler.enqueue(packet);
    }
    scheduler.run(100, &mut clock);

    let stats = scheduler.stats();
    assert!(stats.packets_processed < 30);
    assert!(stats.packets_dropped > 0);
}

#[test]
fn a_packet_to_nowhere_is_dropped() {
    let graph: Graph<BuiltinNode> = Graph::new();
    let mut scheduler = Scheduler::new(graph);
    let mut clock = 0u64;
    let packet = Packet::new(make_activation(4), NodeId(7), &mut clock);
    scheduler.enqueue(packet);
    scheduler.run(10, &mut clock);
    assert_eq!(scheduler.stats().queue_depth, 0);
}

#[test]
fn every_packet_that_leaves_the_queue_is_counted() {
    let mut graph = Graph::new();
    let sink = graph.add_node(BuiltinNode::Sink(SinkNode::new("sink".to_string())));
    let mut scheduler = Scheduler::new(graph);
    let mut clock = 0u64;
    for _ in 0..5 {
        let packet = Packet::new(make_activation(4), sink, &mut clock);
        scheduler.enqueue(packet);
    }
    let steps = scheduler.run(100, &mut clock);
    let stats = scheduler.stats();
    assert!(steps <= 100);
    assert_eq!(stats.packets_processed + stats.packets_dropped, 5);
    assert_eq!(stats.cycles, scheduler.cycles);
}

#[test]
fn what_a_node_sends_has_one_hop_less() {
    let mut graph = Graph::new();
    let id = graph.add_node(BuiltinNode::MatMul(MatMulNode::new(
        "loop".to_string(),
        make_weight(),
        vec![NodeId(0), NodeId(3)],
    )));
    graph.add_edge(id, id);
    assert_eq!(graph.successors(&id).unwrap().len(), 1);
    assert_eq!(graph.node_count(), 1);
    let mut scheduler = Scheduler::new(graph);
    let mut clock = 0u64;
    let packet = Packet::new(make_activation(4), id, &mut clock);
    assert!(packet.is_alive());
    assert_eq!(packet.ttl, 16);
    scheduler.enqueue(packet);
    assert_eq!(scheduler.step(&mut clock), 1);
    assert_eq!(scheduler.queue.len(), 2);
    assert_eq!(scheduler.queue[0].destination, NodeId(0));
    assert_eq!(scheduler.queue[1].destination, NodeId(3));
    assert_eq!(scheduler.queue[0].ttl, 15);
}

#[test]
fn stamps_grow() {
    let mut clock = 5u64;
    let a = Packet::new(make_activation(1), NodeId(0), &mut clock);
    let b = Packet::new(make_activation(1), NodeId(0), &mut clock);
    assert!(a.timestamp < b.timestamp);
}

#[test]
fn nodes_have_names() {
    let sink = SinkNode::new("drain".to_string());
    assert_eq!(sink.name(), "drain");
    let node = BuiltinNode::Sink(sink);
    assert_eq!(node.name(), "drain");
}

#[test]
fn schedulers_share_a_clock() {
    let mut clock = 0u64;
    let mut stamps = Vec::new();
    for _ in 0..2 {
        let mut graph = Graph::new();
        let sink = graph.add_node(BuiltinNode::Sink(SinkNode::new("sink".to_string())));
        let id = graph.add_node(BuiltinNode::MatMul(MatMulNode::new("m".to_string(), make_weight(), vec![sink, sink])));
        let mut scheduler = Scheduler::new(graph);
        let packet = Packet::new(make_activation(4), id, &mut clock);
        stamps.push(packet.timestamp);
        scheduler.enqueue(packet);
        scheduler.step(&mut clock);
        stamps.extend(scheduler.queue.iter().map(|p| p.timestamp));
    }
    assert_eq!(stamps, vec![0, 1, 2, 3, 4, 5]);
}
