use mstu::runtime::mapper::{Mapper, Mapping};
use mstu::runtime::pipeline::{Pipeline, Route, Side};

/// The kind code of an unsigned integer field.
const UINT: u32 = 2;
/// The kind code of a bytes field.
const BYTES: u32 = 5;

fn field(from: usize, to: usize) -> Mapper {
    let mut mapper = Mapper::new();
    mapper.add(Mapping {
        input: vec![from],
        output: vec![to],
    });
    mapper
}

/// A source feeding a worker feeding a sink, none started.
fn chain() -> (Pipeline, usize, usize, usize) {
    let mut pipeline = Pipeline::new(7, "main");
    let source = pipeline.add_node("file", 100, true, vec![], vec![UINT]);
    let worker = pipeline.add_node("scale", 200, false, vec![UINT], vec![UINT]);
    let sink = pipeline.add_node("dump", 300, false, vec![UINT], vec![UINT]);
    assert!(pipeline.connect(source, worker, field(0, 0)));
    assert!(pipeline.connect(worker, sink, field(0, 1)));
    (pipeline, source, worker, sink)
}

#[test]
fn numbers_nodes_in_the_order_they_are_added() {
    let mut pipeline = Pipeline::new(3, "numbers");
    assert_eq!(pipeline.id(), 3);
    assert_eq!(pipeline.name(), "numbers");
    assert_eq!(pipeline.add_node("a", 1, true, vec![], vec![UINT]), 0);
    assert_eq!(pipeline.add_node("b", 1, false, vec![UINT], vec![UINT]), 1);
    assert!(pipeline.has_node(1));
    assert!(!pipeline.has_node(2));
    assert_eq!(pipeline.node_name(0), Some("a"));
    assert_eq!(pipeline.node_name(5), None);
}

#[test]
fn connects_known_nodes_only() {
    let mut pipeline = Pipeline::new(0, "p");
    let a = pipeline.add_node("a", 1, true, vec![], vec![UINT]);
    assert!(!pipeline.connect(a, 9, field(0, 0)));
    assert!(!pipeline.connect(9, a, field(0, 0)));
    assert!(pipeline.targets(a).is_empty());
    assert_eq!(pipeline.parent(a), None);
}

#[test]
fn reconnecting_a_pair_replaces_its_link() {
    let (mut pipeline, source, worker, sink) = chain();
    assert!(pipeline.connect(source, sink, field(1, 1)));
    assert_eq!(pipeline.targets(source), vec![worker, sink]);

    assert_eq!(pipeline.note_drop(source, worker), Some(true));
    assert_eq!(pipeline.note_drop(source, worker), Some(false));

    // The second link to the worker takes the place of the first, with a
    // fresh drop count.
    assert!(pipeline.connect(source, worker, field(2, 0)));
    assert_eq!(pipeline.targets(source), vec![worker, sink]);
    assert_eq!(pipeline.note_drop(source, worker), Some(true));
    assert_eq!(pipeline.parent(worker), Some(source));
}

#[test]
fn disconnect_drops_the_link_and_the_parent() {
    let (mut pipeline, source, worker, sink) = chain();
    assert!(pipeline.disconnect(worker, sink));
    assert!(!pipeline.disconnect(worker, sink));
    assert!(pipeline.targets(worker).is_empty());
    assert_eq!(pipeline.parent(sink), None);
    assert_eq!(pipeline.parent(worker), Some(source));
    assert_eq!(pipeline.note_drop(worker, sink), None);
}

#[test]
fn disconnect_keeps_a_parent_that_was_reassigned() {
    let (mut pipeline, source, worker, sink) = chain();
    // The sink is fed by the source now as well, which becomes its parent.
    assert!(pipeline.connect(source, sink, field(0, 0)));
    assert_eq!(pipeline.parent(sink), Some(source));
    assert!(pipeline.disconnect(worker, sink));
    assert_eq!(pipeline.parent(sink), Some(source));
}

#[test]
fn removing_a_node_unlinks_it_both_ways() {
    let (mut pipeline, source, worker, sink) = chain();
    assert!(!pipeline.remove_node(worker));
    assert!(!pipeline.has_node(worker));
    assert!(pipeline.targets(source).is_empty());
    assert!(pipeline.targets(worker).is_empty());
    assert_eq!(pipeline.parent(sink), None);
    assert_eq!(pipeline.parent(worker), None);
    assert!(!pipeline.remove_node(worker));
}

#[test]
fn removing_a_started_node_says_its_task_must_end() {
    let (mut pipeline, _source, worker, _sink) = chain();
    pipeline.start();
    assert!(pipeline.remove_node(worker));
}

#[test]
fn start_brings_targets_up_before_what_feeds_them() {
    let (mut pipeline, source, worker, sink) = chain();
    let order = pipeline.start();
    assert_eq!(order.len(), 3);
    assert_eq!(order[0], sink);
    assert!(order[1..].contains(&source));
    assert!(order[1..].contains(&worker));

    // Everything runs once started, the source included.
    assert!(pipeline.set_node_running(source, true));
    assert!(pipeline.start().is_empty());
}

#[test]
fn only_a_started_node_can_be_switched() {
    let mut pipeline = Pipeline::new(0, "p");
    let a = pipeline.add_node("a", 1, false, vec![UINT], vec![UINT]);
    assert!(!pipeline.set_node_running(a, false));
    pipeline.start_node(a);
    assert!(pipeline.set_node_running(a, false));
    assert!(!pipeline.set_node_running(42, true));
}

#[test]
fn stop_switches_sources_off_and_leaves_the_rest_running() {
    let (mut pipeline, source, worker, sink) = chain();
    pipeline.start();
    pipeline.stop();
    assert_eq!(
        pipeline.routes(source),
        vec![Route::Deliver { to: worker, verified: true }]
    );
    assert_eq!(
        pipeline.routes(worker),
        vec![Route::Deliver { to: sink, verified: false }]
    );
}

#[test]
fn routes_skip_unmapped_links_and_missing_tasks() {
    let mut pipeline = Pipeline::new(0, "p");
    let a = pipeline.add_node("a", 1, true, vec![], vec![UINT]);
    let b = pipeline.add_node("b", 2, false, vec![UINT], vec![UINT]);
    let c = pipeline.add_node("c", 3, false, vec![BYTES], vec![UINT]);
    assert!(pipeline.connect(a, b, Mapper::new()));
    assert!(pipeline.connect(a, c, field(0, 0)));
    assert_eq!(pipeline.routes(a), vec![Route::Unmapped, Route::NoWorker]);
    pipeline.start_node(c);
    assert_eq!(
        pipeline.routes(a),
        vec![Route::Unmapped, Route::Deliver { to: c, verified: false }]
    );
    assert!(pipeline.routes(c).is_empty());
}

#[test]
fn removes_a_mapping_from_one_link() {
    let (mut pipeline, source, worker, sink) = chain();
    assert_eq!(pipeline.remove_mapping(source, sink, &[0]), None);
    assert_eq!(pipeline.remove_mapping(worker, sink, &[0]), Some(false));
    assert_eq!(pipeline.remove_mapping(worker, sink, &[1]), Some(true));
    assert_eq!(pipeline.routes(worker), vec![Route::Unmapped]);
}

#[test]
fn renames_nodes_and_finds_them_by_plugin() {
    let mut pipeline = Pipeline::new(0, "p");
    let a = pipeline.add_node("a", 5, false, vec![UINT], vec![UINT]);
    let b = pipeline.add_node("b", 6, false, vec![UINT], vec![UINT]);
    let c = pipeline.add_node("c", 5, false, vec![UINT], vec![UINT]);
    pipeline.start_node(a);
    assert!(pipeline.set_node_name(b, "renamed"));
    assert!(!pipeline.set_node_name(9, "x"));
    assert_eq!(pipeline.node_name(b), Some("renamed"));
    // Not started first.
    assert_eq!(pipeline.nodes_of(5), vec![c, a]);
    assert_eq!(pipeline.nodes_of(6), vec![b]);
    assert!(pipeline.nodes_of(7).is_empty());
}

#[test]
fn reports_the_first_drop_then_every_thousandth() {
    let (mut pipeline, source, worker, _sink) = chain();
    let mut reported = Vec::new();
    for count in 1..=2000usize {
        if pipeline.note_drop(source, worker) == Some(true) {
            reported.push(count);
        }
    }
    assert_eq!(reported, vec![1, 1000, 2000]);
}

#[test]
fn knows_each_node_by_its_shapes() {
    let (pipeline, source, worker, _sink) = chain();
    assert!(pipeline.shape_of(source, Side::Input).is_empty());
    assert_eq!(pipeline.shape_of(source, Side::Output), vec![UINT]);
    assert_eq!(pipeline.shape_of(worker, Side::Input), vec![UINT]);
    assert!(pipeline.shape_of(99, Side::Output).is_empty());
}

#[test]
fn reports_node_failures_sparsely() {
    let (mut pipeline, source, _worker, _sink) = chain();
    let mut reported = Vec::new();
    for count in 1..=1500usize {
        if pipeline.note_failure(source) == Some(true) {
            reported.push(count);
        }
    }
    assert_eq!(reported, vec![1, 1000]);
    assert_eq!(pipeline.note_failure(77), None);
}
