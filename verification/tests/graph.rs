use live_rig::audio::dasp_test::DaspTestData;
use live_rig::audio::graph::{Graph, WouldCycle};

#[test]
fn new_graph_is_empty() {
    let g: Graph<u8> = Graph::new();
    assert_eq!(g.node_count(), 0);
    assert_eq!(g.connection_count(), 0);
    assert_eq!(g.master_index(), None);
    assert!(g.node(0).is_none());
    assert!(g.inputs(0).is_empty());
}

#[test]
fn nodes_and_inputs_get_indices_in_order() {
    let mut g: Graph<&str> = Graph::new();
    let synth = g.add_node("synth");
    assert_eq!(synth, 0);
    assert_eq!(g.add_input("a", synth), (0, 1));
    assert_eq!(g.add_input("b", synth), (1, 2));
    assert_eq!(g.add_input("c", 1), (2, 3));
    assert_eq!(g.node_count(), 4);
    assert_eq!(g.connection_count(), 3);
    assert_eq!(g.inputs(synth), vec![2, 1]);
    assert_eq!(g.inputs(1), vec![3]);
    assert!(g.inputs(3).is_empty());
    assert_eq!(g.node(2), Some(&"b"));
    assert_eq!(g.node(4), None);
}

#[test]
fn edge_that_would_close_a_cycle_is_refused() {
    let mut g: Graph<u8> = Graph::new();
    let synth = g.add_node(0);
    let (_, a) = g.add_input(1, synth);
    let (_, b) = g.add_input(2, a);
    assert_eq!(g.add_connection(synth, a), Err(WouldCycle));
    assert_eq!(g.add_connection(synth, b), Err(WouldCycle));
    assert_eq!(g.add_connection(a, b), Err(WouldCycle));
    assert_eq!(g.add_connection(a, a), Err(WouldCycle));
    assert_eq!(g.connection_count(), 2);
    assert_eq!(g.add_connection(b, synth), Ok(2));
    assert_eq!(g.add_connection(b, synth), Ok(3));
    assert_eq!(g.connection_count(), 4);
    assert_eq!(g.inputs(synth), vec![b, b, a]);
}

#[test]
fn reaches_follows_the_edges() {
    let mut g: Graph<u8> = Graph::new();
    for n in 0..5 {
        g.add_node(n);
    }
    assert_eq!(g.add_connection(0, 1), Ok(0));
    assert_eq!(g.add_connection(1, 2), Ok(1));
    assert_eq!(g.add_connection(3, 2), Ok(2));
    assert!(g.reaches(0, 0));
    assert!(g.reaches(0, 2));
    assert!(g.reaches(3, 2));
    assert!(!g.reaches(2, 0));
    assert!(!g.reaches(0, 3));
    assert!(!g.reaches(4, 0));
    assert!(!g.reaches(0, 4));
}

#[test]
fn master_is_set_only_to_a_node() {
    let mut g: Graph<u8> = Graph::new();
    g.add_node(0);
    g.add_node(1);
    g.set_master(Some(1));
    assert_eq!(g.master_index(), Some(1));
    g.set_master(Some(2));
    assert_eq!(g.master_index(), None);
    g.set_master(Some(0));
    g.set_master(None);
    assert_eq!(g.master_index(), None);
}

#[test]
fn node_mut_changes_the_node_and_nothing_else() {
    let mut g: Graph<f64> = Graph::new();
    let synth = g.add_node(0.0);
    g.add_input(440.0, synth);
    *g.node_mut(1).unwrap() -= 0.5;
    assert_eq!(g.node(1), Some(&439.5));
    assert_eq!(g.node(0), Some(&0.0));
    assert!(g.node_mut(2).is_none());
    assert_eq!(g.inputs(synth), vec![1]);
}

#[test]
fn synthesis_stage_has_three_oscillators_on_one_master() {
    let stage: DaspTestData<f32, f64> = DaspTestData::new(0.0, 0.0, 440.0, 587.33, 698.46);
    assert_eq!(stage.cycle_test(), Err(WouldCycle));
    assert_eq!(stage.post(), vec![3, 2, 1]);
    assert_eq!(stage.node(0), Some(&0.0));
    assert_eq!(stage.node(1), Some(&440.0));
    assert_eq!(stage.node(2), Some(&587.33));
    assert_eq!(stage.node(3), Some(&698.46));
    assert!(stage.node(4).is_none());
}

#[test]
fn synthesis_stage_reads_amplitude_and_rate() {
    let mut stage: DaspTestData<f32, f64> = DaspTestData::new(0.0, 0.0, 440.0, 587.33, 698.46);
    let first = stage.process(512);
    assert_eq!((first.amp, first.rate, first.frames), (0.0, 0.0, 512));
    assert_eq!(first.inputs, vec![3, 2, 1]);
    stage.param("A", 1.0);
    stage.param("R", 0.25);
    let second = stage.process(128);
    assert_eq!((second.amp, second.rate, second.frames), (1.0, 0.25, 512));
    let third = stage.process(2048);
    assert_eq!(third.frames, 2048);
    assert_eq!(stage.process(0).frames, 2048);
}

#[test]
fn oscillators_glide_by_a_tenth_of_the_rate() {
    let mut stage: DaspTestData<f32, f64> = DaspTestData::new(0.0, 0.0, 440.0, 587.33, 698.46);
    stage.param("R", 2.0);
    let pass = stage.process(64);
    for index in pass.inputs {
        if let Some(pitch) = stage.node_mut(index) {
            *pitch -= 0.1 * pass.rate as f64;
        }
    }
    assert!((stage.node(1).unwrap() - 439.8).abs() < 1e-9);
    assert!((stage.node(2).unwrap() - 587.13).abs() < 1e-9);
    assert!((stage.node(3).unwrap() - 698.26).abs() < 1e-9);
    assert_eq!(stage.node(0), Some(&0.0));
}
