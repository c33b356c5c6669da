use corrosion::mixer::{topological_sort, GraphError, Mixer};

fn pos(order: &[usize], v: usize) -> usize {
    order.iter().position(|&x| x == v).unwrap()
}

#[test]
fn chain_and_independent_node() {
    let mut m = Mixer::new();
    let a = m.add_node(1, 1);
    let b = m.add_node(1, 1);
    let c = m.add_node(1, 1);
    let d = m.add_node(1, 1);
    assert_eq!(m.connect(a, 0, b, 0), Ok(()));
    assert_eq!(m.connect(b, 0, c, 0), Ok(()));
    let order = m.schedule().clone();
    assert_eq!(order.len(), 4);
    assert!(pos(&order, a) < pos(&order, b));
    assert!(pos(&order, b) < pos(&order, c));
    assert!(order.contains(&d));
    assert_eq!(order, vec![0, 1, 2, 3]);
}

#[test]
fn cycle_is_refused() {
    let mut m = Mixer::new();
    let a = m.add_node(1, 1);
    let b = m.add_node(1, 1);
    assert_eq!(m.connect(a, 0, b, 0), Ok(()));
    assert_eq!(m.connect(b, 0, a, 0), Err(GraphError::Cycle));
    assert_eq!(m.connections.len(), 1);
    assert_eq!(m.schedule().clone(), vec![0, 1]);
}

#[test]
fn self_loop_is_refused() {
    let mut m = Mixer::new();
    let a = m.add_node(1, 1);
    assert_eq!(m.connect(a, 0, a, 0), Err(GraphError::Cycle));
}

#[test]
fn missing_module_or_port_is_refused() {
    let mut m = Mixer::new();
    let a = m.add_node(1, 2);
    let b = m.add_node(1, 0);
    assert_eq!(m.connect(a, 0, 5, 0), Err(GraphError::NoSuchModule));
    assert_eq!(m.connect(a, 2, b, 0), Err(GraphError::NoSuchPort));
    assert_eq!(m.connect(a, 1, b, 1), Err(GraphError::NoSuchPort));
    assert_eq!(m.connect(a, 1, b, 0), Ok(()));
}

#[test]
fn reverse_edges_reorder() {
    let mut m = Mixer::new();
    for _ in 0..3 {
        m.add_node(1, 1);
    }
    assert_eq!(m.connect(2, 0, 0, 0), Ok(()));
    assert_eq!(m.schedule().clone(), vec![1, 2, 0]);
}

#[test]
fn sort_takes_lowest_ready_node_first() {
    let edges = vec![(3, 0, 0, 0), (1, 0, 2, 0)];
    assert_eq!(topological_sort(&edges, 4), Some(vec![1, 2, 3, 0]));
    assert_eq!(topological_sort(&[], 3), Some(vec![0, 1, 2]));
    assert_eq!(topological_sort(&[(0, 0, 1, 0), (1, 0, 2, 0), (2, 0, 0, 0)], 4), None);
}

#[test]
fn each_module_gets_its_own_events() {
    let on = |m: usize, p: u32| corrosion::events::TimedEvent { module_index: m, position: p, event: corrosion::events::Event::NoteOn { id: 0, key: 60, vel: 1 } };
    let evs = vec![on(1, 0), on(0, 1), on(1, 2), on(2, 3)];
    let mine = corrosion::mixer::events_for(&evs, 1);
    assert_eq!(mine, vec![on(1, 0), on(1, 2)]);
    assert!(corrosion::mixer::events_for(&evs, 5).is_empty());
    assert!(corrosion::mixer::events_for(&[], 0).is_empty());
}
