use hal_contract::{Capabilities, GateSet, Topology, TopologyKind};

#[test]
fn test_capabilities_simulator() {
    let caps = Capabilities::simulator(10);
    assert!(caps.is_simulator);
    assert_eq!(caps.num_qubits, 10);
    assert!(caps.gate_set.contains("h"));
}

#[test]
fn test_capabilities_iqm() {
    let caps = Capabilities::iqm("Garnet", 20);
    assert!(!caps.is_simulator);
    assert!(caps.gate_set.contains("prx"));
    assert!(caps.gate_set.contains("cz"));
    assert!(!caps.gate_set.contains("cx"));
}

#[test]
fn test_topology_linear() {
    let topo = Topology::linear(5);
    assert!(topo.is_connected(0, 1));
    assert!(topo.is_connected(1, 2));
    assert!(!topo.is_connected(0, 2));
}

#[test]
fn test_topology_star() {
    let topo = Topology::star(5);
    assert!(topo.is_connected(0, 1));
    assert!(topo.is_connected(0, 4));
    assert!(!topo.is_connected(1, 2));
}

#[test]
fn test_topology_grid() {
    let topo = Topology::grid(2, 3);
    assert!(topo.is_connected(0, 1));
    assert!(topo.is_connected(1, 2));
    assert!(topo.is_connected(0, 3));
    assert!(topo.is_connected(1, 4));
    assert!(!topo.is_connected(0, 4));
}

#[test]
fn test_topology_neutral_atom() {
    let topo = Topology::neutral_atom(6, 2);
    assert_eq!(topo.kind, TopologyKind::NeutralAtom { zones: 2 });
    assert!(topo.is_connected(0, 1));
    assert!(topo.is_connected(0, 2));
    assert!(topo.is_connected(1, 2));
    assert!(topo.is_connected(3, 4));
    assert!(topo.is_connected(3, 5));
    assert!(topo.is_connected(4, 5));
    assert!(!topo.is_connected(2, 3));
    assert!(!topo.is_connected(0, 5));
}

#[test]
fn test_gate_set_is_native() {
    let gs = GateSet {
        single_qubit: vec!["h".into(), "rx".into()],
        two_qubit: vec!["cx".into()],
        three_qubit: vec![],
        native: vec!["rx".into(), "cx".into()],
    };
    assert!(gs.is_native("rx"));
    assert!(gs.is_native("cx"));
    assert!(!gs.is_native("h"));
}

#[test]
fn test_gate_set_is_native_empty_native_list() {
    let gs = GateSet {
        single_qubit: vec!["h".into()],
        two_qubit: vec!["cx".into()],
        three_qubit: vec![],
        native: vec![],
    };
    assert!(gs.is_native("h"));
    assert!(gs.is_native("cx"));
    assert!(!gs.is_native("cz"));
}

#[test]
fn connectivity_is_symmetric_for_every_builder() {
    let topologies = vec![
        Topology::linear(6),
        Topology::star(6),
        Topology::full(6),
        Topology::grid(3, 4),
        Topology::neutral_atom(7, 3),
        Topology::custom(vec![(0, 5), (2, 1)]),
    ];
    for t in &topologies {
        for a in 0..13u32 {
            for b in 0..13u32 {
                assert_eq!(t.is_connected(a, b), t.is_connected(b, a));
            }
        }
    }
}

#[test]
fn grid_neighbours_follow_rows_without_wraparound() {
    let (rows, cols) = (3u32, 4u32);
    let topo = Topology::grid(rows, cols);
    let n = rows * cols;
    for i in 0..n {
        let same_row = i % cols + 1 < cols;
        assert_eq!(topo.is_connected(i, i + 1), same_row && i + 1 < n);
        assert_eq!(topo.is_connected(i, i + cols), i + cols < n);
    }
    // last cell of a row does not wrap to the next row's first cell
    assert!(!topo.is_connected(3, 4));
    assert!(!topo.is_connected(0, 5));
    assert_eq!(topo.edges.len(), 17);
}

#[test]
fn neutral_atom_zones_are_cliques_and_separate() {
    // 7 qubits in 3 zones: widths 2, 2, and 3 for the last zone
    let topo = Topology::neutral_atom(7, 3);
    let zone = |q: u32| if q < 2 { 0 } else if q < 4 { 1 } else { 2 };
    for a in 0..7u32 {
        for b in 0..7u32 {
            assert_eq!(topo.is_connected(a, b), a != b && zone(a) == zone(b));
        }
    }
}

#[test]
fn neutral_atom_with_fewer_qubits_than_zones_puts_all_in_last_zone() {
    let topo = Topology::neutral_atom(2, 5);
    assert!(topo.is_connected(0, 1));
    let none = Topology::neutral_atom(4, 0);
    assert!(none.edges.is_empty());
}

#[test]
fn full_and_linear_edge_counts() {
    assert_eq!(Topology::full(5).edges.len(), 10);
    assert_eq!(Topology::linear(5).edges.len(), 4);
    assert_eq!(Topology::linear(0).edges.len(), 0);
    assert_eq!(Topology::star(0).edges.len(), 0);
    assert!(!Topology::full(3).is_connected(1, 1));
}

#[test]
fn native_matches_contains_when_native_list_empty() {
    let gs = GateSet::universal();
    for op in ["h", "cx", "ccx", "prx", "xx", "CX", ""] {
        assert_eq!(gs.is_native(op), gs.contains(op));
    }
    let iqm = GateSet::iqm();
    assert!(iqm.is_native("prx"));
    assert!(!iqm.is_native("h"));
}

#[test]
fn gate_names_are_case_sensitive() {
    let gs = GateSet::ibm_heron();
    assert!(gs.contains("rzz"));
    assert!(!gs.contains("RZZ"));
    assert_eq!(GateSet::universal().single_qubit.len(), 17);
    assert_eq!(GateSet::universal().two_qubit.len(), 13);
}

#[test]
fn capability_presets() {
    let r = Capabilities::rigetti("Ankaa", 10);
    assert_eq!(r.topology.kind, TopologyKind::Grid { rows: 4, cols: 4 });
    assert_eq!(r.max_shots, 100_000);
    let e = Capabilities::ibm_eagle("ibm_brussels", 127);
    assert!(e.gate_set.is_native("ecr"));
    assert!(e.topology.edges.is_empty());
    let e = e.with_topology(Topology::linear(3));
    assert!(e.topology.is_connected(1, 2));
    let na = Capabilities::neutral_atom("planqc", 6, 2);
    assert_eq!(na.features, vec!["shuttling".to_string(), "zoned".to_string()]);
    let q = Capabilities::ionq("Aria", 4);
    assert!(q.topology.is_connected(0, 3));
}

#[test]
fn builders_list_edges_in_order() {
    assert_eq!(Topology::linear(4).edges, vec![(0, 1), (1, 2), (2, 3)]);
    assert_eq!(Topology::star(4).edges, vec![(0, 1), (0, 2), (0, 3)]);
    assert_eq!(
        Topology::full(4).edges,
        vec![(0, 1), (0, 2), (0, 3), (1, 2), (1, 3), (2, 3)]
    );
    assert_eq!(
        Topology::grid(2, 3).edges,
        vec![(0, 1), (0, 3), (1, 2), (1, 4), (2, 5), (3, 4), (4, 5)]
    );
    let rigetti = Capabilities::rigetti("Ankaa", 4);
    assert_eq!(rigetti.topology.edges, Topology::grid(2, 2).edges);
}

#[test]
fn neutral_atom_edges_stay_below_qubit_count() {
    let topo = Topology::neutral_atom(5, 2);
    for &(a, b) in &topo.edges {
        assert!(a < b && b < 5);
    }
    assert!(!topo.is_connected(5, 6));
    assert_eq!(topo.edges, vec![(0, 1), (2, 3), (2, 4), (3, 4)]);
}
