//! Backend capability introspection: qubit count, supported operations,
//! connectivity topology and shot limits.
//!
//! All edges in a [`Topology`] are undirected: an edge `(a, b)` joins `a` to
//! `b` and `b` to `a`.
use vstd::prelude::*;
use vstd::string::StringExecFns;

verus! {

/// Whether the edge `e` joins `a` and `b`, in either direction.
pub open spec fn edge_joins(e: (u32, u32), a: u32, b: u32) -> bool {
    (e.0 == a && e.1 == b) || (e.0 == b && e.1 == a)
}

/// Whether some edge of `edges` joins `a` and `b`.
pub open spec fn connected(edges: Seq<(u32, u32)>, a: u32, b: u32) -> bool {
    exists|k: int| 0 <= k < edges.len() && #[trigger] edge_joins(edges[k], a, b)
}

/// Edge `(a, b)` of a row-major grid of `n` cells with `cols` columns: `b` is the
/// right neighbour of `a` in the same row, or the cell below it.
pub open spec fn grid_edge(n: int, cols: int, a: int, b: int) -> bool {
    0 <= a < n && ((b == a + 1 && a % cols + 1 < cols) || (b == a + cols && b < n))
}

/// Edges of a chain of `n` qubits: `(0, 1), (1, 2), ..., (n-2, n-1)`.
pub open spec fn linear_edges(n: u32) -> Seq<(u32, u32)> {
    Seq::new(if n == 0 { 0 } else { (n - 1) as nat }, |i: int| (i as u32, (i + 1) as u32))
}

/// Edges of a star of `n` qubits: `(0, 1), (0, 2), ..., (0, n-1)`.
pub open spec fn star_edges(n: u32) -> Seq<(u32, u32)> {
    Seq::new(if n == 0 { 0 } else { (n - 1) as nat }, |i: int| (0u32, (i + 1) as u32))
}

/// The first `len` edges from qubit `i` to the qubits after it: `(i, i+1), ...`.
pub open spec fn full_row(i: int, len: int) -> Seq<(u32, u32)> {
    Seq::new(len as nat, |k: int| (i as u32, (i + 1 + k) as u32))
}

/// Edges of a fully connected device of `n` qubits from the qubits below `i`,
/// each pair once as `(a, b)` with `a < b`, in lexicographic order.
pub open spec fn full_edges_upto(n: int, i: int) -> Seq<(u32, u32)>
    decreases i,
{
    if i <= 0 {
        Seq::empty()
    } else {
        full_edges_upto(n, i - 1) + full_row(i - 1, n - i)
    }
}

/// Edges of a fully connected device of `n` qubits.
pub open spec fn full_edges(n: u32) -> Seq<(u32, u32)> {
    full_edges_upto(n as int, n as int)
}

/// Edges that start at cell `idx` of a row-major grid of `n` cells with `cols`
/// columns: first to the right neighbour, then to the cell below.
pub open spec fn grid_cell_edges(n: int, cols: int, idx: int) -> Seq<(u32, u32)> {
    let right: Seq<(u32, u32)> = if idx % cols + 1 < cols {
        Seq::empty().push((idx as u32, (idx + 1) as u32))
    } else {
        Seq::empty()
    };
    if idx + cols < n {
        right.push((idx as u32, (idx + cols) as u32))
    } else {
        right
    }
}

/// Edges starting at the first `m` cells of a row-major grid, in cell order.
pub open spec fn grid_edges_upto(n: int, cols: int, m: int) -> Seq<(u32, u32)>
    decreases m,
{
    if m <= 0 {
        Seq::empty()
    } else {
        grid_edges_upto(n, cols, m - 1) + grid_cell_edges(n, cols, m - 1)
    }
}

/// Edges of a `rows` by `cols` grid, in row-major order of their first cell.
pub open spec fn grid_edges(rows: u32, cols: u32) -> Seq<(u32, u32)> {
    grid_edges_upto(rows * cols, cols as int, rows * cols)
}

/// Qubits per zone of a zoned device.
pub open spec fn zone_width(num_qubits: u32, zones: u32) -> int {
    num_qubits as int / (if zones == 0 { 1 } else { zones as int })
}

/// First qubit of zone `z`.
pub open spec fn zone_start(num_qubits: u32, zones: u32, z: int) -> int {
    z * zone_width(num_qubits, zones)
}

/// One past the last qubit of zone `z`: the last zone takes the remainder.
pub open spec fn zone_end(num_qubits: u32, zones: u32, z: int) -> int {
    if z == zones - 1 {
        num_qubits as int
    } else {
        (z + 1) * zone_width(num_qubits, zones)
    }
}

/// Qubit `q` lies in zone `z` of a device with `zones` zones.
pub open spec fn in_zone(num_qubits: u32, zones: u32, z: int, q: int) -> bool {
    0 <= z < zones && zone_start(num_qubits, zones, z) <= q < zone_end(num_qubits, zones, z)
}

/// `a < b < num_qubits`, and both lie in one zone.
pub open spec fn zone_edge(num_qubits: u32, zones: u32, a: u32, b: u32) -> bool {
    a < b && b < num_qubits && exists|zz: int|
        #[trigger] in_zone(num_qubits, zones, zz, a as int) && in_zone(num_qubits, zones, zz, b as int)
}

proof fn lemma_connected_empty()
    ensures
        forall|a: u32, b: u32| !#[trigger] connected(Seq::<(u32, u32)>::empty(), a, b),
{
}

proof fn lemma_connected_push(s: Seq<(u32, u32)>, e: (u32, u32))
    ensures
        forall|a: u32, b: u32|
            #[trigger] connected(s.push(e), a, b) <==> (connected(s, a, b) || edge_joins(e, a, b)),
{
    assert forall|a: u32, b: u32|
        #[trigger] connected(s.push(e), a, b) <==> (connected(s, a, b) || edge_joins(e, a, b)) by {
        if connected(s, a, b) {
            let k = choose|k: int| 0 <= k < s.len() && #[trigger] edge_joins(s[k], a, b);
            assert(s.push(e)[k] == s[k]);
        }
        if edge_joins(e, a, b) {
            assert(s.push(e)[s.len() as int] == e);
        }
        if connected(s.push(e), a, b) {
            let k = choose|k: int| 0 <= k < s.len() + 1 && #[trigger] edge_joins(s.push(e)[k], a, b);
            if k < s.len() {
                assert(s.push(e)[k] == s[k]);
            }
        }
    }
}

/// Two zones of one device share no qubit.
proof fn lemma_zones_disjoint(num_qubits: u32, zones: u32, z1: int, z2: int, q: int)
    requires
        in_zone(num_qubits, zones, z1, q),
        in_zone(num_qubits, zones, z2, q),
    ensures
        z1 == z2,
{
    let w = zone_width(num_qubits, zones);
    assert(w >= 0) by (nonlinear_arith)
        requires
            w == num_qubits as int / (if zones == 0 { 1 } else { zones as int }),
    ;
    if z1 < z2 {
        assert((z1 + 1) * w <= z2 * w) by (nonlinear_arith)
            requires
                z1 + 1 <= z2,
                w >= 0,
        ;
    } else if z2 < z1 {
        assert((z2 + 1) * w <= z1 * w) by (nonlinear_arith)
            requires
                z2 + 1 <= z1,
                w >= 0,
        ;
    }
}

/// Kind of qubit topology.
#[derive(Debug, Clone, Copy, PartialEq, Eq, Structural)]
#[non_exhaustive]
pub enum TopologyKind {
    /// Fully connected (all-to-all).
    FullyConnected,
    /// Linear chain.
    Linear,
    /// Star: the centre is connected to every other qubit.
    Star,
    /// Two-dimensional grid.
    Grid { rows: u32, cols: u32 },
    /// Heavy-hex lattice.
    HeavyHex,
    /// Custom topology.
    Custom,
    /// Neutral-atom device with reconfigurable zones.
    NeutralAtom {
        /// Number of interaction zones.
        zones: u32,
    },
}

/// Qubit connectivity: a shape descriptor and an undirected edge list.
#[derive(Debug, Clone)]
pub struct Topology {
    /// Kind of topology.
    pub kind: TopologyKind,
    /// Coupling edges (pairs of connected qubits), undirected.
    pub edges: Vec<(u32, u32)>,
}

impl Topology {
    /// Whether `a` and `b` are joined by an edge, in either direction.
    pub open spec fn spec_connected(&self, a: u32, b: u32) -> bool {
        connected(self.edges@, a, b)
    }

    /// A chain `0 - 1 - ... - (n-1)`.
    pub fn linear(n: u32) -> (r: Topology)
        ensures
            r.kind == TopologyKind::Linear,
            r.edges@ == linear_edges(n),
            forall|a: u32, b: u32|
                #[trigger] r.spec_connected(a, b) <==> (a < n && b < n && (a + 1 == b || b + 1 == a)),
    {
        let mut edges: Vec<(u32, u32)> = Vec::new();
        let last: u32 = if n == 0 { 0 } else { n - 1 };
        let mut i: u32 = 0;
        proof {
            lemma_connected_empty();
        }
        while i < last
            invariant
                last as int == if n == 0 { 0int } else { n - 1 },
                i <= last,
                edges@ == Seq::new(i as nat, |k: int| (k as u32, (k + 1) as u32)),
                forall|a: u32, b: u32|
                    #[trigger] connected(edges@, a, b) <==> ((a + 1 == b && b <= i) || (b + 1 == a
                        && a <= i)),
            decreases last - i,
        {
            proof {
                lemma_connected_push(edges@, (i, (i + 1) as u32));
            }
            edges.push((i, i + 1));
            i = i + 1;
            assert(edges@ =~= Seq::new(i as nat, |k: int| (k as u32, (k + 1) as u32)));
        }
        assert(edges@ =~= linear_edges(n));
        Topology { kind: TopologyKind::Linear, edges }
    }

    /// Qubit 0 connected to every other qubit.
    pub fn star(n: u32) -> (r: Topology)
        ensures
            r.kind == TopologyKind::Star,
            r.edges@ == star_edges(n),
            forall|a: u32, b: u32|
                #[trigger] r.spec_connected(a, b) <==> (a != b && ((a == 0 && b < n) || (b == 0
                    && a < n))),
    {
        let mut edges: Vec<(u32, u32)> = Vec::new();
        let end: u32 = if n == 0 { 1 } else { n };
        let mut i: u32 = 1;
        proof {
            lemma_connected_empty();
        }
        while i < end
            invariant
                end as int == if n == 0 { 1int } else { n as int },
                1 <= i <= end,
                edges@ == Seq::new((i - 1) as nat, |k: int| (0u32, (k + 1) as u32)),
                forall|a: u32, b: u32|
                    #[trigger] connected(edges@, a, b) <==> (a != b && ((a == 0 && b < i) || (b
                        == 0 && a < i))),
            decreases end - i,
        {
            proof {
                lemma_connected_push(edges@, (0, i));
            }
            edges.push((0, i));
            i = i + 1;
            assert(edges@ =~= Seq::new((i - 1) as nat, |k: int| (0u32, (k + 1) as u32)));
        }
        assert(edges@ =~= star_edges(n));
        Topology { kind: TopologyKind::Star, edges }
    }

    /// Every pair of distinct qubits below `n` connected.
    pub fn full(n: u32) -> (r: Topology)
        ensures
            r.kind == TopologyKind::FullyConnected,
            r.edges@ == full_edges(n),
            forall|a: u32, b: u32|
                #[trigger] r.spec_connected(a, b) <==> (a != b && a < n && b < n),
    {
        let mut edges: Vec<(u32, u32)> = Vec::new();
        let mut i: u32 = 0;
        proof {
            lemma_connected_empty();
        }
        while i < n
            invariant
                i <= n,
                edges@ == full_edges_upto(n as int, i as int),
                forall|a: u32, b: u32|
                    #[trigger] connected(edges@, a, b) <==> (a != b && a < n && b < n && (a < i
                        || b < i)),
            decreases n - i,
        {
            let mut j: u32 = i + 1;
            assert(edges@ =~= full_edges_upto(n as int, i as int) + full_row(i as int, 0));
            while j < n
                invariant
                    i < n,
                    i < j <= n,
                    edges@ == full_edges_upto(n as int, i as int) + full_row(i as int, j - i - 1),
                    forall|a: u32, b: u32|
                        #[trigger] connected(edges@, a, b) <==> (a != b && a < n && b < n && (a
                            < i || b < i || (a == i && b < j) || (b == i && a < j))),
                decreases n - j,
            {
                proof {
                    lemma_connected_push(edges@, (i, j));
                }
                edges.push((i, j));
                j = j + 1;
                assert(full_row(i as int, j - i - 1) =~= full_row(i as int, j - i - 2).push((i, (j - 1) as u32)));
                assert(edges@ =~= full_edges_upto(n as int, i as int) + full_row(i as int, j - i - 1));
            }
            i = i + 1;
        }
        Topology { kind: TopologyKind::FullyConnected, edges }
    }

    /// Row-major grid of `rows` by `cols` qubits, each joined to its right
    /// neighbour in the same row and to the qubit below it; no wraparound.
    pub fn grid(rows: u32, cols: u32) -> (r: Topology)
        requires
            rows * cols <= u32::MAX,
        ensures
            r.kind == (TopologyKind::Grid { rows, cols }),
            r.edges@ == grid_edges(rows, cols),
            forall|a: u32, b: u32|
                #[trigger] r.spec_connected(a, b) <==> (grid_edge(rows * cols, cols as int, a as int, b as int)
                    || grid_edge(rows * cols, cols as int, b as int, a as int)),
    {
        let n: u32 = rows * cols;
        let mut edges: Vec<(u32, u32)> = Vec::new();
        let mut idx: u32 = 0;
        proof {
            lemma_connected_empty();
        }
        while idx < n
            invariant
                n == rows * cols,
                idx <= n,
                edges@ == grid_edges_upto(n as int, cols as int, idx as int),
                forall|a: u32, b: u32|
                    #[trigger] connected(edges@, a, b) <==> ((grid_edge(n as int, cols as int, a as int, b as int) && a < idx)
                        || (grid_edge(n as int, cols as int, b as int, a as int) && b < idx)),
            decreases n - idx,
        {
            assert(cols > 0) by (nonlinear_arith)
                requires
                    idx < n,
                    n == rows * cols,
            ;
            let c: u32 = idx % cols;
            let ghost before = edges@;
            if c + 1 < cols {
                proof {
                    lemma_connected_push(edges@, (idx, (idx + 1) as u32));
                }
                edges.push((idx, idx + 1));
            }
            if cols < n - idx {
                proof {
                    lemma_connected_push(edges@, (idx, (idx + cols) as u32));
                }
                edges.push((idx, idx + cols));
            }
            assert(edges@ =~= before + grid_cell_edges(n as int, cols as int, idx as int));
            idx = idx + 1;
        }
        Topology { kind: TopologyKind::Grid { rows, cols }, edges }
    }

    /// A topology with the given edges.
    pub fn custom(edges: Vec<(u32, u32)>) -> (r: Topology)
        ensures
            r.kind == TopologyKind::Custom,
            r.edges@ == edges@,
    {
        Topology { kind: TopologyKind::Custom, edges }
    }

    /// Zoned neutral-atom device: the qubits are split into `zones` consecutive
    /// zones of `num_qubits / zones` qubits (the last zone takes the rest);
    /// qubits within a zone are fully connected, qubits of different zones not.
    pub fn neutral_atom(num_qubits: u32, zones: u32) -> (r: Topology)
        ensures
            r.kind == (TopologyKind::NeutralAtom { zones }),
            forall|z: int, a: u32, b: u32|
                #![trigger in_zone(num_qubits, zones, z, a as int), r.spec_connected(a, b)]
                in_zone(num_qubits, zones, z, a as int) && in_zone(num_qubits, zones, z, b as int)
                    && a != b ==> r.spec_connected(a, b),
            forall|z1: int, z2: int, a: u32, b: u32|
                #![trigger in_zone(num_qubits, zones, z1, a as int), in_zone(num_qubits, zones, z2, b as int), r.spec_connected(a, b)]
                in_zone(num_qubits, zones, z1, a as int) && in_zone(num_qubits, zones, z2, b as int)
                    && z1 != z2 ==> !r.spec_connected(a, b),
            forall|a: u32, b: u32| #[trigger] r.spec_connected(a, b) ==> a != b,
            forall|a: u32, b: u32|
                #[trigger] r.spec_connected(a, b) ==> exists|z: int|
                    #[trigger] in_zone(num_qubits, zones, z, a as int) && in_zone(num_qubits, zones, z, b as int),
            forall|k: int|
                #![trigger r.edges@[k]]
                0 <= k < r.edges@.len() ==> r.edges@[k].0 < r.edges@[k].1 && r.edges@[k].1 < num_qubits,
    {
        let divisor: u32 = if zones == 0 { 1 } else { zones };
        let width: u32 = num_qubits / divisor;
        let mut edges: Vec<(u32, u32)> = Vec::new();
        let mut z: u32 = 0;
        proof {
            lemma_connected_empty();
            assert(width as int * divisor <= num_qubits) by (nonlinear_arith)
                requires
                    width as int == num_qubits as int / divisor as int,
                    divisor > 0,
            ;
        }
        while z < zones
            invariant
                z <= zones,
                divisor as int == if zones == 0 { 1int } else { zones as int },
                width as int == zone_width(num_qubits, zones),
                width as int * divisor <= num_qubits,
                forall|k: int|
                    0 <= k < edges@.len() ==> #[trigger] zone_edge(num_qubits, zones, edges@[k].0, edges@[k].1),
                forall|zz: int, a: u32, b: u32|
                    #![trigger in_zone(num_qubits, zones, zz, a as int), connected(edges@, a, b)]
                    zz < z && in_zone(num_qubits, zones, zz, a as int) && in_zone(num_qubits, zones, zz, b as int)
                        && a != b ==> connected(edges@, a, b),
            decreases zones - z,
        {
            assert(z as int * width <= num_qubits && z as int * width + width <= num_qubits) by (nonlinear_arith)
                requires
                    z < zones,
                    divisor == zones,
                    width as int * divisor <= num_qubits,
                    width >= 0,
            ;
            let start: u32 = z * width;
            let end: u32 = if z == zones - 1 { num_qubits } else { start + width };
            assert(start as int == zone_start(num_qubits, zones, z as int));
            assert(end as int == zone_end(num_qubits, zones, z as int)) by (nonlinear_arith)
                requires
                    end as int == if z == zones - 1 { num_qubits as int } else { start + width },
                    start as int == z * width,
                    zone_end(num_qubits, zones, z as int) == if z == zones - 1 { num_qubits as int } else { (z + 1) * width },
            ;
            let mut i: u32 = start;
            while i < end
                invariant
                    z < zones,
                    divisor as int == zones,
                    width as int == zone_width(num_qubits, zones),
                    width as int * divisor <= num_qubits,
                    start as int == zone_start(num_qubits, zones, z as int),
                    end as int == zone_end(num_qubits, zones, z as int),
                    end <= num_qubits,
                    start <= i,
                    i <= end || start >= end,
                    forall|k: int|
                        0 <= k < edges@.len() ==> #[trigger] zone_edge(num_qubits, zones, edges@[k].0, edges@[k].1),
                    forall|zz: int, a: u32, b: u32|
                        #![trigger in_zone(num_qubits, zones, zz, a as int), connected(edges@, a, b)]
                        zz < z && in_zone(num_qubits, zones, zz, a as int) && in_zone(num_qubits, zones, zz, b as int)
                            && a != b ==> connected(edges@, a, b),
                    forall|a: u32, b: u32|
                        start <= a < end && start <= b < end && (a < i || b < i) && a != b
                            ==> #[trigger] connected(edges@, a, b),
                decreases end - i,
            {
                let mut j: u32 = i + 1;
                while j < end
                    invariant
                        z < zones,
                        start as int == zone_start(num_qubits, zones, z as int),
                        end as int == zone_end(num_qubits, zones, z as int),
                        end <= num_qubits,
                        start <= i < end,
                        i < j <= end,
                        forall|k: int|
                            0 <= k < edges@.len() ==> #[trigger] zone_edge(num_qubits, zones, edges@[k].0, edges@[k].1),
                        forall|zz: int, a: u32, b: u32|
                            #![trigger in_zone(num_qubits, zones, zz, a as int), connected(edges@, a, b)]
                            zz < z && in_zone(num_qubits, zones, zz, a as int) && in_zone(num_qubits, zones, zz, b as int)
                                && a != b ==> connected(edges@, a, b),
                        forall|a: u32, b: u32|
                            start <= a < end && start <= b < end && (a < i || b < i
                                || (a == i && b < j) || (b == i && a < j)) && a != b
                                ==> #[trigger] connected(edges@, a, b),
                    decreases end - j,
                {
                    proof {
                        lemma_connected_push(edges@, (i, j));
                        assert(in_zone(num_qubits, zones, z as int, i as int));
                        assert(in_zone(num_qubits, zones, z as int, j as int));
                        assert(zone_edge(num_qubits, zones, i, j));
                    }
                    edges.push((i, j));
                    j = j + 1;
                }
                i = i + 1;
            }
            z = z + 1;
        }
        proof {
            assert forall|z1: int, z2: int, a: u32, b: u32|
                #![trigger in_zone(num_qubits, zones, z1, a as int), in_zone(num_qubits, zones, z2, b as int), connected(edges@, a, b)]
                in_zone(num_qubits, zones, z1, a as int) && in_zone(num_qubits, zones, z2, b as int)
                    && z1 != z2 implies !connected(edges@, a, b) by {
                if connected(edges@, a, b) {
                    let k = choose|k: int| 0 <= k < edges@.len() && #[trigger] edge_joins(edges@[k], a, b);
                    assert(zone_edge(num_qubits, zones, edges@[k].0, edges@[k].1));
                    let zz = choose|zz: int|
                        zz <= z - 1 && #[trigger] in_zone(num_qubits, zones, zz, edges@[k].0 as int)
                            && in_zone(num_qubits, zones, zz, edges@[k].1 as int);
                    lemma_zones_disjoint(num_qubits, zones, z1, zz, a as int);
                    lemma_zones_disjoint(num_qubits, zones, z2, zz, b as int);
                }
            }
        }
        proof {
            assert forall|a: u32, b: u32| #[trigger] connected(edges@, a, b) implies a != b && exists|z: int|
                    #[trigger] in_zone(num_qubits, zones, z, a as int) && in_zone(num_qubits, zones, z, b as int) by {
                let k = choose|k: int| 0 <= k < edges@.len() && #[trigger] edge_joins(edges@[k], a, b);
                assert(zone_edge(num_qubits, zones, edges@[k].0, edges@[k].1));
                let zz = choose|zz: int|
                    #[trigger] in_zone(num_qubits, zones, zz, edges@[k].0 as int)
                        && in_zone(num_qubits, zones, zz, edges@[k].1 as int);
                assert(in_zone(num_qubits, zones, zz, a as int) && in_zone(num_qubits, zones, zz, b as int));
            }
            assert forall|k: int|
                #![trigger edges@[k]]
                0 <= k < edges@.len() implies edges@[k].0 < edges@[k].1 && edges@[k].1 < num_qubits by {
                assert(zone_edge(num_qubits, zones, edges@[k].0, edges@[k].1));
            }
        }
        Topology { kind: TopologyKind::NeutralAtom { zones }, edges }
    }

    /// Whether qubits `q1` and `q2` are connected, in either direction.
    pub fn is_connected(&self, q1: u32, q2: u32) -> (r: bool)
        ensures
            r == self.spec_connected(q1, q2),
    {
        let mut k: usize = 0;
        while k < self.edges.len()
            invariant
                k <= self.edges@.len(),
                forall|m: int| 0 <= m < k ==> !#[trigger] edge_joins(self.edges@[m], q1, q2),
            decreases self.edges@.len() - k,
        {
            let (a, b) = self.edges[k];
            if (a == q1 && b == q2) || (a == q2 && b == q1) {
                assert(edge_joins(self.edges@[k as int], q1, q2));
                return true;
            }
            k = k + 1;
        }
        false
    }
}

/// Connectivity is symmetric: `a` is connected to `b` exactly when `b` is
/// connected to `a`, for every topology.
pub proof fn lemma_connected_symmetric(t: Topology, a: u32, b: u32)
    ensures
        t.spec_connected(a, b) == t.spec_connected(b, a),
{
    if t.spec_connected(a, b) {
        let k = choose|k: int| 0 <= k < t.edges@.len() && #[trigger] edge_joins(t.edges@[k], a, b);
        assert(edge_joins(t.edges@[k], b, a));
    }
    if t.spec_connected(b, a) {
        let k = choose|k: int| 0 <= k < t.edges@.len() && #[trigger] edge_joins(t.edges@[k], b, a);
        assert(edge_joins(t.edges@[k], a, b));
    }
}


/// The texts of a list of names.
pub open spec fn names_of(v: Seq<String>) -> Seq<Seq<char>> {
    v.map_values(|s: String| s@)
}

/// Whether `op` is one of the names in `v` (exact, case-sensitive match).
pub open spec fn lists(v: Seq<String>, op: Seq<char>) -> bool {
    exists|i: int| 0 <= i < v.len() && #[trigger] v[i]@ == op
}

fn empty_names() -> (r: Vec<String>)
    ensures
        names_of(r@) == Seq::<Seq<char>>::empty(),
{
    let r: Vec<String> = Vec::new();
    assert(names_of(r@) =~= Seq::<Seq<char>>::empty());
    r
}

fn push_name(v: &mut Vec<String>, name: &str)
    ensures
        names_of(final(v)@) == names_of(old(v)@).push(name@),
{
    v.push(String::from_str(name));
    assert(names_of(final(v)@) =~= names_of(old(v)@).push(name@));
}

fn list_has(v: &Vec<String>, op: &String) -> (r: bool)
    ensures
        r == lists(v@, op@),
{
    let mut i: usize = 0;
    while i < v.len()
        invariant
            i <= v@.len(),
            forall|k: int| 0 <= k < i ==> v@[k]@ != op@,
        decreases v@.len() - i,
    {
        if v[i] == *op {
            return true;
        }
        i = i + 1;
    }
    false
}

/// Operations a backend supports, by number of operands, and the subset that
/// runs without decomposition. Names are compared exactly, case-sensitively.
///
/// If `native` is empty, every listed operation is native (typical for simulators).
#[derive(Debug, Clone)]
pub struct GateSet {
    /// Single-qubit operations.
    pub single_qubit: Vec<String>,
    /// Two-qubit operations.
    pub two_qubit: Vec<String>,
    /// Three-qubit operations.
    pub three_qubit: Vec<String>,
    /// Native operations (run without decomposition).
    pub native: Vec<String>,
}

impl GateSet {
    /// The four lists hold exactly the given names, in order.
    pub open spec fn has_lists(
        &self,
        single: Seq<Seq<char>>,
        two: Seq<Seq<char>>,
        three: Seq<Seq<char>>,
        native: Seq<Seq<char>>,
    ) -> bool {
        &&& names_of(self.single_qubit@) == single
        &&& names_of(self.two_qubit@) == two
        &&& names_of(self.three_qubit@) == three
        &&& names_of(self.native@) == native
    }

    pub open spec fn spec_contains(&self, op: Seq<char>) -> bool {
        lists(self.single_qubit@, op) || lists(self.two_qubit@, op) || lists(self.three_qubit@, op)
    }

    pub open spec fn spec_is_native(&self, op: Seq<char>) -> bool {
        if self.native@.len() == 0 {
            self.spec_contains(op)
        } else {
            lists(self.native@, op)
        }
    }

    pub open spec fn is_iqm_set(&self) -> bool {
        self.has_lists(seq!["prx"@], seq!["cz"@], seq![], Seq::empty().push("prx"@).push("cz"@))
    }

    pub open spec fn is_ibm_eagle_set(&self) -> bool {
        self.has_lists(
            Seq::empty().push("rz"@).push("sx"@).push("x"@).push("id"@),
            seq!["ecr"@],
            seq![],
            Seq::empty().push("rz"@).push("sx"@).push("x"@).push("ecr"@),
        )
    }

    pub open spec fn is_ibm_heron_set(&self) -> bool {
        self.has_lists(
            Seq::empty().push("rz"@).push("sx"@).push("x"@).push("id"@).push("rx"@).push("h"@),
            Seq::empty().push("cz"@).push("rzz"@),
            seq![],
            Seq::empty().push("rz"@).push("sx"@).push("x"@).push("cz"@).push("id"@).push("rx"@).push("h"@).push("rzz"@),
        )
    }

    pub open spec fn is_universal_set(&self) -> bool {
        self.has_lists(
            Seq::empty().push("id"@).push("x"@).push("y"@).push("z"@).push("h"@).push("s"@).push("sdg"@).push("t"@).push("tdg"@).push("sx"@).push("sxdg"@).push("rx"@).push("ry"@).push("rz"@).push("p"@).push("u"@).push("prx"@),
            Seq::empty().push("cx"@).push("cy"@).push("cz"@).push("ch"@).push("swap"@).push("iswap"@).push("crx"@).push("cry"@).push("crz"@).push("cp"@).push("rxx"@).push("ryy"@).push("rzz"@),
            Seq::empty().push("ccx"@).push("cswap"@),
            seq![],
        )
    }

    pub open spec fn is_rigetti_set(&self) -> bool {
        self.has_lists(Seq::empty().push("rx"@).push("rz"@), seq!["cz"@], seq![], Seq::empty().push("rx"@).push("rz"@).push("cz"@))
    }

    pub open spec fn is_ionq_set(&self) -> bool {
        self.has_lists(
            Seq::empty().push("rx"@).push("ry"@).push("rz"@),
            seq!["xx"@],
            seq![],
            Seq::empty().push("rx"@).push("ry"@).push("rz"@).push("xx"@),
        )
    }

    pub open spec fn is_neutral_atom_set(&self) -> bool {
        self.has_lists(
            Seq::empty().push("rz"@).push("rx"@).push("ry"@),
            seq!["cz"@],
            seq![],
            Seq::empty().push("rz"@).push("rx"@).push("ry"@).push("cz"@),
        )
    }

    /// IQM gate set: `prx` and `cz`, both native.
    pub fn iqm() -> (r: GateSet)
        ensures
            r.is_iqm_set(),
    {
        let mut single = empty_names();
        push_name(&mut single, "prx");
        let mut two = empty_names();
        push_name(&mut two, "cz");
        let mut native = empty_names();
        push_name(&mut native, "prx");
        push_name(&mut native, "cz");
        GateSet { single_qubit: single, two_qubit: two, three_qubit: empty_names(), native }
    }

    /// IBM Eagle gate set: native `ecr, rz, sx, x`.
    pub fn ibm_eagle() -> (r: GateSet)
        ensures
            r.is_ibm_eagle_set(),
    {
        let mut single = empty_names();
        push_name(&mut single, "rz");
        push_name(&mut single, "sx");
        push_name(&mut single, "x");
        push_name(&mut single, "id");
        let mut two = empty_names();
        push_name(&mut two, "ecr");
        let mut native = empty_names();
        push_name(&mut native, "rz");
        push_name(&mut native, "sx");
        push_name(&mut native, "x");
        push_name(&mut native, "ecr");
        GateSet { single_qubit: single, two_qubit: two, three_qubit: empty_names(), native }
    }

    /// IBM Heron gate set: native `cz, rz, sx, x`, and also `id, rx, h, rzz`.
    pub fn ibm_heron() -> (r: GateSet)
        ensures
            r.is_ibm_heron_set(),
    {
        let mut single = empty_names();
        push_name(&mut single, "rz");
        push_name(&mut single, "sx");
        push_name(&mut single, "x");
        push_name(&mut single, "id");
        push_name(&mut single, "rx");
        push_name(&mut single, "h");
        let mut two = empty_names();
        push_name(&mut two, "cz");
        push_name(&mut two, "rzz");
        let mut native = empty_names();
        push_name(&mut native, "rz");
        push_name(&mut native, "sx");
        push_name(&mut native, "x");
        push_name(&mut native, "cz");
        push_name(&mut native, "id");
        push_name(&mut native, "rx");
        push_name(&mut native, "h");
        push_name(&mut native, "rzz");
        GateSet { single_qubit: single, two_qubit: two, three_qubit: empty_names(), native }
    }

    /// All standard operations, with an empty native list (every one native).
    pub fn universal() -> (r: GateSet)
        ensures
            r.is_universal_set(),
    {
        let mut single = empty_names();
        push_name(&mut single, "id");
        push_name(&mut single, "x");
        push_name(&mut single, "y");
        push_name(&mut single, "z");
        push_name(&mut single, "h");
        push_name(&mut single, "s");
        push_name(&mut single, "sdg");
        push_name(&mut single, "t");
        push_name(&mut single, "tdg");
        push_name(&mut single, "sx");
        push_name(&mut single, "sxdg");
        push_name(&mut single, "rx");
        push_name(&mut single, "ry");
        push_name(&mut single, "rz");
        push_name(&mut single, "p");
        push_name(&mut single, "u");
        push_name(&mut single, "prx");
        let mut two = empty_names();
        push_name(&mut two, "cx");
        push_name(&mut two, "cy");
        push_name(&mut two, "cz");
        push_name(&mut two, "ch");
        push_name(&mut two, "swap");
        push_name(&mut two, "iswap");
        push_name(&mut two, "crx");
        push_name(&mut two, "cry");
        push_name(&mut two, "crz");
        push_name(&mut two, "cp");
        push_name(&mut two, "rxx");
        push_name(&mut two, "ryy");
        push_name(&mut two, "rzz");
        let mut three = empty_names();
        push_name(&mut three, "ccx");
        push_name(&mut three, "cswap");
        GateSet { single_qubit: single, two_qubit: two, three_qubit: three, native: empty_names() }
    }

    /// Rigetti gate set: `rx, rz, cz`, all native.
    pub fn rigetti() -> (r: GateSet)
        ensures
            r.is_rigetti_set(),
    {
        let mut single = empty_names();
        push_name(&mut single, "rx");
        push_name(&mut single, "rz");
        let mut two = empty_names();
        push_name(&mut two, "cz");
        let mut native = empty_names();
        push_name(&mut native, "rx");
        push_name(&mut native, "rz");
        push_name(&mut native, "cz");
        GateSet { single_qubit: single, two_qubit: two, three_qubit: empty_names(), native }
    }

    /// IonQ gate set: `rx, ry, rz, xx`, all native.
    pub fn ionq() -> (r: GateSet)
        ensures
            r.is_ionq_set(),
    {
        let mut single = empty_names();
        push_name(&mut single, "rx");
        push_name(&mut single, "ry");
        push_name(&mut single, "rz");
        let mut two = empty_names();
        push_name(&mut two, "xx");
        let mut native = empty_names();
        push_name(&mut native, "rx");
        push_name(&mut native, "ry");
        push_name(&mut native, "rz");
        push_name(&mut native, "xx");
        GateSet { single_qubit: single, two_qubit: two, three_qubit: empty_names(), native }
    }

    /// Neutral-atom gate set: `rz, rx, ry, cz`, all native.
    pub fn neutral_atom() -> (r: GateSet)
        ensures
            r.is_neutral_atom_set(),
    {
        let mut single = empty_names();
        push_name(&mut single, "rz");
        push_name(&mut single, "rx");
        push_name(&mut single, "ry");
        let mut two = empty_names();
        push_name(&mut two, "cz");
        let mut native = empty_names();
        push_name(&mut native, "rz");
        push_name(&mut native, "rx");
        push_name(&mut native, "ry");
        push_name(&mut native, "cz");
        GateSet { single_qubit: single, two_qubit: two, three_qubit: empty_names(), native }
    }

    /// Whether `gate` is listed among the one-, two- or three-qubit operations.
    pub fn contains(&self, gate: &str) -> (r: bool)
        ensures
            r == self.spec_contains(gate@),
    {
        let g = String::from_str(gate);
        list_has(&self.single_qubit, &g) || list_has(&self.two_qubit, &g) || list_has(
            &self.three_qubit,
            &g,
        )
    }

    /// Whether `gate` runs without decomposition: listed in `native`, or, when
    /// `native` is empty, supported at all.
    pub fn is_native(&self, gate: &str) -> (r: bool)
        ensures
            r == self.spec_is_native(gate@),
    {
        if self.native.len() == 0 {
            self.contains(gate)
        } else {
            let g = String::from_str(gate);
            list_has(&self.native, &g)
        }
    }
}

/// With an empty native list an operation is native exactly when it is
/// supported; otherwise exactly when the native list names it.
pub proof fn lemma_native_fallback(g: GateSet, op: Seq<char>)
    ensures
        g.native@.len() == 0 ==> (g.spec_is_native(op) == g.spec_contains(op)),
        g.native@.len() != 0 ==> (g.spec_is_native(op) == lists(g.native@, op)),
{
}


/// Smallest `k` with `k * k >= n`.
fn ceil_sqrt(n: u32) -> (k: u32)
    ensures
        k * k >= n,
        k == 0 || (k - 1) * (k - 1) < n,
        k <= 65536,
{
    let mut k: u32 = 0;
    loop
        invariant
            k <= 65536,
            k == 0 || (k - 1) * (k - 1) < n,
        ensures
            k <= 65536,
            k * k >= n,
            k == 0 || (k - 1) * (k - 1) < n,
        decreases 65536 - k,
    {
        assert((k as u64) * (k as u64) <= 65536 * 65536) by (nonlinear_arith)
            requires
                k <= 65536,
        ;
        if (k as u64) * (k as u64) >= n as u64 {
            break;
        }
        assert(k < 65536) by (nonlinear_arith)
            requires
                k <= 65536,
                (k as u64) * (k as u64) < n as u64,
                n <= u32::MAX,
        ;
        k = k + 1;
    }
    k
}

/// Hardware description of a backend: qubit count, supported operations,
/// connectivity, shot limit. Built once, without I/O; never changed in place.
#[derive(Debug, Clone)]
pub struct Capabilities {
    /// Name of the backend.
    pub name: String,
    /// Number of qubits available.
    pub num_qubits: u32,
    /// Supported operations.
    pub gate_set: GateSet,
    /// Qubit connectivity; all edges undirected.
    pub topology: Topology,
    /// Maximum number of shots per job.
    pub max_shots: u32,
    /// Whether this is a simulator rather than real hardware.
    pub is_simulator: bool,
    /// Further features of the backend.
    pub features: Vec<String>,
}

impl Capabilities {
    /// A simulator: universal operations, full connectivity, 100 000 shots.
    pub fn simulator(num_qubits: u32) -> (r: Capabilities)
        ensures
            r.name@ == "simulator"@,
            r.num_qubits == num_qubits,
            r.gate_set.is_universal_set(),
            r.topology.kind == TopologyKind::FullyConnected,
            r.topology.edges@ == full_edges(num_qubits),
            forall|a: u32, b: u32|
                #[trigger] r.topology.spec_connected(a, b) <==> (a != b && a < num_qubits && b
                    < num_qubits),
            r.max_shots == 100_000,
            r.is_simulator,
            names_of(r.features@) == Seq::empty().push("statevector"@).push("unitary"@),
    {
        let mut features = empty_names();
        push_name(&mut features, "statevector");
        push_name(&mut features, "unitary");
        Capabilities {
            name: String::from_str("simulator"),
            num_qubits,
            gate_set: GateSet::universal(),
            topology: Topology::full(num_qubits),
            max_shots: 100_000,
            is_simulator: true,
            features,
        }
    }

    /// An IQM device: `prx`/`cz`, star connectivity, 20 000 shots.
    pub fn iqm(name: &str, num_qubits: u32) -> (r: Capabilities)
        ensures
            r.name@ == name@,
            r.num_qubits == num_qubits,
            r.gate_set.is_iqm_set(),
            r.topology.kind == TopologyKind::Star,
            r.topology.edges@ == star_edges(num_qubits),
            forall|a: u32, b: u32|
                #[trigger] r.topology.spec_connected(a, b) <==> (a != b && ((a == 0 && b
                    < num_qubits) || (b == 0 && a < num_qubits))),
            r.max_shots == 20_000,
            !r.is_simulator,
            r.features@.len() == 0,
    {
        Capabilities {
            name: String::from_str(name),
            num_qubits,
            gate_set: GateSet::iqm(),
            topology: Topology::star(num_qubits),
            max_shots: 20_000,
            is_simulator: false,
            features: Vec::new(),
        }
    }

    /// An IBM Eagle processor; the topology starts empty (see `with_topology`).
    pub fn ibm_eagle(name: &str, num_qubits: u32) -> (r: Capabilities)
        ensures
            r.name@ == name@,
            r.num_qubits == num_qubits,
            r.gate_set.is_ibm_eagle_set(),
            r.topology.kind == TopologyKind::Custom,
            r.topology.edges@.len() == 0,
            r.max_shots == 100_000,
            !r.is_simulator,
            names_of(r.features@) == seq!["dynamic_circuits"@],
    {
        let mut features = empty_names();
        push_name(&mut features, "dynamic_circuits");
        Capabilities {
            name: String::from_str(name),
            num_qubits,
            gate_set: GateSet::ibm_eagle(),
            topology: Topology::custom(Vec::new()),
            max_shots: 100_000,
            is_simulator: false,
            features,
        }
    }

    /// An IBM Heron processor; the topology starts empty (see `with_topology`).
    pub fn ibm_heron(name: &str, num_qubits: u32) -> (r: Capabilities)
        ensures
            r.name@ == name@,
            r.num_qubits == num_qubits,
            r.gate_set.is_ibm_heron_set(),
            r.topology.kind == TopologyKind::Custom,
            r.topology.edges@.len() == 0,
            r.max_shots == 100_000,
            !r.is_simulator,
            names_of(r.features@) == seq!["dynamic_circuits"@],
    {
        let mut features = empty_names();
        push_name(&mut features, "dynamic_circuits");
        Capabilities {
            name: String::from_str(name),
            num_qubits,
            gate_set: GateSet::ibm_heron(),
            topology: Topology::custom(Vec::new()),
            max_shots: 100_000,
            is_simulator: false,
            features,
        }
    }

    /// A zoned neutral-atom device.
    pub fn neutral_atom(name: &str, num_qubits: u32, zones: u32) -> (r: Capabilities)
        ensures
            r.name@ == name@,
            r.num_qubits == num_qubits,
            r.gate_set.is_neutral_atom_set(),
            r.topology.kind == (TopologyKind::NeutralAtom { zones }),
            forall|z: int, a: u32, b: u32|
                #![trigger in_zone(num_qubits, zones, z, a as int), r.topology.spec_connected(a, b)]
                in_zone(num_qubits, zones, z, a as int) && in_zone(num_qubits, zones, z, b as int)
                    && a != b ==> r.topology.spec_connected(a, b),
            forall|z1: int, z2: int, a: u32, b: u32|
                #![trigger in_zone(num_qubits, zones, z1, a as int), in_zone(num_qubits, zones, z2, b as int), r.topology.spec_connected(a, b)]
                in_zone(num_qubits, zones, z1, a as int) && in_zone(num_qubits, zones, z2, b as int)
                    && z1 != z2 ==> !r.topology.spec_connected(a, b),
            forall|a: u32, b: u32|
                #[trigger] r.topology.spec_connected(a, b) ==> a != b && exists|z: int|
                    #[trigger] in_zone(num_qubits, zones, z, a as int) && in_zone(num_qubits, zones, z, b as int),
            forall|k: int|
                #![trigger r.topology.edges@[k]]
                0 <= k < r.topology.edges@.len() ==> r.topology.edges@[k].0 < r.topology.edges@[k].1
                    && r.topology.edges@[k].1 < num_qubits,
            r.max_shots == 100_000,
            !r.is_simulator,
            names_of(r.features@) == Seq::empty().push("shuttling"@).push("zoned"@),
    {
        let mut features = empty_names();
        push_name(&mut features, "shuttling");
        push_name(&mut features, "zoned");
        Capabilities {
            name: String::from_str(name),
            num_qubits,
            gate_set: GateSet::neutral_atom(),
            topology: Topology::neutral_atom(num_qubits, zones),
            max_shots: 100_000,
            is_simulator: false,
            features,
        }
    }

    /// A Rigetti device: a square grid of side `ceil(sqrt(num_qubits))`.
    pub fn rigetti(name: &str, num_qubits: u32) -> (r: Capabilities)
        requires
            num_qubits <= 65535 * 65535,
        ensures
            r.name@ == name@,
            r.num_qubits == num_qubits,
            r.gate_set.is_rigetti_set(),
            r.topology.kind is Grid,
            r.topology.kind->Grid_rows == r.topology.kind->Grid_cols,
            ({
                let side = r.topology.kind->Grid_rows;
                &&& r.topology.edges@ == grid_edges(side, side)
                &&& side * side >= num_qubits
                &&& side == 0 || (side - 1) * (side - 1) < num_qubits
                &&& forall|a: u32, b: u32|
                    #[trigger] r.topology.spec_connected(a, b) <==> (grid_edge(side * side, side as int, a as int, b as int)
                        || grid_edge(side * side, side as int, b as int, a as int))
            }),
            r.max_shots == 100_000,
            !r.is_simulator,
            r.features@.len() == 0,
    {
        let side = ceil_sqrt(num_qubits);
        assert(side * side <= u32::MAX) by (nonlinear_arith)
            requires
                side == 0 || (side - 1) * (side - 1) < num_qubits,
                num_qubits <= 65535 * 65535,
                side <= 65536,
        ;
        Capabilities {
            name: String::from_str(name),
            num_qubits,
            gate_set: GateSet::rigetti(),
            topology: Topology::grid(side, side),
            max_shots: 100_000,
            is_simulator: false,
            features: Vec::new(),
        }
    }

    /// An IonQ device: full connectivity.
    pub fn ionq(name: &str, num_qubits: u32) -> (r: Capabilities)
        ensures
            r.name@ == name@,
            r.num_qubits == num_qubits,
            r.gate_set.is_ionq_set(),
            r.topology.kind == TopologyKind::FullyConnected,
            r.topology.edges@ == full_edges(num_qubits),
            forall|a: u32, b: u32|
                #[trigger] r.topology.spec_connected(a, b) <==> (a != b && a < num_qubits && b
                    < num_qubits),
            r.max_shots == 100_000,
            !r.is_simulator,
            r.features@.len() == 0,
    {
        Capabilities {
            name: String::from_str(name),
            num_qubits,
            gate_set: GateSet::ionq(),
            topology: Topology::full(num_qubits),
            max_shots: 100_000,
            is_simulator: false,
            features: Vec::new(),
        }
    }

    /// The same capabilities with another topology.
    pub fn with_topology(self, topology: Topology) -> (r: Capabilities)
        ensures
            r == (Capabilities { topology, ..self }),
    {
        Capabilities { topology, ..self }
    }
}

} // verus!
