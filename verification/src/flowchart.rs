//! Read-only flowchart model: nodes, directed edges, and the longest-path
//! layering that arranges nodes left to right (cycles are cut by capping the
//! number of relaxation passes).

use vstd::prelude::*;
use crate::tone::Tone;

verus! {

/// A flowchart node. `tone` tints the node's leading edge (Neutral = none).
#[derive(Clone, Debug)]
pub struct FlowNode {
    pub id: String,
    pub label: String,
    pub tone: Tone,
}

impl FlowNode {
    pub fn new(id: &str, label: &str) -> (n: FlowNode)
        ensures
            n.id@ == id@,
            n.label@ == label@,
            n.tone == Tone::Neutral,
    {
        FlowNode { id: id.to_owned(), label: label.to_owned(), tone: Tone::Neutral }
    }

    pub fn tone(self, tone: Tone) -> (n: FlowNode)
        ensures
            n.id == self.id,
            n.label == self.label,
            n.tone == tone,
    {
        FlowNode { tone, ..self }
    }
}

/// A directed edge. `broken` renders dashed in the danger tint.
#[derive(Clone, Debug)]
pub struct FlowEdge {
    pub from: String,
    pub to: String,
    pub label: Option<String>,
    pub broken: bool,
}

impl FlowEdge {
    pub fn new(from: &str, to: &str) -> (e: FlowEdge)
        ensures
            e.from@ == from@,
            e.to@ == to@,
            e.label is None,
            !e.broken,
    {
        FlowEdge { from: from.to_owned(), to: to.to_owned(), label: None, broken: false }
    }

    pub fn label(self, label: &str) -> (e: FlowEdge)
        ensures
            e.from == self.from,
            e.to == self.to,
            e.label matches Some(l) && l@ == label@,
            e.broken == self.broken,
    {
        FlowEdge { label: Some(label.to_owned()), ..self }
    }

    pub fn broken(self, broken: bool) -> (e: FlowEdge)
        ensures
            e.from == self.from,
            e.to == self.to,
            e.label == self.label,
            e.broken == broken,
    {
        FlowEdge { broken, ..self }
    }
}

/// An auto-laid-out static flowchart over borrowed nodes and edges.
#[derive(Clone, Copy, Debug)]
pub struct Flowchart<'a> {
    nodes: &'a [FlowNode],
    edges: &'a [FlowEdge],
}

impl<'a> Flowchart<'a> {
    pub fn new(nodes: &'a [FlowNode], edges: &'a [FlowEdge]) -> (f: Flowchart<'a>)
        ensures
            f.spec_nodes() == nodes,
            f.spec_edges() == edges,
    {
        Flowchart { nodes, edges }
    }

    pub closed spec fn spec_nodes(&self) -> &'a [FlowNode] {
        self.nodes
    }

    pub closed spec fn spec_edges(&self) -> &'a [FlowEdge] {
        self.edges
    }

    /// The layer (column) of each node, in node order (see [`layers`]).
    pub fn layers(&self) -> (l: Vec<usize>)
        requires
            (if self.spec_nodes()@.len() > 1 { self.spec_nodes()@.len() } else { 1 })
                * self.spec_edges()@.len() <= usize::MAX,
        ensures
            l@.map_values(|x: usize| x as int) == spec_layers(self.spec_nodes()@, self.spec_edges()@),
    {
        layers(self.nodes, self.edges)
    }
}

/* ---------------- layering ---------------- */

/// The first index at or after `k` of a node with id `id`.
pub open spec fn find_id(nodes: Seq<FlowNode>, id: Seq<char>, k: int) -> Option<int>
    decreases nodes.len() - k,
{
    if k < 0 || k >= nodes.len() {
        None
    } else if nodes[k].id@ == id {
        Some(k)
    } else {
        find_id(nodes, id, k + 1)
    }
}

/// Each edge as `(from, to)` indices of the first nodes carrying its ids,
/// or `None` when an end names no node.
pub open spec fn resolve_edges(nodes: Seq<FlowNode>, edges: Seq<FlowEdge>) -> Seq<Option<(int, int)>> {
    Seq::new(
        edges.len(),
        |j: int|
            match (find_id(nodes, edges[j].from@, 0), find_id(nodes, edges[j].to@, 0)) {
                (Some(f), Some(t)) => Some((f, t)),
                _ => None,
            },
    )
}

/// One relaxation pass over the first `j` edges: an edge whose target sits
/// in a layer not after its source pushes the target one layer past the
/// source. Also says whether anything moved.
pub open spec fn relax(layer: Seq<int>, es: Seq<Option<(int, int)>>, j: int) -> (Seq<int>, bool)
    decreases j,
{
    if j <= 0 {
        (layer, false)
    } else {
        let (l, c) = relax(layer, es, j - 1);
        match es[j - 1] {
            Some((f, t)) => if l[t] < l[f] + 1 {
                (l.update(t, l[f] + 1), true)
            } else {
                (l, c)
            },
            None => (l, c),
        }
    }
}

/// Up to `passes` relaxation passes over all edges, stopping after the
/// first pass that moves nothing.
pub open spec fn run_passes(layer: Seq<int>, es: Seq<Option<(int, int)>>, passes: nat) -> Seq<int>
    decreases passes,
{
    if passes == 0 {
        layer
    } else {
        let (l, c) = relax(layer, es, es.len() as int);
        if !c {
            l
        } else {
            run_passes(l, es, (passes - 1) as nat)
        }
    }
}

/// The number of passes: one per node, at least one.
pub open spec fn pass_count(n: nat) -> nat {
    if n > 1 {
        n
    } else {
        1
    }
}

/// Longest-path layers of the nodes, indexed by the first node of each id:
/// every node starts in layer 0 and edges push their targets right.
pub open spec fn layer_table(nodes: Seq<FlowNode>, edges: Seq<FlowEdge>) -> Seq<int> {
    run_passes(
        Seq::new(nodes.len(), |i: int| 0int),
        resolve_edges(nodes, edges),
        pass_count(nodes.len()),
    )
}

/// The layer of each node, in node order (nodes sharing an id share it).
pub open spec fn spec_layers(nodes: Seq<FlowNode>, edges: Seq<FlowEdge>) -> Seq<int> {
    Seq::new(
        nodes.len(),
        |i: int| layer_table(nodes, edges)[find_id(nodes, nodes[i].id@, 0)->0],
    )
}

proof fn lemma_find_id(nodes: Seq<FlowNode>, id: Seq<char>, k: int)
    requires
        0 <= k,
    ensures
        find_id(nodes, id, k) matches Some(i) ==> k <= i < nodes.len() && nodes[i].id@ == id,
        (exists|i: int| k <= i < nodes.len() && nodes[i].id@ == id) ==> find_id(nodes, id, k) is Some,
    decreases nodes.len() - k,
{
    if k < nodes.len() && nodes[k].id@ != id {
        lemma_find_id(nodes, id, k + 1);
        if exists|i: int| k <= i < nodes.len() && nodes[i].id@ == id {
            let i = choose|i: int| k <= i < nodes.len() && nodes[i].id@ == id;
            assert(k + 1 <= i);
        }
    }
}

fn find_node(nodes: &[FlowNode], id: &String) -> (r: Option<usize>)
    ensures
        r matches Some(i) ==> find_id(nodes@, id@, 0) == Some(i as int),
        r is None ==> find_id(nodes@, id@, 0) is None,
{
    let mut k: usize = 0;
    while k < nodes.len()
        invariant
            k <= nodes.len(),
            find_id(nodes@, id@, 0) == find_id(nodes@, id@, k as int),
        decreases nodes.len() - k,
    {
        if nodes[k].id == *id {
            return Some(k);
        }
        k += 1;
    }
    None
}

proof fn lemma_relax_bounds(layer: Seq<int>, es: Seq<Option<(int, int)>>, j: int)
    requires
        0 <= j <= es.len(),
        forall|x: int| 0 <= x < es.len() ==> (#[trigger] es[x] matches Some((f, t)) ==> 0 <= f < layer.len() && 0 <= t < layer.len()),
    ensures
        relax(layer, es, j).0.len() == layer.len(),
        !relax(layer, es, j).1 ==> relax(layer, es, j).0 == layer,
    decreases j,
{
    if j > 0 {
        lemma_relax_bounds(layer, es, j - 1);
    }
}

/// Longest-path layering of `nodes` under `edges`: the layer of each node,
/// in node order (see [`spec_layers`]).
pub fn layers(nodes: &[FlowNode], edges: &[FlowEdge]) -> (l: Vec<usize>)
    requires
        (if nodes@.len() > 1 { nodes@.len() } else { 1 }) * edges@.len() <= usize::MAX,
    ensures
        l@.map_values(|x: usize| x as int) == spec_layers(nodes@, edges@),
{
    let n = nodes.len();
    let m = edges.len();
    let ghost es = resolve_edges(nodes@, edges@);
    // Each edge's ends as node indices.
    let mut ends: Vec<Option<(usize, usize)>> = Vec::new();
    let mut j: usize = 0;
    while j < m
        invariant
            j <= m,
            m == edges.len(),
            es == resolve_edges(nodes@, edges@),
            ends.len() == j,
            forall|x: int| 0 <= x < j ==> (#[trigger] ends@[x] matches Some((f, t)) ==> es[x] == Some((f as int, t as int))),
            forall|x: int| 0 <= x < j ==> (#[trigger] ends@[x] is None ==> es[x] is None),
        decreases m - j,
    {
        let f = find_node(nodes, &edges[j].from);
        let t = find_node(nodes, &edges[j].to);
        let e = match (f, t) {
            (Some(f), Some(t)) => Some((f, t)),
            _ => None,
        };
        ends.push(e);
        j += 1;
    }
    proof {
        assert forall|x: int| 0 <= x < es.len() implies (#[trigger] es[x] matches Some((f, t)) ==> 0 <= f < n && 0 <= t < n) by {
            lemma_find_id(nodes@, edges@[x].from@, 0);
            lemma_find_id(nodes@, edges@[x].to@, 0);
        }
    }
    let mut layer: Vec<usize> = Vec::new();
    let mut k: usize = 0;
    while k < n
        invariant
            k <= n,
            layer@ == Seq::new(k as nat, |i: int| 0usize),
        decreases n - k,
    {
        layer.push(0);
        assert(layer@ =~= Seq::new((k + 1) as nat, |i: int| 0usize));
        k += 1;
    }
    assert(layer@.map_values(|x: usize| x as int) =~= Seq::new(n as nat, |i: int| 0int));
    let passes: usize = if n > 1 { n } else { 1 };
    let ghost target = layer_table(nodes@, edges@);
    let mut p: usize = 0;
    let mut done = false;
    while p < passes && !done
        invariant
            p <= passes,
            passes == pass_count(n as nat),
            passes * m <= usize::MAX,
            m == ends.len(),
            m == es.len(),
            layer.len() == n,
            forall|x: int| 0 <= x < m ==> (#[trigger] ends@[x] matches Some((f, t)) ==> es[x] == Some((f as int, t as int))),
            forall|x: int| 0 <= x < m ==> (#[trigger] ends@[x] is None ==> es[x] is None),
            forall|x: int| 0 <= x < es.len() ==> (#[trigger] es[x] matches Some((f, t)) ==> 0 <= f < n && 0 <= t < n),
            forall|x: int| 0 <= x < n ==> #[trigger] layer@[x] <= p * m,
            !done ==> run_passes(layer@.map_values(|x: usize| x as int), es, (passes - p) as nat) == target,
            done ==> layer@.map_values(|x: usize| x as int) == target,
        decreases passes - p, if done { 0int } else { 1int },
    {
        let ghost start = layer@.map_values(|x: usize| x as int);
        assert((p + 1) * m <= passes * m) by (nonlinear_arith)
            requires
                p + 1 <= passes,
        ;
        assert((p + 1) * m == p * m + m) by (nonlinear_arith);
        let mut changed = false;
        let mut j: usize = 0;
        while j < m
            invariant
                j <= m,
                m == ends.len(),
                m == es.len(),
                layer.len() == n,
                p * m + m <= usize::MAX,
                forall|x: int| 0 <= x < m ==> (#[trigger] ends@[x] matches Some((f, t)) ==> es[x] == Some((f as int, t as int))),
                forall|x: int| 0 <= x < m ==> (#[trigger] ends@[x] is None ==> es[x] is None),
                forall|x: int| 0 <= x < es.len() ==> (#[trigger] es[x] matches Some((f, t)) ==> 0 <= f < n && 0 <= t < n),
                forall|x: int| 0 <= x < n ==> #[trigger] layer@[x] <= p * m + j,
                relax(start, es, j as int) == (layer@.map_values(|x: usize| x as int), changed),
            decreases m - j,
        {
            let ghost before = layer@.map_values(|x: usize| x as int);
            match ends[j] {
                Some((f, t)) => {
                    assert(es[j as int] == Some((f as int, t as int)));
                    let lf = layer[f];
                    let lt = layer[t];
                    if lt < lf + 1 {
                        layer.set(t, lf + 1);
                        changed = true;
                        assert(layer@.map_values(|x: usize| x as int) =~= before.update(t as int, before[f as int] + 1));
                    }
                },
                None => {},
            }
            j += 1;
        }
        proof {
            lemma_relax_bounds(start, es, m as int);
        }
        if !changed {
            assert(run_passes(start, es, (passes - p) as nat) == layer@.map_values(|x: usize| x as int));
            assert(layer@.map_values(|x: usize| x as int) == start);
            assert forall|x: int| 0 <= x < n implies #[trigger] layer@[x] <= p * m by {
                assert(layer@.map_values(|y: usize| y as int)[x] == start[x]);
            }
            done = true;
        } else {
            p += 1;
        }
    }
    let ghost fin = layer@.map_values(|x: usize| x as int);
    assert(fin == target) by {
        if !done {
            assert(p == passes);
            assert(run_passes(fin, es, 0) == fin);
        }
    }
    let mut out: Vec<usize> = Vec::new();
    let mut i: usize = 0;
    while i < n
        invariant
            i <= n,
            n == nodes.len(),
            layer.len() == n,
            fin == layer@.map_values(|x: usize| x as int),
            fin == layer_table(nodes@, edges@),
            out@.map_values(|x: usize| x as int) == spec_layers(nodes@, edges@).take(i as int),
        decreases n - i,
    {
        let c = find_node(nodes, &nodes[i].id);
        proof {
            lemma_find_id(nodes@, nodes@[i as int].id@, 0);
        }
        let ci = c.unwrap();
        assert(spec_layers(nodes@, edges@)[i as int] == fin[ci as int]);
        let ghost prev = out@;
        out.push(layer[ci]);
        assert(out@.map_values(|x: usize| x as int) =~= prev.map_values(|x: usize| x as int).push(fin[ci as int]));
        assert(spec_layers(nodes@, edges@).take(i + 1) =~= spec_layers(nodes@, edges@).take(i as int).push(spec_layers(nodes@, edges@)[i as int]));
        i += 1;
    }
    assert(spec_layers(nodes@, edges@).take(n as int) =~= spec_layers(nodes@, edges@));
    out
}

/* ---------------- layers follow edges ---------------- */

/// `r` ranks the nodes so that every edge climbs: each node gets a rank in
/// `0..n` and every resolved edge goes from a lower rank to a higher one (a
/// topological numbering; one exists exactly when the graph has no cycle).
pub open spec fn is_ranking(es: Seq<Option<(int, int)>>, r: Seq<int>, n: int) -> bool {
    &&& r.len() == n
    &&& forall|v: int| 0 <= v < n ==> 0 <= #[trigger] r[v] < n
    &&& forall|j: int|
        0 <= j < es.len() ==> (#[trigger] es[j] matches Some((f, t)) ==> 0 <= f < n && 0 <= t < n
            && r[f] < r[t])
}

/// Every resolved edge points into a later layer.
pub open spec fn edges_forward(layer: Seq<int>, es: Seq<Option<(int, int)>>) -> bool {
    forall|j: int| 0 <= j < es.len() ==> (#[trigger] es[j] matches Some((f, t)) ==> layer[t] >= layer[f] + 1)
}

/// The longest path (in edges) that ends at `v`, over a ranking `r`.
pub open spec fn depth(es: Seq<Option<(int, int)>>, r: Seq<int>, v: int) -> int
    decreases (if 0 <= v < r.len() && r[v] >= 0 { r[v] } else { 0 }), es.len() + 1,
{
    dmax(es, r, v, es.len() as int)
}

/// The longest path ending at `v` whose last edge is among the first `j`.
pub open spec fn dmax(es: Seq<Option<(int, int)>>, r: Seq<int>, v: int, j: int) -> int
    decreases (if 0 <= v < r.len() && r[v] >= 0 { r[v] } else { 0 }), if j >= 0 { j } else { 0 },
{
    if j <= 0 || j > es.len() {
        0
    } else {
        let rest = dmax(es, r, v, j - 1);
        match es[j - 1] {
            Some((f, t)) => if t == v && 0 <= f < r.len() && 0 <= v < r.len() && 0 <= r[f] < r[v] {
                let d = depth(es, r, f) + 1;
                if d > rest {
                    d
                } else {
                    rest
                }
            } else {
                rest
            },
            None => rest,
        }
    }
}

proof fn lemma_dmax(es: Seq<Option<(int, int)>>, r: Seq<int>, n: int, v: int, j: int)
    requires
        is_ranking(es, r, n),
        0 <= v < n,
        0 <= j <= es.len(),
    ensures
        0 <= dmax(es, r, v, j) <= r[v],
        forall|x: int| 0 <= x < j ==> (#[trigger] es[x] matches Some((f, t)) ==> t == v ==> dmax(es, r, v, j) >= depth(es, r, f) + 1),
        dmax(es, r, v, j) > 0 ==> exists|x: int| 0 <= x < j && (#[trigger] es[x] matches Some((f, t)) && t == v && dmax(es, r, v, j) == depth(es, r, f) + 1),
    decreases r[v], j,
{
    if j > 0 {
        lemma_dmax(es, r, n, v, j - 1);
        match es[j - 1] {
            Some((f, t)) => {
                if t == v {
                    lemma_dmax(es, r, n, f, es.len() as int);
                }
            },
            None => {},
        }
        let rest = dmax(es, r, v, j - 1);
        assert forall|x: int| 0 <= x < j implies (#[trigger] es[x] matches Some((f, t)) ==> t == v ==> dmax(es, r, v, j) >= depth(es, r, f) + 1) by {
            if x < j - 1 {
            }
        }
        if dmax(es, r, v, j) > 0 {
            if dmax(es, r, v, j) == rest {
                let x = choose|x: int| 0 <= x < j - 1 && (#[trigger] es[x] matches Some((f, t)) && t == v && rest == depth(es, r, f) + 1);
                assert(0 <= x < j);
            } else {
                assert(es[j - 1] matches Some((f, t)) && t == v && dmax(es, r, v, j) == depth(es, r, f) + 1);
            }
        }
    }
}

/// Depth facts: it lies in `0..=r[v]`, every edge adds one, and a positive
/// depth comes through some edge.
proof fn lemma_depth(es: Seq<Option<(int, int)>>, r: Seq<int>, n: int, v: int)
    requires
        is_ranking(es, r, n),
        0 <= v < n,
    ensures
        0 <= depth(es, r, v) <= r[v],
        forall|x: int| 0 <= x < es.len() ==> (#[trigger] es[x] matches Some((f, t)) ==> t == v ==> depth(es, r, v) >= depth(es, r, f) + 1),
        depth(es, r, v) > 0 ==> exists|x: int| 0 <= x < es.len() && (#[trigger] es[x] matches Some((f, t)) && t == v && depth(es, r, v) == depth(es, r, f) + 1),
{
    lemma_dmax(es, r, n, v, es.len() as int);
}

/// Every layer stays within `0..=depth`.
pub open spec fn bounded(layer: Seq<int>, es: Seq<Option<(int, int)>>, r: Seq<int>, n: int) -> bool {
    &&& layer.len() == n
    &&& forall|x: int| 0 <= x < n ==> 0 <= #[trigger] layer[x] <= depth(es, r, x)
}

proof fn lemma_relax_bounded(layer: Seq<int>, es: Seq<Option<(int, int)>>, r: Seq<int>, n: int, j: int)
    requires
        is_ranking(es, r, n),
        bounded(layer, es, r, n),
        0 <= j <= es.len(),
    ensures
        bounded(relax(layer, es, j).0, es, r, n),
        forall|x: int| 0 <= x < n ==> #[trigger] relax(layer, es, j).0[x] >= layer[x],
    decreases j,
{
    if j > 0 {
        lemma_relax_bounded(layer, es, r, n, j - 1);
        let l = relax(layer, es, j - 1).0;
        match es[j - 1] {
            Some((f, t)) => {
                lemma_depth(es, r, n, t);
                assert(es[j - 1] matches Some((ff, tt)) && tt == t);
                let l2 = relax(layer, es, j).0;
                assert forall|x: int| 0 <= x < n implies 0 <= #[trigger] l2[x] <= depth(es, r, x) && l2[x] >= layer[x] by {
                    if x == t {
                    }
                }
            },
            None => {},
        }
    }
}

/// Later steps of a pass only raise layers.
proof fn lemma_relax_mono(layer: Seq<int>, es: Seq<Option<(int, int)>>, n: int, j1: int, j2: int)
    requires
        layer.len() == n,
        forall|x: int| 0 <= x < es.len() ==> (#[trigger] es[x] matches Some((f, t)) ==> 0 <= f < n && 0 <= t < n),
        0 <= j1 <= j2 <= es.len(),
    ensures
        relax(layer, es, j2).0.len() == n,
        forall|x: int| 0 <= x < n ==> #[trigger] relax(layer, es, j2).0[x] >= relax(layer, es, j1).0[x],
    decreases j2 - j1,
{
    lemma_relax_bounds(layer, es, j2);
    if j1 < j2 {
        lemma_relax_mono(layer, es, n, j1, j2 - 1);
        lemma_relax_bounds(layer, es, j2 - 1);
    }
}

/// The minimum of two integers.
pub open spec fn min_int(a: int, b: int) -> int {
    if a <= b {
        a
    } else {
        b
    }
}

/// After a pass, each layer reaches its depth or one more than the least
/// layer guaranteed before the pass.
proof fn lemma_relax_lower(layer: Seq<int>, es: Seq<Option<(int, int)>>, r: Seq<int>, n: int, k: int)
    requires
        is_ranking(es, r, n),
        bounded(layer, es, r, n),
        forall|x: int| 0 <= x < n ==> #[trigger] layer[x] >= min_int(depth(es, r, x), k),
    ensures
        forall|x: int| 0 <= x < n ==> #[trigger] relax(layer, es, es.len() as int).0[x] >= min_int(depth(es, r, x), k + 1),
{
    let m = es.len() as int;
    assert forall|x: int| 0 <= x < n implies #[trigger] relax(layer, es, m).0[x] >= min_int(depth(es, r, x), k + 1) by {
        lemma_depth(es, r, n, x);
        lemma_relax_mono(layer, es, n, 0, m);
        lemma_relax_bounded(layer, es, r, n, m);
        if depth(es, r, x) > 0 {
            let j = choose|j: int| 0 <= j < es.len() && (#[trigger] es[j] matches Some((f, t)) && t == x && depth(es, r, x) == depth(es, r, f) + 1);
            let pair = es[j]->0;
            let f = pair.0;
            lemma_relax_mono(layer, es, n, 0, j);
            lemma_relax_mono(layer, es, n, j + 1, m);
            let l = relax(layer, es, j).0;
            assert(l[f] >= layer[f]);
            assert(relax(layer, es, j + 1).0[x] >= l[f] + 1);
        }
    }
}

/// A pass that moves nothing leaves every edge pointing forward.
proof fn lemma_stable_forward(layer: Seq<int>, es: Seq<Option<(int, int)>>, n: int, j: int)
    requires
        layer.len() == n,
        forall|x: int| 0 <= x < es.len() ==> (#[trigger] es[x] matches Some((f, t)) ==> 0 <= f < n && 0 <= t < n),
        0 <= j <= es.len(),
        !relax(layer, es, j).1,
    ensures
        forall|x: int| 0 <= x < j ==> (#[trigger] es[x] matches Some((f, t)) ==> layer[t] >= layer[f] + 1),
    decreases j,
{
    if j > 0 {
        lemma_relax_bounds(layer, es, j - 1);
        lemma_stable_forward(layer, es, n, j - 1);
    }
}

proof fn lemma_run_forward(layer: Seq<int>, es: Seq<Option<(int, int)>>, r: Seq<int>, n: int, p: nat, k: int)
    requires
        is_ranking(es, r, n),
        bounded(layer, es, r, n),
        forall|x: int| 0 <= x < n ==> #[trigger] layer[x] >= min_int(depth(es, r, x), k),
        k + p >= n,
    ensures
        edges_forward(run_passes(layer, es, p), es),
    decreases p,
{
    if p == 0 {
        assert forall|x: int| 0 <= x < n implies #[trigger] layer[x] == depth(es, r, x) by {
            lemma_depth(es, r, n, x);
        }
        assert forall|j: int| 0 <= j < es.len() implies (#[trigger] es[j] matches Some((f, t)) ==> layer[t] >= layer[f] + 1) by {
            if let Some((f, t)) = es[j] {
                lemma_depth(es, r, n, t);
                assert(layer[f] == depth(es, r, f));
                assert(layer[t] == depth(es, r, t));
            }
        }
    } else {
        let m = es.len() as int;
        let (l, c) = relax(layer, es, m);
        lemma_relax_bounds(layer, es, m);
        if !c {
            lemma_stable_forward(layer, es, n, m);
        } else {
            lemma_relax_bounded(layer, es, r, n, m);
            lemma_relax_lower(layer, es, r, n, k);
            lemma_run_forward(l, es, r, n, (p - 1) as nat, k + 1);
        }
    }
}

/// Layers follow edges: when the graph has no cycle (witnessed by a ranking
/// of its nodes), every edge between known nodes goes from an earlier layer
/// to a later one.
pub proof fn lemma_layers_follow_edges(nodes: Seq<FlowNode>, edges: Seq<FlowEdge>, r: Seq<int>)
    requires
        is_ranking(resolve_edges(nodes, edges), r, nodes.len() as int),
    ensures
        edges_forward(layer_table(nodes, edges), resolve_edges(nodes, edges)),
{
    let es = resolve_edges(nodes, edges);
    let n = nodes.len() as int;
    let zero = Seq::new(nodes.len(), |i: int| 0int);
    assert forall|x: int| 0 <= x < n implies 0 <= #[trigger] zero[x] <= depth(es, r, x) by {
        lemma_depth(es, r, n, x);
    }
    assert forall|x: int| 0 <= x < n implies #[trigger] zero[x] >= min_int(depth(es, r, x), 0) by {
        lemma_depth(es, r, n, x);
    }
    lemma_run_forward(zero, es, r, n, pass_count(nodes.len()), 0);
}

/* ---------------- columns ---------------- */

/// The number of columns a layering needs: one past the deepest layer, or
/// none for no nodes.
pub open spec fn column_count(layer: Seq<usize>) -> int
    decreases layer.len(),
{
    if layer.len() == 0 {
        0
    } else {
        let rest = column_count(layer.drop_last());
        if layer.last() + 1 > rest {
            layer.last() + 1
        } else {
            rest
        }
    }
}

proof fn lemma_column_count(layer: Seq<usize>)
    ensures
        forall|i: int| 0 <= i < layer.len() ==> layer[i] < column_count(layer),
        layer.len() > 0 ==> exists|i: int| 0 <= i < layer.len() && layer[i] + 1 == column_count(layer),
        column_count(layer) >= 0,
    decreases layer.len(),
{
    if layer.len() > 0 {
        lemma_column_count(layer.drop_last());
        assert forall|i: int| 0 <= i < layer.len() implies layer[i] < column_count(layer) by {
            if i < layer.len() - 1 {
                assert(layer.drop_last()[i] == layer[i]);
            }
        }
        if layer.last() + 1 <= column_count(layer.drop_last()) {
            let i = choose|i: int| 0 <= i < layer.drop_last().len() && layer.drop_last()[i] + 1
                == column_count(layer.drop_last());
            assert(layer[i] == layer.drop_last()[i]);
        } else {
            assert(layer[layer.len() - 1] + 1 == column_count(layer));
        }
    }
}

/// Whether `col` lists, in increasing order, exactly the nodes of layer `c`
/// among the first `k`.
pub open spec fn is_column(layer: Seq<usize>, c: int, col: Seq<usize>, k: int) -> bool {
    &&& forall|x: int| 0 <= x < col.len() ==> #[trigger] col[x] < k && layer[col[x] as int] == c
    &&& forall|x: int, y: int| 0 <= x < y < col.len() ==> #[trigger] col[x] < #[trigger] col[y]
    &&& forall|i: int| 0 <= i < k && layer[i] == c ==> exists|x: int| 0 <= x < col.len() && #[trigger] col[x] == i
}

/// Column membership in node order: column `c` lists the nodes of layer
/// `c`, each node exactly once, in slice order.
pub fn columns(layer: &Vec<usize>) -> (cols: Vec<Vec<usize>>)
    requires
        forall|i: int| 0 <= i < layer@.len() ==> #[trigger] layer@[i] < usize::MAX,
    ensures
        cols@.len() == column_count(layer@),
        forall|c: int| 0 <= c < cols@.len() ==> is_column(layer@, c, #[trigger] cols@[c]@, layer@.len() as int),
{
    let n = layer.len();
    let mut count: usize = 0;
    let mut k: usize = 0;
    while k < n
        invariant
            k <= n == layer@.len(),
            count == column_count(layer@.take(k as int)),
            forall|i: int| 0 <= i < layer@.len() ==> #[trigger] layer@[i] < usize::MAX,
        decreases n - k,
    {
        proof {
            assert(layer@.take(k + 1).drop_last() =~= layer@.take(k as int));
        }
        if layer[k] + 1 > count {
            count = layer[k] + 1;
        }
        k += 1;
    }
    proof {
        assert(layer@.take(n as int) =~= layer@);
    }
    let mut cols: Vec<Vec<usize>> = Vec::new();
    let mut c: usize = 0;
    while c < count
        invariant
            c <= count,
            count == column_count(layer@),
            n == layer@.len(),
            cols@.len() == c,
            forall|d: int| 0 <= d < c ==> is_column(layer@, d, #[trigger] cols@[d]@, n as int),
        decreases count - c,
    {
        let mut col: Vec<usize> = Vec::new();
        let mut i: usize = 0;
        while i < n
            invariant
                i <= n == layer@.len(),
                is_column(layer@, c as int, col@, i as int),
                forall|x: int| 0 <= x < col@.len() ==> #[trigger] col@[x] < i,
            decreases n - i,
        {
            if layer[i] == c {
                let ghost before = col@;
                col.push(i);
                proof {
                    assert forall|j: int| 0 <= j < i + 1 && layer@[j] == c implies exists|x: int|
                        0 <= x < col@.len() && #[trigger] col@[x] == j by {
                        if j < i {
                            let x = choose|x: int| 0 <= x < before.len() && before[x] == j;
                            assert(col@[x] == j);
                        } else {
                            assert(col@[col@.len() - 1] == j);
                        }
                    }
                }
            } else {
                proof {
                    assert forall|j: int| 0 <= j < i + 1 && layer@[j] == c implies exists|x: int|
                        0 <= x < col@.len() && #[trigger] col@[x] == j by {
                        let x = choose|x: int| 0 <= x < col@.len() && col@[x] == j;
                    }
                }
            }
            i += 1;
        }
        let ghost prev = cols@;
        cols.push(col);
        proof {
            assert forall|d: int| 0 <= d < c + 1 implies is_column(layer@, d, #[trigger] cols@[d]@, n as int) by {
                if d < c {
                    assert(cols@[d] == prev[d]);
                }
            }
        }
        c += 1;
    }
    proof {
        lemma_column_count(layer@);
    }
    cols
}

} // verus!
