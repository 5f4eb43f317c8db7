//! Node-graph editor model: typed ports and their compatibility rule, edges,
//! the in-flight connection, and the selection decisions the editor makes
//! on each click and key press. The canvas paint and hit-testing live with
//! the UI; they hand these functions what was clicked.

use vstd::prelude::*;

verus! {

/// Port value types.
#[derive(Clone, Copy, Debug, PartialEq, Eq, Structural)]
pub enum PortType {
    /// Control flow: connects only to other triggers.
    Trigger,
    String,
    Number,
    Boolean,
    Object,
    Array,
    /// Wildcard data port: connects to any non-trigger type.
    Any,
}

impl Default for PortType {
    fn default() -> (t: PortType)
        ensures
            t == PortType::Any,
    {
        PortType::Any
    }
}

/// Whether an output of type `from` may connect to an input of type `to`:
/// a trigger only to a trigger; among data types the same type, or `Any`
/// on either side.
pub open spec fn spec_can_connect(from: PortType, to: PortType) -> bool {
    if from is Trigger || to is Trigger {
        from is Trigger && to is Trigger
    } else {
        from == to || from is Any || to is Any
    }
}

impl PortType {
    /// Whether an output of this type may connect to an input of `to`.
    pub fn can_connect(self, to: PortType) -> (b: bool)
        ensures
            b == spec_can_connect(self, to),
    {
        match (self, to) {
            (PortType::Trigger, PortType::Trigger) => true,
            (PortType::Trigger, _) | (_, PortType::Trigger) => false,
            (a, b) => a == b || a == PortType::Any || b == PortType::Any,
        }
    }
}

/// Every type connects to itself.
pub proof fn lemma_can_connect_reflexive(t: PortType)
    ensures
        spec_can_connect(t, t),
{
}

/// Compatibility does not depend on the direction of the drag.
pub proof fn lemma_can_connect_symmetric(a: PortType, b: PortType)
    ensures
        spec_can_connect(a, b) == spec_can_connect(b, a),
{
}

/// A trigger connects to nothing but a trigger, not even `Any`; `Any`
/// connects to every data type.
pub proof fn lemma_trigger_and_any(t: PortType)
    ensures
        spec_can_connect(PortType::Trigger, t) <==> t is Trigger,
        !(t is Trigger) ==> spec_can_connect(PortType::Any, t) && spec_can_connect(t, PortType::Any),
{
}

/// A single input or output port on a node.
#[derive(Clone, Debug)]
pub struct Port {
    pub name: String,
    pub ty: PortType,
}

impl Port {
    pub fn new(name: &str, ty: PortType) -> (p: Port)
        ensures
            p.name@ == name@,
            p.ty == ty,
    {
        Port { name: name.to_owned(), ty }
    }
}

/// A connection: `(node id, output index)` to `(node id, input index)`.
#[derive(Debug)]
pub struct GraphEdge {
    pub from: (String, usize),
    pub to: (String, usize),
}

impl Clone for GraphEdge {
    fn clone(&self) -> (e: GraphEdge)
        ensures
            e == *self,
    {
        GraphEdge { from: (self.from.0.clone(), self.from.1), to: (self.to.0.clone(), self.to.1) }
    }
}

impl GraphEdge {
    pub fn new(from_node: &str, from_port: usize, to_node: &str, to_port: usize) -> (e: GraphEdge)
        ensures
            e.from.0@ == from_node@,
            e.from.1 == from_port,
            e.to.0@ == to_node@,
            e.to.1 == to_port,
    {
        GraphEdge { from: (from_node.to_owned(), from_port), to: (to_node.to_owned(), to_port) }
    }
}

/// An in-flight connect-by-drag from an output port.
#[derive(Debug)]
pub struct PendingConnection {
    /// `(node id, output index)` the drag started from.
    pub from: (String, usize),
    /// Type of the source output: decides target compatibility.
    pub ty: PortType,
}

impl Clone for PendingConnection {
    fn clone(&self) -> (p: PendingConnection)
        ensures
            p == *self,
    {
        PendingConnection { from: (self.from.0.clone(), self.from.1), ty: self.ty }
    }
}

impl PendingConnection {
    /// Whether dropping on input port `port` (of type `ty`) of node
    /// `node_id` connects: never back onto the source node, and only to a
    /// compatible type.
    pub fn accepts(&self, node_id: &String, ty: PortType) -> (b: bool)
        ensures
            b == (node_id@ != self.from.0@ && spec_can_connect(self.ty, ty)),
    {
        let same = *node_id == self.from.0;
        !same && self.ty.can_connect(ty)
    }

    /// The edge a drop on input `port` of node `node_id` appends.
    pub fn edge_to(&self, node_id: &String, port: usize) -> (e: GraphEdge)
        ensures
            e.from.0@ == self.from.0@,
            e.from.1 == self.from.1,
            e.to.0@ == node_id@,
            e.to.1 == port,
    {
        GraphEdge { from: (self.from.0.clone(), self.from.1), to: (node_id.clone(), port) }
    }
}

impl PendingConnection {
    /// The pointer is released over `target` (node id, input index, input
    /// type), or over no input dot: a compatible drop reports the new
    /// edge; anything else ends the drag with no event.
    pub fn release(&self, target: Option<(&String, usize, PortType)>) -> (ev: Option<GraphEvent>)
        ensures
            match target {
                Some((id, port, ty)) => if id@ != self.from.0@ && spec_can_connect(self.ty, ty) {
                    ev matches Some(GraphEvent::Connected { edge }) && edge.from.0@ == self.from.0@
                        && edge.from.1 == self.from.1 && edge.to.0@ == id@ && edge.to.1 == port
                } else {
                    ev is None
                },
                None => ev is None,
            },
    {
        match target {
            Some((id, port, ty)) => {
                if self.accepts(id, ty) {
                    Some(GraphEvent::Connected { edge: self.edge_to(id, port) })
                } else {
                    None
                }
            },
            None => None,
        }
    }
}

/// What a click or key press asks of the caller's graph.
#[derive(Clone, Debug)]
pub enum GraphEvent {
    /// A compatible output-to-input drop; append the edge.
    Connected { edge: GraphEdge },
    /// An edge was removed (index into the edges as passed in).
    Disconnected { index: usize },
    /// Node selection changed (`None`: the canvas click deselected).
    Selected(Option<String>),
    /// Delete pressed with this node selected; remove it (and its edges).
    Deleted(String),
}

/// The editor's selection: at most one node and at most one edge.
#[derive(Clone, Debug)]
pub struct GraphSelection {
    /// Selected node id, if any.
    pub selected: Option<String>,
    /// Selected edge (index into the edges), if any.
    pub selected_edge: Option<usize>,
}

/// At most one of a node and an edge is selected.
pub open spec fn single(s: GraphSelection) -> bool {
    !(s.selected is Some && s.selected_edge is Some)
}

/// The view of an optional id.
pub open spec fn opt_view(o: Option<String>) -> Option<Seq<char>> {
    match o {
        Some(s) => Some(s@),
        None => None,
    }
}

/// Whether `ids` holds `id`.
pub open spec fn has_id(ids: Seq<String>, id: Seq<char>) -> bool {
    exists|i: int| 0 <= i < ids.len() && (#[trigger] ids[i])@ == id
}

impl GraphSelection {
    /// Nothing selected.
    pub fn new() -> (s: GraphSelection)
        ensures
            single(s),
            s.selected is None,
            s.selected_edge is None,
    {
        GraphSelection { selected: None, selected_edge: None }
    }

    /// Drop stale selections (the caller may have edited the graph): an
    /// edge index past `edge_count`, a node id that no longer exists.
    pub fn prune(&mut self, node_ids: &[String], edge_count: usize)
        ensures
            single(*old(self)) ==> single(*final(self)),
            final(self).selected_edge == match old(self).selected_edge {
                Some(i) => if i < edge_count { Some(i) } else { None },
                None => None,
            },
            opt_view(final(self).selected) == match old(self).selected {
                Some(id) => if has_id(node_ids@, id@) { Some(id@) } else { None },
                None => None,
            },
    {
        if let Some(i) = self.selected_edge {
            if i >= edge_count {
                self.selected_edge = None;
            }
        }
        let keep = match &self.selected {
            Some(id) => {
                let mut found = false;
                let mut k: usize = 0;
                while k < node_ids.len()
                    invariant
                        k <= node_ids@.len(),
                        found <==> exists|j: int| 0 <= j < k && (#[trigger] node_ids@[j])@ == id@,
                    decreases node_ids@.len() - k,
                {
                    if node_ids[k] == *id {
                        found = true;
                    }
                    k += 1;
                }
                found
            },
            None => true,
        };
        if !keep {
            self.selected = None;
        }
    }

    /// A click on node `id`: selects it (clearing any edge selection) and
    /// reports the change, unless it was already selected.
    pub fn click_node(&mut self, id: &String) -> (ev: Option<GraphEvent>)
        ensures
            single(*old(self)) ==> single(*final(self)),
            opt_view(old(self).selected) == Some(id@) ==> *final(self) == *old(self) && ev is None,
            opt_view(old(self).selected) != Some(id@) ==> {
                &&& opt_view(final(self).selected) == Some(id@)
                &&& final(self).selected_edge is None
                &&& ev matches Some(GraphEvent::Selected(Some(s))) && s@ == id@
            },
    {
        let already = match &self.selected {
            Some(s) => *s == *id,
            None => false,
        };
        if already {
            None
        } else {
            self.selected = Some(id.clone());
            self.selected_edge = None;
            Some(GraphEvent::Selected(Some(id.clone())))
        }
    }

    /// A click on edge `idx`'s midpoint: a second click on the selected edge
    /// removes it; otherwise the edge becomes selected and a selected node
    /// is deselected (reported).
    pub fn click_edge(&mut self, idx: usize) -> (ev: Option<GraphEvent>)
        ensures
            single(*old(self)) ==> single(*final(self)),
            old(self).selected_edge == Some(idx) ==> {
                &&& final(self).selected_edge is None
                &&& opt_view(final(self).selected) == opt_view(old(self).selected)
                &&& ev == Some(GraphEvent::Disconnected { index: idx })
            },
            old(self).selected_edge != Some(idx) ==> {
                &&& final(self).selected_edge == Some(idx)
                &&& final(self).selected is None
                &&& (old(self).selected is Some ==> ev == Some(GraphEvent::Selected(None)))
                &&& (old(self).selected is None ==> ev is None)
            },
    {
        if self.selected_edge == Some(idx) {
            self.selected_edge = None;
            Some(GraphEvent::Disconnected { index: idx })
        } else {
            self.selected_edge = Some(idx);
            let had = self.selected.is_some();
            self.selected = None;
            if had {
                Some(GraphEvent::Selected(None))
            } else {
                None
            }
        }
    }

    /// A click on empty canvas: clears both selections, reporting a node
    /// deselection.
    pub fn click_canvas(&mut self) -> (ev: Option<GraphEvent>)
        ensures
            single(*final(self)),
            final(self).selected is None,
            final(self).selected_edge is None,
            old(self).selected is Some ==> ev == Some(GraphEvent::Selected(None)),
            old(self).selected is None ==> ev is None,
    {
        let had = self.selected.is_some();
        self.selected = None;
        self.selected_edge = None;
        if had {
            Some(GraphEvent::Selected(None))
        } else {
            None
        }
    }

    /// Delete pressed over the canvas: removes the selected edge if there is
    /// one, else the selected node; either selection is consumed.
    pub fn delete(&mut self) -> (ev: Option<GraphEvent>)
        ensures
            single(*old(self)) ==> single(*final(self)),
            old(self).selected_edge matches Some(i) ==> {
                &&& ev == Some(GraphEvent::Disconnected { index: i })
                &&& final(self).selected_edge is None
                &&& opt_view(final(self).selected) == opt_view(old(self).selected)
            },
            old(self).selected_edge is None ==> {
                &&& final(self).selected is None
                &&& final(self).selected_edge is None
                &&& (old(self).selected matches Some(id) ==> (ev matches Some(GraphEvent::Deleted(d))
                    && d@ == id@))
                &&& (old(self).selected is None ==> ev is None)
            },
    {
        if let Some(i) = self.selected_edge {
            self.selected_edge = None;
            Some(GraphEvent::Disconnected { index: i })
        } else {
            match self.selected.take() {
                Some(id) => Some(GraphEvent::Deleted(id)),
                None => None,
            }
        }
    }
}

} // verus!
