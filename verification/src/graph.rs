//! State machine with links represented by a directed graph with an adjacency matrix.
//!
//! Uses a condition table to check if an edge is traversable. If `graph.conditions[node_idx] == true`,
//! then the edge from `graph.nodes[current_node]` to `graph.nodes[node_idx]` is traversable.

use vstd::prelude::*;

verus! {

use vstd::std_specs::cmp::PartialEqSpec;

/// The indices `i` of `row` with `row[i] == true`, in increasing order.
pub open spec fn true_indices(row: Seq<bool>) -> Seq<usize>
    decreases row.len(),
{
    if row.len() == 0 {
        Seq::empty()
    } else {
        let rest = true_indices(row.drop_last());
        if row.last() {
            rest.push((row.len() - 1) as usize)
        } else {
            rest
        }
    }
}

/// The square matrix of side `n` whose cell `(i, j)` keeps `m[i][j]` where `m` has it, and
/// is `false` elsewhere.
pub open spec fn resized_matrix(m: Seq<Seq<bool>>, n: nat) -> Seq<Seq<bool>> {
    Seq::new(n, |i: int| Seq::new(n, |j: int| if i < m.len() && j < m[i].len() { m[i][j] } else { false }))
}

/// `c` cut or padded with `false` to length `n`.
pub open spec fn resized_flags(c: Seq<bool>, n: nat) -> Seq<bool> {
    Seq::new(n, |j: int| if j < c.len() { c[j] } else { false })
}

/// The first index of `list`, from the front, whose flag in `conds` is set.
pub open spec fn first_enabled(list: Seq<usize>, conds: Seq<bool>) -> Option<usize>
    decreases list.len(),
{
    if list.len() == 0 {
        None
    } else if 0 <= list[0] < conds.len() && conds[list[0] as int] {
        Some(list[0])
    } else {
        first_enabled(list.drop_first(), conds)
    }
}

/// A state machine over nodes of type `NodeID`.
pub struct StateMachine<NodeID: Copy> {
    /// list of nodes in the graph
    pub nodes: Vec<NodeID>,
    /// adjacency matrix
    pub edges: Vec<Vec<bool>>,
    /// index of the current node we're on
    pub current_node: usize,
    /// condition tables for the status of links in the current node in the graph
    pub conditions: Vec<bool>,
}

impl<NodeID: Copy> StateMachine<NodeID> {
    /// The adjacency matrix as a sequence of rows.
    pub open spec fn matrix(&self) -> Seq<Seq<bool>> {
        self.edges@.map_values(|r: Vec<bool>| r@)
    }

    /// The adjacency matrix is square, of the number of nodes, and the condition table has
    /// one flag per node.
    pub open spec fn wf(&self) -> bool {
        &&& self.edges@.len() == self.nodes@.len()
        &&& forall|i: int| 0 <= i < self.edges@.len() ==> #[trigger] self.edges@[i]@.len() == self.nodes@.len()
        &&& self.conditions@.len() == self.nodes@.len()
    }

    /// The current node is one of the graph's nodes.
    pub open spec fn current_valid(&self) -> bool {
        self.current_node < self.nodes@.len()
    }

    /// The nodes that can be reached from the current node with one traversable edge, the
    /// first of them in index order.
    pub open spec fn next_node(&self) -> Option<usize> {
        first_enabled(true_indices(self.edges@[self.current_node as int]@), self.conditions@)
    }

    /// The node the state machine is on after following the first traversable edge from its
    /// current node, if there is one.
    pub open spec fn stepped_current(&self) -> usize {
        match self.next_node() {
            Some(n) => n,
            None => self.current_node,
        }
    }

    pub fn new() -> (res: Self)
        ensures
            res.nodes@ == Seq::<NodeID>::empty(),
            res.edges@ == Seq::<Vec<bool>>::empty(),
            res.current_node == 0,
            res.conditions@ == Seq::<bool>::empty(),
            res.wf(),
    {
        Self { nodes: Vec::new(), edges: Vec::new(), current_node: 0, conditions: Vec::new() }
    }

    /// set current node, reset condition table
    pub fn set_current_node(&mut self, node: usize)
        ensures
            final(self).current_node == node,
            final(self).nodes@ == old(self).nodes@,
            final(self).edges@ == old(self).edges@,
            final(self).conditions@ == Seq::new(old(self).conditions@.len(), |i: int| false),
    {
        self.current_node = node;
        let n = self.conditions.len();
        let mut i: usize = 0;
        while i < n
            invariant
                n == self.conditions@.len(),
                n == old(self).conditions@.len(),
                i <= n,
                self.current_node == node,
                self.nodes@ == old(self).nodes@,
                self.edges@ == old(self).edges@,
                forall|k: int| 0 <= k < i ==> !#[trigger] self.conditions@[k],
            decreases n - i,
        {
            self.conditions.set(i, false);
            i = i + 1;
        }
        assert(self.conditions@ =~= Seq::new(n as nat, |i: int| false));
    }

    /// The node the state machine is on.
    pub fn get_current_node(&self) -> (res: NodeID)
        requires
            self.current_valid(),
        ensures
            res == self.nodes@[self.current_node as int],
    {
        self.nodes[self.current_node]
    }

    pub fn add_node(&mut self, node: NodeID)
        requires
            old(self).nodes@.len() < usize::MAX,
        ensures
            final(self).nodes@ == old(self).nodes@.push(node),
            final(self).matrix() == resized_matrix(old(self).matrix(), final(self).nodes@.len()),
            final(self).conditions@ == resized_flags(old(self).conditions@, final(self).nodes@.len()),
            final(self).current_node == old(self).current_node,
            final(self).wf(),
    {
        self.nodes.push(node);
        self.resize_matrix();
    }

    /// add multiple nodes at once to avoid resizing the adjacency matrix multiple times
    pub fn add_nodes(&mut self, nodes: &[NodeID])
        requires
            old(self).nodes@.len() + nodes@.len() <= usize::MAX,
        ensures
            final(self).nodes@ == old(self).nodes@ + nodes@,
            final(self).matrix() == resized_matrix(old(self).matrix(), final(self).nodes@.len()),
            final(self).conditions@ == resized_flags(old(self).conditions@, final(self).nodes@.len()),
            final(self).current_node == old(self).current_node,
            final(self).wf(),
    {
        let mut i: usize = 0;
        while i < nodes.len()
            invariant
                i <= nodes@.len(),
                self.nodes@ == old(self).nodes@ + nodes@.take(i as int),
                self.edges@ == old(self).edges@,
                self.conditions@ == old(self).conditions@,
                self.current_node == old(self).current_node,
            decreases nodes@.len() - i,
        {
            self.nodes.push(nodes[i]);
            i = i + 1;
            assert(nodes@.take(i as int) == nodes@.take((i - 1) as int).push(nodes@[i - 1]));
        }
        assert(nodes@.take(nodes@.len() as int) == nodes@);
        self.resize_matrix();
    }

    /// resize adjacency matrix to the current number of nodes in the graph
    fn resize_matrix(&mut self)
        ensures
            final(self).nodes@ == old(self).nodes@,
            final(self).matrix() == resized_matrix(old(self).matrix(), old(self).nodes@.len()),
            final(self).conditions@ == resized_flags(old(self).conditions@, old(self).nodes@.len()),
            final(self).current_node == old(self).current_node,
            final(self).wf(),
    {
        let n = self.nodes.len();
        let ghost old_m = self.matrix();
        // resize every existing row
        let rows = self.edges.len();
        let mut i: usize = 0;
        while i < rows
            invariant
                rows == self.edges@.len(),
                rows == old_m.len(),
                n == self.nodes@.len(),
                i <= rows,
                self.nodes@ == old(self).nodes@,
                self.conditions@ == old(self).conditions@,
                self.current_node == old(self).current_node,
                old_m == old(self).matrix(),
                forall|k: int| 0 <= k < i ==> #[trigger] self.edges@[k]@ == resized_flags(old_m[k], n as nat),
                forall|k: int| i <= k < rows ==> #[trigger] self.edges@[k]@ == old_m[k],
            decreases rows - i,
        {
            let row = &mut self.edges[i];
            resize_flags(row, n);
            i = i + 1;
        }
        // add or drop rows
        if rows > n {
            self.edges.truncate(n);
        } else {
            let mut k: usize = rows;
            while k < n
                invariant
                    rows <= k <= n,
                    n == self.nodes@.len(),
                    self.edges@.len() == k,
                    old_m.len() == rows,
                    self.nodes@ == old(self).nodes@,
                    self.conditions@ == old(self).conditions@,
                    self.current_node == old(self).current_node,
                    forall|r: int| 0 <= r < rows ==> #[trigger] self.edges@[r]@ == resized_flags(old_m[r], n as nat),
                    forall|r: int| rows <= r < k ==> #[trigger] self.edges@[r]@ == Seq::new(n as nat, |j: int| false),
                decreases n - k,
            {
                let row = falses(n);
                self.edges.push(row);
                k = k + 1;
            }
        }
        resize_flags(&mut self.conditions, n);
        assert forall|r: int| 0 <= r < n implies #[trigger] self.matrix()[r] =~= resized_matrix(old_m, n as nat)[r] by {
            if r >= rows {
                assert(self.edges@[r]@ == Seq::new(n as nat, |j: int| false));
            } else {
                assert(self.edges@[r]@ == resized_flags(old_m[r], n as nat));
            }
        }
        assert(self.matrix() =~= resized_matrix(old_m, n as nat));
    }

    pub fn add_edge(&mut self, from: usize, to: usize)
        requires
            from < old(self).edges@.len(),
            to < old(self).edges@[from as int]@.len(),
        ensures
            final(self).matrix() == old(self).matrix().update(from as int, old(self).matrix()[from as int].update(to as int, true)),
            final(self).edges@.len() == old(self).edges@.len(),
            final(self).nodes@ == old(self).nodes@,
            final(self).conditions@ == old(self).conditions@,
            final(self).current_node == old(self).current_node,
            old(self).wf() ==> final(self).wf(),
    {
        self.edges[from].set(to, true);
        assert(self.matrix() =~= old(self).matrix().update(from as int, old(self).matrix()[from as int].update(to as int, true)));
    }

    pub fn edge_exists(&mut self, from: usize, to: usize) -> (res: bool)
        requires
            from < old(self).edges@.len(),
            to < old(self).edges@[from as int]@.len(),
        ensures
            res == old(self).edges@[from as int]@[to as int],
            *final(self) == *old(self),
    {
        self.edges[from][to]
    }

    /// The nodes that the given node has an edge to, in increasing order.
    pub fn get_edges(&mut self, node: usize) -> (res: Vec<usize>)
        requires
            node < old(self).edges@.len(),
        ensures
            res@ == true_indices(old(self).edges@[node as int]@),
            *final(self) == *old(self),
    {
        edge_list(&self.edges[node])
    }
}

/// `true_indices` lists exactly the set positions of the row, in strictly increasing order.
pub proof fn lemma_true_indices(row: Seq<bool>)
    requires
        row.len() <= usize::MAX,
    ensures
        forall|i: int, j: int| 0 <= i < j < true_indices(row).len() ==> true_indices(row)[i] < true_indices(row)[j],
        forall|i: int| 0 <= i < true_indices(row).len() ==> {
            &&& (#[trigger] true_indices(row)[i]) < row.len()
            &&& row[true_indices(row)[i] as int]
        },
        forall|k: int| 0 <= k < row.len() && row[k] ==> true_indices(row).contains(k as usize),
    decreases row.len(),
{
    if row.len() > 0 {
        let rest = row.drop_last();
        lemma_true_indices(rest);
        let r = true_indices(rest);
        if row.last() {
            assert(true_indices(row) == r.push((row.len() - 1) as usize));
            assert forall|i: int| 0 <= i < true_indices(row).len() implies {
                &&& (#[trigger] true_indices(row)[i]) < row.len()
                &&& row[true_indices(row)[i] as int]
            } by {
                if i < r.len() {
                    assert(true_indices(row)[i] == r[i]);
                    assert(rest[r[i] as int] == row[r[i] as int]);
                }
            }
        } else {
            assert(true_indices(row) == r);
            assert forall|i: int| 0 <= i < true_indices(row).len() implies {
                &&& (#[trigger] true_indices(row)[i]) < row.len()
                &&& row[true_indices(row)[i] as int]
            } by {
                assert(rest[r[i] as int] == row[r[i] as int]);
            }
        }
        assert forall|k: int| 0 <= k < row.len() && row[k] implies true_indices(row).contains(k as usize) by {
            if k < row.len() - 1 {
                assert(rest[k] == row[k]);
                let w = choose|w: int| 0 <= w < true_indices(rest).len() && true_indices(rest)[w] == k as usize;
                assert(true_indices(row)[w] == k as usize);
            } else {
                assert(true_indices(row).last() == k as usize);
            }
        }
    }
}

/// On a strictly increasing list, `first_enabled` finds the smallest listed node whose
/// condition is set, and nothing when none is set.
pub proof fn lemma_first_enabled_sorted(list: Seq<usize>, conds: Seq<bool>)
    requires
        forall|i: int, j: int| 0 <= i < j < list.len() ==> list[i] < list[j],
    ensures
        match first_enabled(list, conds) {
            Some(x) => {
                &&& list.contains(x)
                &&& x < conds.len()
                &&& conds[x as int]
                &&& forall|i: int| 0 <= i < list.len() && list[i] < x ==> !(list[i] < conds.len() && conds[list[i] as int])
            },
            None => forall|i: int| 0 <= i < list.len() ==> !(list[i] < conds.len() && conds[list[i] as int]),
        },
    decreases list.len(),
{
    if list.len() > 0 {
        let rest = list.drop_first();
        assert forall|i: int, j: int| 0 <= i < j < rest.len() implies rest[i] < rest[j] by {
            assert(rest[i] == list[i + 1] && rest[j] == list[j + 1]);
        }
        lemma_first_enabled_sorted(rest, conds);
        if list[0] < conds.len() && conds[list[0] as int] {
            assert(first_enabled(list, conds) == Some(list[0]));
            assert(list[0] == list[0]);
            assert(list.contains(list[0]));
            assert forall|i: int| 0 <= i < list.len() && #[trigger] list[i] < list[0] implies false by {
                if i > 0 {
                    assert(list[0] < list[i]);
                }
            }
        } else {
            assert(first_enabled(list, conds) == first_enabled(rest, conds));
            match first_enabled(rest, conds) {
                Some(x) => {
                    let w = choose|w: int| 0 <= w < rest.len() && rest[w] == x;
                    assert(list[w + 1] == x);
                    assert forall|i: int| 0 <= i < list.len() && list[i] < x implies !(list[i] < conds.len() && conds[list[i] as int]) by {
                        if i > 0 {
                            assert(list[i] == rest[i - 1]);
                        }
                    }
                },
                None => {
                    assert forall|i: int| 0 <= i < list.len() implies !(list[i] < conds.len() && conds[list[i] as int]) by {
                        if i > 0 {
                            assert(list[i] == rest[i - 1]);
                        }
                    }
                },
            }
        }
    }
}

/// A step of the state machine follows an edge: it moves from the current node to the
/// lowest-numbered node that the current node has an edge to and whose condition is set, and
/// stays where it is exactly when no such node exists.
pub proof fn law_step_follows_first_enabled_edge<NodeID: Copy>(sm: StateMachine<NodeID>)
    requires
        sm.wf(),
        sm.current_valid(),
    ensures
        match sm.next_node() {
            Some(n) => {
                &&& n < sm.nodes@.len()
                &&& sm.matrix()[sm.current_node as int][n as int]
                &&& sm.conditions@[n as int]
                &&& forall|k: int| 0 <= k < n ==> !(sm.matrix()[sm.current_node as int][k] && sm.conditions@[k])
                &&& sm.stepped_current() == n
            },
            None => {
                &&& forall|k: int| 0 <= k < sm.nodes@.len() ==> !(sm.matrix()[sm.current_node as int][k] && sm.conditions@[k])
                &&& sm.stepped_current() == sm.current_node
            },
        },
{
    let row = sm.edges@[sm.current_node as int]@;
    assert(sm.matrix()[sm.current_node as int] == row);
    assert(row.len() == sm.nodes@.len());
    assert(sm.nodes.len() == sm.nodes@.len());
    lemma_true_indices(row);
    lemma_first_enabled_sorted(true_indices(row), sm.conditions@);
    let list = true_indices(row);
    match sm.next_node() {
        Some(n) => {
            let w = choose|w: int| 0 <= w < list.len() && list[w] == n;
            assert(row[list[w] as int]);
            assert forall|k: int| 0 <= k < n && row[k] && sm.conditions@[k] implies false by {
                assert(list.contains(k as usize));
                let v = choose|v: int| 0 <= v < list.len() && list[v] == k as usize;
                assert(list[v] < n);
            }
        },
        None => {
            assert forall|k: int| 0 <= k < sm.nodes@.len() && row[k] && sm.conditions@[k] implies false by {
                assert(list.contains(k as usize));
                let v = choose|v: int| 0 <= v < list.len() && list[v] == k as usize;
            }
        },
    }
}

/// Adding an edge sets exactly that cell of the adjacency matrix: afterwards the edge exists,
/// the source lists the target among its edges, and every other cell is as it was.
pub proof fn law_add_edge_then_exists(m: Seq<Seq<bool>>, from: int, to: int)
    requires
        0 <= from < m.len(),
        0 <= to < m[from].len(),
        m[from].len() <= usize::MAX,
    ensures
        m.update(from, m[from].update(to, true))[from][to],
        true_indices(m.update(from, m[from].update(to, true))[from]).contains(to as usize),
        forall|f: int, t: int|
            0 <= f < m.len() && 0 <= t < m[f].len() && (f != from || t != to) ==> m.update(from, m[from].update(to, true))[f][t] == m[f][t],
{
    let row = m.update(from, m[from].update(to, true))[from];
    lemma_true_indices(row);
    assert(row[to]);
}

/// Adding nodes keeps every edge and condition among the nodes already there, and the new
/// nodes have no edges and no set condition.
pub proof fn law_add_nodes_keeps_edges(m: Seq<Seq<bool>>, c: Seq<bool>, old_n: nat, n: nat)
    requires
        m.len() == old_n,
        forall|i: int| 0 <= i < old_n ==> #[trigger] m[i].len() == old_n,
        c.len() == old_n,
        old_n <= n,
    ensures
        forall|i: int, j: int| 0 <= i < old_n && 0 <= j < old_n ==> resized_matrix(m, n)[i][j] == m[i][j],
        forall|i: int, j: int| 0 <= i < n && 0 <= j < n && (i >= old_n || j >= old_n) ==> !resized_matrix(m, n)[i][j],
        forall|j: int| 0 <= j < old_n ==> resized_flags(c, n)[j] == c[j],
        forall|j: int| old_n <= j < n ==> !resized_flags(c, n)[j],
{
}

/// Adding nodes all at once gives the matrix and condition table that adding them in two
/// steps gives: `add_nodes` is `add_node` repeated.
pub proof fn law_add_nodes_in_steps(m: Seq<Seq<bool>>, c: Seq<bool>, n0: nat, n1: nat, n2: nat)
    requires
        m.len() == n0,
        forall|i: int| 0 <= i < n0 ==> #[trigger] m[i].len() == n0,
        c.len() == n0,
        n0 <= n1 <= n2,
    ensures
        resized_matrix(resized_matrix(m, n1), n2) == resized_matrix(m, n2),
        resized_flags(resized_flags(c, n1), n2) == resized_flags(c, n2),
{
    assert(resized_matrix(resized_matrix(m, n1), n2) =~~= resized_matrix(m, n2));
    assert(resized_flags(resized_flags(c, n1), n2) =~= resized_flags(c, n2));
}

/// A call that changes a state machine's adjacency matrix, or leaves it as it is.
pub enum GraphOp {
    /// `add_node` (one node) or `add_nodes` (as many nodes as given).
    AddNodes(usize),
    /// `add_edge(from, to)`.
    AddEdge(usize, usize),
    /// `set_current_node`, which keeps the matrix.
    SetCurrentNode(usize),
}

/// The adjacency matrix after the call `op`, on a matrix with one row per node.
pub open spec fn after_op(m: Seq<Seq<bool>>, op: GraphOp) -> Seq<Seq<bool>> {
    match op {
        GraphOp::AddNodes(k) => resized_matrix(m, m.len() + k as nat),
        GraphOp::AddEdge(from, to) => if from < m.len() && to < m[from as int].len() {
            m.update(from as int, m[from as int].update(to as int, true))
        } else {
            m
        },
        GraphOp::SetCurrentNode(_) => m,
    }
}

/// The adjacency matrix after the calls `ops`, in order.
pub open spec fn after_ops(m: Seq<Seq<bool>>, ops: Seq<GraphOp>) -> Seq<Seq<bool>>
    decreases ops.len(),
{
    if ops.len() == 0 {
        m
    } else {
        after_ops(after_op(m, ops[0]), ops.drop_first())
    }
}

/// The matrix is square.
pub open spec fn is_square(m: Seq<Seq<bool>>) -> bool {
    forall|i: int| 0 <= i < m.len() ==> #[trigger] m[i].len() == m.len()
}

/// An edge, once added, stays: whatever `add_node`, `add_nodes`, `add_edge` and
/// `set_current_node` calls follow (`edge_exists` and `get_edges` change nothing), the matrix
/// keeps its cell `(from, to)` set, and only grows.
pub proof fn law_edge_survives(m: Seq<Seq<bool>>, ops: Seq<GraphOp>, from: int, to: int)
    requires
        is_square(m),
        0 <= from < m.len(),
        0 <= to < m.len(),
        m[from][to],
    ensures
        is_square(after_ops(m, ops)),
        m.len() <= after_ops(m, ops).len(),
        after_ops(m, ops)[from][to],
    decreases ops.len(),
{
    if ops.len() > 0 {
        let m1 = after_op(m, ops[0]);
        assert(is_square(m1) && m.len() <= m1.len() && m1[from][to]) by {
            match ops[0] {
                GraphOp::AddNodes(k) => {},
                GraphOp::AddEdge(f, t) => {
                    if f < m.len() && t < m[f as int].len() {
                        assert forall|i: int| 0 <= i < m1.len() implies #[trigger] m1[i].len() == m1.len() by {
                            assert(m[i].len() == m.len());
                        }
                    }
                },
                GraphOp::SetCurrentNode(_) => {},
            }
        }
        law_edge_survives(m1, ops.drop_first(), from, to);
    }
}

/// The calls' own contracts are the steps of [after_op]: on a well-formed machine,
/// `add_node`/`add_nodes` of `k` nodes give `AddNodes(k)`, `add_edge(from, to)` gives
/// `AddEdge(from, to)`, and `set_current_node` keeps the matrix; and the matrix is square.
pub proof fn law_calls_are_model_steps<NodeID: Copy>(sm: StateMachine<NodeID>, k: usize, from: usize, to: usize)
    requires
        sm.wf(),
    ensures
        is_square(sm.matrix()),
        sm.matrix().len() == sm.nodes@.len(),
        resized_matrix(sm.matrix(), sm.nodes@.len() + k as nat) == after_op(sm.matrix(), GraphOp::AddNodes(k)),
        from < sm.nodes@.len() && to < sm.nodes@.len() ==> sm.matrix().update(
            from as int,
            sm.matrix()[from as int].update(to as int, true),
        ) == after_op(sm.matrix(), GraphOp::AddEdge(from, to)),
        sm.matrix() == after_op(sm.matrix(), GraphOp::SetCurrentNode(from)),
{
    assert forall|i: int| 0 <= i < sm.matrix().len() implies #[trigger] sm.matrix()[i].len() == sm.matrix().len() by {
        assert(sm.edges@[i]@.len() == sm.nodes@.len());
    }
}

/// The indices of the `true` flags in `row`, in increasing order.
pub fn edge_list(row: &Vec<bool>) -> (res: Vec<usize>)
    ensures
        res@ == true_indices(row@),
{
    let mut res: Vec<usize> = Vec::new();
    let mut i: usize = 0;
    while i < row.len()
        invariant
            i <= row@.len(),
            res@ == true_indices(row@.take(i as int)),
        decreases row@.len() - i,
    {
        assert(row@.take((i + 1) as int).drop_last() == row@.take(i as int));
        if row[i] {
            res.push(i);
        }
        i = i + 1;
    }
    assert(row@.take(row@.len() as int) == row@);
    res
}

/// Cuts `row` or pads it with `false` to length `n`.
fn resize_flags(row: &mut Vec<bool>, n: usize)
    ensures
        final(row)@ == resized_flags(old(row)@, n as nat),
{
    if row.len() > n {
        row.truncate(n);
    } else {
        while row.len() < n
            invariant
                old(row)@.len() <= row@.len() <= n,
                row@.subrange(0, old(row)@.len() as int) == old(row)@,
                forall|j: int| old(row)@.len() <= j < row@.len() ==> !#[trigger] row@[j],
            decreases n - row@.len(),
        {
            row.push(false);
        }
    }
    assert(row@ =~= resized_flags(old(row)@, n as nat));
}

/// `n` copies of `false`.
fn falses(n: usize) -> (res: Vec<bool>)
    ensures
        res@ == Seq::new(n as nat, |j: int| false),
{
    let mut res: Vec<bool> = Vec::new();
    while res.len() < n
        invariant
            res@.len() <= n,
            forall|j: int| 0 <= j < res@.len() ==> !#[trigger] res@[j],
        decreases n - res@.len(),
    {
        res.push(false);
    }
    assert(res@ =~= Seq::new(n as nat, |j: int| false));
    res
}

/// `i` is the first position of `x` in `s`.
pub open spec fn is_first_pos<T>(s: Seq<T>, x: T, i: int) -> bool {
    &&& 0 <= i < s.len()
    &&& s[i] == x
    &&& forall|j: int| 0 <= j < i ==> s[j] != x
}

/// The node ids of an adjacency list, in order.
pub open spec fn adjacency_ids<T, const N: usize>(adj: [(T, &[T]); N]) -> Seq<T> {
    Seq::new(N as nat, |i: int| adj@[i].0)
}

/// Every edge target of an adjacency list is one of its node ids.
pub open spec fn targets_known<T, const N: usize>(adj: [(T, &[T]); N]) -> bool {
    forall|f: int, j: int|
        0 <= f < N && 0 <= j < adj@[f].1@.len() ==> adjacency_ids(adj).contains(#[trigger] adj@[f].1@[j])
}

/// The adjacency list has an edge from node `from` to the node at index `to`: one of the
/// targets listed for `from` is first found at `to` among the ids.
pub open spec fn adjacency_edge<T, const N: usize>(adj: [(T, &[T]); N], from: int, to: int) -> bool {
    exists|j: int| 0 <= j < adj@[from].1@.len() && is_first_pos(adjacency_ids(adj), #[trigger] adj@[from].1@[j], to)
}

/// The adjacency matrix that an adjacency list describes.
pub open spec fn adjacency_matrix<T, const N: usize>(adj: [(T, &[T]); N]) -> Seq<Seq<bool>> {
    Seq::new(N as nat, |f: int| Seq::new(N as nat, |t: int| adjacency_edge(adj, f, t)))
}

/// The first position of `x` in `s`, if any.
pub fn position_of<T: Copy + Eq>(s: &[T], x: &T) -> (res: Option<usize>)
    requires
        vstd::laws_eq::obeys_concrete_eq::<T>(),
    ensures
        match res {
            Some(i) => is_first_pos(s@, *x, i as int),
            None => !s@.contains(*x),
        },
{
    proof {
        reveal(vstd::laws_eq::obeys_concrete_eq);
    }
    let mut i: usize = 0;
    while i < s.len()
        invariant
            i <= s@.len(),
            forall|j: int| 0 <= j < i ==> s@[j] != *x,
            vstd::laws_eq::obeys_concrete_eq::<T>(),
            T::obeys_eq_spec(),
            forall|a: T, b: T| a.eq_spec(&b) <==> (a == b),
        decreases s@.len() - i,
    {
        if s[i] == *x {
            return Some(i);
        }
        i = i + 1;
    }
    None
}

impl<NodeID: Copy + Eq> StateMachine<NodeID> {
    /// Builds the state machine that an adjacency list describes: its nodes are the list's
    /// ids, each listed target becomes an edge to the first node with that id, traversal
    /// starts at `starting_pos`, and every condition is unset.
    pub fn from_adjacency<const NUM_NODES: usize>(
        starting_pos: usize,
        edges: &[(NodeID, &[NodeID]); NUM_NODES],
    ) -> (res: Self)
        requires
            vstd::laws_eq::obeys_concrete_eq::<NodeID>(),
            targets_known(*edges),
        ensures
            res.nodes@ == adjacency_ids(*edges),
            res.matrix() == adjacency_matrix(*edges),
            res.current_node == starting_pos,
            res.conditions@ == Seq::new(NUM_NODES as nat, |i: int| false),
            res.wf(),
    {
        let mut ids: Vec<NodeID> = Vec::new();
        let mut k: usize = 0;
        while k < NUM_NODES
            invariant
                k <= NUM_NODES,
                ids@ == adjacency_ids(*edges).take(k as int),
            decreases NUM_NODES - k,
        {
            ids.push(edges[k].0);
            k = k + 1;
            assert(ids@ =~= adjacency_ids(*edges).take(k as int));
        }
        assert(ids@ =~= adjacency_ids(*edges));
        let mut graph: Self = StateMachine::new();
        graph.add_nodes(ids.as_slice());
        graph.current_node = starting_pos;
        let ghost n = NUM_NODES as nat;
        assert(graph.matrix() =~~= Seq::new(n, |f: int| Seq::new(n, |t: int| false)));
        assert(graph.matrix() =~~= Seq::new(n, |f: int| Seq::new(n, |t: int| f < 0 && adjacency_edge(*edges, f, t))));
        assert(graph.conditions@ =~= Seq::new(n, |i: int| false));
        let mut from: usize = 0;
        while from < NUM_NODES
            invariant
                from <= NUM_NODES,
                ids@ == adjacency_ids(*edges),
                graph.nodes@ == ids@,
                graph.current_node == starting_pos,
                graph.conditions@ == Seq::new(n, |i: int| false),
                graph.wf(),
                n == NUM_NODES,
                vstd::laws_eq::obeys_concrete_eq::<NodeID>(),
                targets_known(*edges),
                graph.matrix() == Seq::new(n, |f: int| Seq::new(n, |t: int| f < from && adjacency_edge(*edges, f, t))),
            decreases NUM_NODES - from,
        {
            let targets: &[NodeID] = edges[from].1;
            let mut j: usize = 0;
            assert(graph.matrix() =~~= Seq::new(n, |f: int| Seq::new(n, |t: int|
                (f < from && adjacency_edge(*edges, f, t))
                || (f == from && exists|jj: int| 0 <= jj < j && is_first_pos(ids@, #[trigger] targets@[jj], t)))));
            while j < targets.len()
                invariant
                    from < NUM_NODES,
                    j <= targets@.len(),
                    targets@ == edges@[from as int].1@,
                    ids@ == adjacency_ids(*edges),
                    graph.nodes@ == ids@,
                    graph.current_node == starting_pos,
                    graph.conditions@ == Seq::new(n, |i: int| false),
                    graph.wf(),
                    n == NUM_NODES,
                    vstd::laws_eq::obeys_concrete_eq::<NodeID>(),
                    targets_known(*edges),
                    graph.matrix() == Seq::new(n, |f: int| Seq::new(n, |t: int|
                        (f < from && adjacency_edge(*edges, f, t))
                        || (f == from && exists|jj: int| 0 <= jj < j && is_first_pos(ids@, #[trigger] targets@[jj], t)))),
                decreases targets@.len() - j,
            {
                assert(adjacency_ids(*edges).contains(edges@[from as int].1@[j as int]));
                let pos = position_of(ids.as_slice(), &targets[j]);
                let to = pos.unwrap();
                let ghost before = graph.matrix();
                graph.add_edge(from, to);
                j = j + 1;
                assert(graph.matrix() =~~= Seq::new(n, |f: int| Seq::new(n, |t: int|
                        (f < from && adjacency_edge(*edges, f, t))
                        || (f == from && exists|jj: int| 0 <= jj < j && is_first_pos(ids@, #[trigger] targets@[jj], t)))));
            }
            from = from + 1;
            assert(graph.matrix() =~~= Seq::new(n, |f: int| Seq::new(n, |t: int| f < from && adjacency_edge(*edges, f, t))));
        }
        assert(graph.matrix() =~~= adjacency_matrix(*edges));
        graph
    }
}

} // verus!
