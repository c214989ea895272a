use vstd::prelude::*;

verus! {

/// A transition of the DFA: it leads from the state with index `start` to the
/// state with index `end` on the symbol `symbol`.
///
/// Two transitions are equal when they join the same two states in the same
/// direction on the same symbol; where they are drawn plays no part.
#[derive(Clone, Copy, Debug, PartialEq, Eq, Structural, Hash)]
pub struct Connection {
    /// The index of the state that the transition leaves
    pub start: usize,
    /// The index of the state that the transition enters
    pub end: usize,
    /// The symbol associated with the transition
    pub symbol: char,
}

impl Connection {
    /// Creates a new transition from `start` to `end` on `symbol`.
    pub fn new(start: usize, end: usize, symbol: char) -> (conn: Self)
        ensures
            conn.start == start,
            conn.end == end,
            conn.symbol == symbol,
    {
        Connection { start, end, symbol }
    }

    /// Whether `node` is one of the two states that the transition joins.
    pub fn has_endpoint(&self, node: usize) -> (r: bool)
        ensures
            r == (node == self.start || node == self.end),
    {
        node == self.start || node == self.end
    }
}

/// `other` leads between the same two states as `conn`, in the same direction,
/// on `symbol`.
pub open spec fn same_direction_on(other: Connection, conn: Connection, symbol: char) -> bool {
    &&& other.start == conn.start
    &&& other.end == conn.end
    &&& other.symbol == symbol
}

/// Assigning `symbol` to the transition at `index` would duplicate another
/// transition of `connections`: one with another index that leads between the
/// same two states in the same direction on `symbol`.
pub open spec fn spec_would_duplicate_symbol(
    connections: Seq<Connection>,
    index: int,
    symbol: char,
) -> bool {
    &&& 0 <= index < connections.len()
    &&& exists|j: int|
        0 <= j < connections.len() && j != index && #[trigger] same_direction_on(
            connections[j],
            connections[index],
            symbol,
        )
}

/// Returns whether assigning `symbol` to the connection at `index` would duplicate
/// an existing same-direction transition.
///
/// An `index` outside `connections` duplicates nothing.
pub fn would_duplicate_symbol(connections: &[Connection], index: usize, symbol: char) -> (r: bool)
    ensures
        r == spec_would_duplicate_symbol(connections@, index as int, symbol),
        r <==> (index < connections@.len() && exists|j: int|
            0 <= j < connections@.len() && j != index && #[trigger] connections@[j] == (Connection {
                start: connections@[index as int].start,
                end: connections@[index as int].end,
                symbol,
            })),
{
    proof {
        lemma_duplicate_symbol_means_equal_after_assigning(connections@, index as int, symbol);
    }
    if index >= connections.len() {
        return false;
    }
    let conn = connections[index];
    let mut i: usize = 0;
    while i < connections.len()
        invariant
            index < connections@.len(),
            conn == connections@[index as int],
            i <= connections@.len(),
            forall|j: int|
                0 <= j < i && j != index ==> !#[trigger] same_direction_on(
                    connections@[j],
                    conn,
                    symbol,
                ),
        decreases connections@.len() - i,
    {
        let other = connections[i];
        if i != index && other.start == conn.start && other.end == conn.end && other.symbol
            == symbol {
            assert(same_direction_on(connections@[i as int], conn, symbol));
            return true;
        }
        i = i + 1;
    }
    false
}


/// `a` and `b` join the same two states, in either direction.
pub open spec fn joins_same_states(a: Connection, b: Connection) -> bool {
    ||| a.start == b.start && a.end == b.end
    ||| a.start == b.end && a.end == b.start
}

/// `r` lists, in increasing order, exactly the indices of the transitions of
/// `conns` that join the same two states as the transition at `i`.
pub open spec fn is_parallel_group(conns: Seq<Connection>, i: int, r: Seq<usize>) -> bool {
    &&& forall|k: int|
        0 <= k < r.len() ==> #[trigger] r[k] < conns.len() && joins_same_states(
            conns[r[k] as int],
            conns[i],
        )
    &&& forall|j: int|
        0 <= j < conns.len() && joins_same_states(#[trigger] conns[j], conns[i]) ==> r.contains(
            j as usize,
        )
    &&& forall|a: int, b: int| 0 <= a < b < r.len() ==> r[a] < r[b]
}

/// Returns the indices, in increasing order, of the transitions of `connections`
/// that join the same two states as the one at `conn_index`, in either direction.
/// These are the transitions drawn side by side with it, itself among them.
pub fn parallel_indices(connections: &[Connection], conn_index: usize) -> (r: Vec<usize>)
    requires
        conn_index < connections@.len(),
    ensures
        is_parallel_group(connections@, conn_index as int, r@),
        forall|k: int|
            0 <= k < r@.len() ==> #[trigger] r@[k] < connections@.len() && set![
                connections@[r@[k] as int].start,
                connections@[r@[k] as int].end,
            ] == set![connections@[conn_index as int].start, connections@[conn_index as int].end],
        forall|j: int|
            0 <= j < connections@.len() && set![
                (#[trigger] connections@[j]).start,
                connections@[j].end,
            ] == set![connections@[conn_index as int].start, connections@[conn_index as int].end]
                ==> r@.contains(j as usize),
        forall|a: int, b: int| 0 <= a < b < r@.len() ==> r@[a] < r@[b],
{
    let r = parallel_indices_in_order(connections, conn_index);
    proof {
        lemma_parallel_group_same_end_states(connections@, conn_index as int, r@);
    }
    r
}

/// The indices of the transitions that join the same two states as the one at
/// `conn_index`, gathered in one pass in increasing order.
fn parallel_indices_in_order(connections: &[Connection], conn_index: usize) -> (r: Vec<usize>)
    requires
        conn_index < connections@.len(),
    ensures
        is_parallel_group(connections@, conn_index as int, r@),
{
    let conn = connections[conn_index];
    let mut r: Vec<usize> = Vec::new();
    let mut i: usize = 0;
    while i < connections.len()
        invariant
            conn_index < connections@.len(),
            conn == connections@[conn_index as int],
            i <= connections@.len(),
            forall|k: int|
                0 <= k < r@.len() ==> #[trigger] r@[k] < i && joins_same_states(
                    connections@[r@[k] as int],
                    conn,
                ),
            forall|j: int|
                0 <= j < i && joins_same_states(#[trigger] connections@[j], conn) ==> r@.contains(
                    j as usize,
                ),
            forall|a: int, b: int| 0 <= a < b < r@.len() ==> r@[a] < r@[b],
        decreases connections@.len() - i,
    {
        let e = connections[i];
        if (e.start == conn.start && e.end == conn.end) || (e.start == conn.end && e.end
            == conn.start) {
            let ghost before = r@;
            r.push(i);
            assert forall|j: int|
                0 <= j < i && joins_same_states(#[trigger] connections@[j], conn) implies r@.contains(
                j as usize,
            ) by {
                let k = choose|k: int| 0 <= k < before.len() && before[k] == j as usize;
                assert(r@[k] == j as usize);
            }
            assert(r@[r@.len() - 1] == i);
        }
        i = i + 1;
    }
    r
}

/// `k` is the first position of `x` in `s`.
pub open spec fn is_first_position(s: Seq<usize>, x: usize, k: int) -> bool {
    &&& 0 <= k < s.len()
    &&& s[k] == x
    &&& forall|j: int| 0 <= j < k ==> s[j] != x
}

/// The first position of `x` in `s` (meaningful where `s` contains `x`).
pub open spec fn first_position(s: Seq<usize>, x: usize) -> int {
    choose|k: int| is_first_position(s, x, k)
}

/// Twice the rank of `x` among the `s.len()` transitions drawn side by side:
/// the transitions are spread evenly about the straight line between the two
/// states, the one at position `k` at `k - (n - 1) / 2` steps from it.
pub open spec fn spec_doubled_edge_rank(s: Seq<usize>, x: usize) -> int {
    2 * first_position(s, x) - (s.len() - 1)
}

/// A sequence has at most one first position of a value.
pub proof fn lemma_first_position_unique(s: Seq<usize>, x: usize, k: int)
    requires
        is_first_position(s, x, k),
    ensures
        first_position(s, x) == k,
{
    let c: int = first_position(s, x);
    assert(is_first_position(s, x, c));
    if c < k {
        assert(s[c] != x);
    } else if k < c {
        assert(s[k] != x);
    }
}

/// Returns twice the rank of the transition `conn_index` among the transitions in
/// `parallel_indices` that are drawn side by side with it: the transition at
/// position `k` of `n` is bent by `k - (n - 1) / 2` steps off the straight line,
/// so that the group spreads evenly on both sides of it. Twice the rank is an
/// integer.
pub fn doubled_edge_rank(parallel_indices: &[usize], conn_index: usize) -> (r: i128)
    requires
        parallel_indices@.contains(conn_index),
    ensures
        r == spec_doubled_edge_rank(parallel_indices@, conn_index),
{
    let mut i: usize = 0;
    while i < parallel_indices.len()
        invariant
            parallel_indices@.contains(conn_index),
            i <= parallel_indices@.len(),
            forall|j: int| 0 <= j < i ==> parallel_indices@[j] != conn_index,
        decreases parallel_indices@.len() - i,
    {
        if parallel_indices[i] == conn_index {
            proof {
                lemma_first_position_unique(parallel_indices@, conn_index, i as int);
            }
            let n: usize = parallel_indices.len();
            return 2 * (i as i128) - ((n as i128) - 1);
        }
        i = i + 1;
    }
    proof {
        let k = choose|k: int| 0 <= k < parallel_indices@.len() && parallel_indices@[k] == conn_index;
        assert(parallel_indices@[k] != conn_index);
    }
    0
}


/// Calls std's `ToString::to_string` on a `char`. Trusted, not proved: the
/// contract claims, as std documents it, that the result is the string made of
/// the one character `c`.
#[verifier::external_body]
pub(crate) fn char_to_string(c: char) -> (s: String)
    ensures
        s@ == seq![c],
{
    c.to_string()
}

/// The text written beside a transition: its symbol, or nothing for the
/// symbol `'\0'`, which stands for a transition that has none yet.
pub open spec fn spec_connection_label(conn: Connection) -> Seq<char> {
    if conn.symbol == '\0' {
        Seq::empty()
    } else {
        seq![conn.symbol]
    }
}

/// Returns the text displayed at the label of the transition: its symbol, or the
/// empty string for the symbol `'\0'`.
pub fn connection_label(conn: &Connection) -> (r: String)
    ensures
        r@ == spec_connection_label(*conn),
        conn.symbol != '\0' ==> r@.len() == 1 && r@[0] == conn.symbol,
        conn.symbol == '\0' ==> r@.len() == 0,
{
    proof {
        lemma_connection_label_shows_symbol(*conn, *conn);
    }
    if conn.symbol == '\0' {
        String::new()
    } else {
        char_to_string(conn.symbol)
    }
}


/// Two strictly increasing sequences that hold the same values are equal.
proof fn lemma_increasing_same_values_equal(a: Seq<usize>, b: Seq<usize>)
    requires
        forall|x: int, y: int| 0 <= x < y < a.len() ==> a[x] < a[y],
        forall|x: int, y: int| 0 <= x < y < b.len() ==> b[x] < b[y],
        forall|v: usize| a.contains(v) <==> b.contains(v),
    ensures
        a == b,
    decreases a.len() + b.len(),
{
    if a.len() == 0 {
        if b.len() > 0 {
            assert(b.contains(b[0]));
        }
        assert(a =~= b);
    } else if b.len() == 0 {
        assert(a.contains(a[0]));
    } else {
        assert(a.contains(a[0]));
        assert(b.contains(b[0]));
        let ka = choose|k: int| 0 <= k < b.len() && b[k] == a[0];
        let kb = choose|k: int| 0 <= k < a.len() && a[k] == b[0];
        assert(a[0] >= b[0]) by {
            if ka > 0 {
                assert(b[0] < b[ka]);
            }
        }
        assert(b[0] >= a[0]) by {
            if kb > 0 {
                assert(a[0] < a[kb]);
            }
        }
        let a1 = a.drop_first();
        let b1 = b.drop_first();
        assert forall|v: usize| a1.contains(v) <==> b1.contains(v) by {
            if a1.contains(v) {
                let k = choose|k: int| 0 <= k < a1.len() && a1[k] == v;
                assert(a[k + 1] == v && a[0] < a[k + 1]);
                assert(a.contains(v));
                let m = choose|m: int| 0 <= m < b.len() && b[m] == v;
                assert(m != 0);
                assert(b1[m - 1] == v);
            }
            if b1.contains(v) {
                let k = choose|k: int| 0 <= k < b1.len() && b1[k] == v;
                assert(b[k + 1] == v && b[0] < b[k + 1]);
                assert(b.contains(v));
                let m = choose|m: int| 0 <= m < a.len() && a[m] == v;
                assert(m != 0);
                assert(a1[m - 1] == v);
            }
        }
        lemma_increasing_same_values_equal(a1, b1);
        assert(a =~= seq![a[0]] + a1);
        assert(b =~= seq![b[0]] + b1);
    }
}

/// A transition is drawn side by side with itself: its own index belongs to its
/// group, and a group lists no index twice.
pub proof fn lemma_parallel_group_holds_itself(conns: Seq<Connection>, i: int, r: Seq<usize>)
    requires
        0 <= i < conns.len(),
        is_parallel_group(conns, i, r),
    ensures
        r.contains(i as usize),
        r.no_duplicates(),
{
    assert(joins_same_states(conns[i], conns[i]));
    assert forall|a: int, b: int| 0 <= a < r.len() && 0 <= b < r.len() && a != b implies r[a]
        != r[b] by {
        if a < b {
            assert(r[a] < r[b]);
        } else {
            assert(r[b] < r[a]);
        }
    }
}

/// The transitions drawn side by side fall into groups: the group of any member
/// of the group of a transition is that same group.
pub proof fn lemma_parallel_groups_agree(
    conns: Seq<Connection>,
    i: int,
    j: int,
    ri: Seq<usize>,
    rj: Seq<usize>,
)
    requires
        0 <= i < conns.len(),
        0 <= j < conns.len(),
        is_parallel_group(conns, i, ri),
        is_parallel_group(conns, j, rj),
        ri.contains(j as usize),
    ensures
        ri == rj,
{
    let kj = choose|k: int| 0 <= k < ri.len() && ri[k] == j as usize;
    assert(ri[kj] == j as usize);
    assert(joins_same_states(conns[j], conns[i]));
    assert forall|v: usize| ri.contains(v) <==> rj.contains(v) by {
        if ri.contains(v) {
            let k = choose|k: int| 0 <= k < ri.len() && ri[k] == v;
            assert(ri[k] == v);
            assert(joins_same_states(conns[v as int], conns[j]));
        }
        if rj.contains(v) {
            let k = choose|k: int| 0 <= k < rj.len() && rj[k] == v;
            assert(rj[k] == v);
            assert(joins_same_states(conns[v as int], conns[i]));
        }
    }
    lemma_increasing_same_values_equal(ri, rj);
}

/// The transitions of a group are spread evenly on both sides of the straight
/// line between their states: the one at position `k` and the one at position
/// `n - 1 - k` are bent by opposite amounts.
pub proof fn lemma_doubled_edge_rank_symmetric(s: Seq<usize>, k: int)
    requires
        s.no_duplicates(),
        0 <= k < s.len(),
    ensures
        spec_doubled_edge_rank(s, s[k]) == 2 * k - (s.len() - 1),
        spec_doubled_edge_rank(s, s[k]) + spec_doubled_edge_rank(s, s[s.len() - 1 - k]) == 0,
{
    let m: int = s.len() - 1 - k;
    assert(is_first_position(s, s[k], k));
    assert(is_first_position(s, s[m], m));
    lemma_first_position_unique(s, s[k], k);
    lemma_first_position_unique(s, s[m], m);
}

/// Assigning to a transition the symbol that it already has duplicates a
/// transition exactly when another transition is equal to it.
pub proof fn lemma_duplicate_symbol_is_equal_connection(conns: Seq<Connection>, i: int)
    requires
        0 <= i < conns.len(),
    ensures
        spec_would_duplicate_symbol(conns, i, conns[i].symbol) <==> exists|j: int|
            0 <= j < conns.len() && j != i && #[trigger] conns[j] == conns[i],
{
    if spec_would_duplicate_symbol(conns, i, conns[i].symbol) {
        let j = choose|j: int|
            0 <= j < conns.len() && j != i && #[trigger] same_direction_on(
                conns[j],
                conns[i],
                conns[i].symbol,
            );
        assert(conns[j] == conns[i]);
    }
    if exists|j: int| 0 <= j < conns.len() && j != i && #[trigger] conns[j] == conns[i] {
        let j = choose|j: int| 0 <= j < conns.len() && j != i && #[trigger] conns[j] == conns[i];
        assert(same_direction_on(conns[j], conns[i], conns[i].symbol));
    }
}


/// Equality of transitions compares their two states and their symbol, and
/// nothing else; it is an equivalence: reflexive, symmetric and transitive.
pub proof fn lemma_connection_eq_equivalence(a: Connection, b: Connection, c: Connection)
    ensures
        (a == b) <==> (a.start == b.start && a.end == b.end && a.symbol == b.symbol),
        a == a,
        (a == b) == (b == a),
        a == b && b == c ==> a == c,
{
}


/// Assigning `symbol` to the transition at `i` duplicates a transition exactly
/// when, with that symbol, the transition would be equal to another transition
/// of `conns`; for an `i` outside `conns` it duplicates nothing. This holds for
/// every symbol, not only the transition's current one.
pub proof fn lemma_duplicate_symbol_means_equal_after_assigning(
    conns: Seq<Connection>,
    i: int,
    symbol: char,
)
    ensures
        spec_would_duplicate_symbol(conns, i, symbol) <==> (0 <= i < conns.len() && exists|j: int|
            0 <= j < conns.len() && j != i && #[trigger] conns[j] == (Connection {
                start: conns[i].start,
                end: conns[i].end,
                symbol,
            })),
{
    if 0 <= i < conns.len() {
        let renamed = Connection { start: conns[i].start, end: conns[i].end, symbol };
        if spec_would_duplicate_symbol(conns, i, symbol) {
            let j = choose|j: int|
                0 <= j < conns.len() && j != i && #[trigger] same_direction_on(
                    conns[j],
                    conns[i],
                    symbol,
                );
            assert(conns[j] == renamed);
        }
        if exists|j: int| 0 <= j < conns.len() && j != i && #[trigger] conns[j] == renamed {
            let j = choose|j: int| 0 <= j < conns.len() && j != i && #[trigger] conns[j] == renamed;
            assert(same_direction_on(conns[j], conns[i], symbol));
        }
    }
}

/// Two pairs of states are the same unordered pair exactly when they match in
/// order or crosswise.
proof fn lemma_same_pair(a: usize, b: usize, u: usize, v: usize)
    ensures
        set![a, b] == set![u, v] <==> ((a == u && b == v) || (a == v && b == u)),
{
    if set![a, b] == set![u, v] {
        assert(set![a, b].contains(a) && set![a, b].contains(b));
        assert(set![u, v].contains(u) && set![u, v].contains(v));
        assert(set![u, v].contains(a) && set![u, v].contains(b));
        assert(set![a, b].contains(u) && set![a, b].contains(v));
    }
    if (a == u && b == v) || (a == v && b == u) {
        assert(set![a, b] =~= set![u, v]);
    }
}

/// The group of a transition holds exactly the transitions whose two states are
/// the same unordered pair as its own: transitions with different end states
/// are never in one group.
pub proof fn lemma_parallel_group_same_end_states(conns: Seq<Connection>, i: int, r: Seq<usize>)
    requires
        0 <= i < conns.len(),
        is_parallel_group(conns, i, r),
    ensures
        forall|k: int|
            0 <= k < r.len() ==> #[trigger] r[k] < conns.len() && set![
                conns[r[k] as int].start,
                conns[r[k] as int].end,
            ] == set![conns[i].start, conns[i].end],
        forall|j: int|
            0 <= j < conns.len() && set![(#[trigger] conns[j]).start, conns[j].end] == set![
                conns[i].start,
                conns[i].end,
            ] ==> r.contains(j as usize),
{
    assert forall|k: int| 0 <= k < r.len() implies #[trigger] r[k] < conns.len() && set![
        conns[r[k] as int].start,
        conns[r[k] as int].end,
    ] == set![conns[i].start, conns[i].end] by {
        let c = conns[r[k] as int];
        lemma_same_pair(c.start, c.end, conns[i].start, conns[i].end);
    }
    assert forall|j: int|
        0 <= j < conns.len() && set![(#[trigger] conns[j]).start, conns[j].end] == set![
            conns[i].start,
            conns[i].end,
        ] implies r.contains(j as usize) by {
        lemma_same_pair(conns[j].start, conns[j].end, conns[i].start, conns[i].end);
        assert(joins_same_states(conns[j], conns[i]));
    }
}

/// A transition with a symbol is labelled with exactly that one character, and
/// one without (`'\0'`) with nothing; so two transitions with symbols have the
/// same label exactly when they have the same symbol.
pub proof fn lemma_connection_label_shows_symbol(a: Connection, b: Connection)
    ensures
        a.symbol != '\0' ==> spec_connection_label(a).len() == 1 && spec_connection_label(a)[0]
            == a.symbol,
        a.symbol == '\0' ==> spec_connection_label(a).len() == 0,
        a.symbol != '\0' && b.symbol != '\0' ==> (spec_connection_label(a)
            == spec_connection_label(b) <==> a.symbol == b.symbol),
{
    if a.symbol != '\0' && b.symbol != '\0' && spec_connection_label(a)
        == spec_connection_label(b) {
        assert(spec_connection_label(a)[0] == spec_connection_label(b)[0]);
    }
}

} // verus!
