use vstd::prelude::*;

use super::connection::{char_to_string, Connection};

verus! {

/// The radius of a DFA node when drawn on the canvas.
pub const NODE_SIZE: i32 = 32;

/// The maximum width of the text label for a DFA node.
pub const NODE_TEXT_MAXWIDTH: i32 = NODE_SIZE;

/// The changes that the DFA editor makes to the automaton.
#[derive(Debug, Clone, Copy, PartialEq, Eq, Structural)]
pub enum Message {
    /// Add a new state; the drawing places it where the user clicked
    AddNode,
    /// Add a transition from the state `start` to the state `end` on `symbol`
    AddCon {
        /// The index of the state that the transition leaves
        start: usize,
        /// The index of the state that the transition enters
        end: usize,
        /// The symbol associated with the transition
        symbol: char,
    },
}

/// A state of the DFA, with whether it is an accepting or initial state.
#[derive(Debug, Clone, Copy, PartialEq, Eq, Structural)]
pub struct Node {
    /// The index of the state, by which transitions refer to it
    pub index: Option<usize>,
    /// Whether the node is an accepting state
    pub is_accepting: bool,
    /// Whether the node is an initial state
    pub is_initial: bool,
}

impl Default for Node {
    /// A state without an index that is neither accepting nor initial.
    fn default() -> (n: Self)
        ensures
            n == (Node { index: None, is_accepting: false, is_initial: false }),
    {
        Node { index: None, is_accepting: false, is_initial: false }
    }
}

/// The state that the editor creates as the state number `i`: it carries its
/// index, only the first state created is accepting, and none is initial.
pub open spec fn node_at(i: int) -> Node {
    Node { index: Some(i as usize), is_accepting: i == 0, is_initial: false }
}

/// A single DFA: its states and its transitions.
pub struct DfaInstance {
    /// The states, the state with index `i` at position `i`
    pub nodes: Vec<Node>,
    /// The transitions, in the order in which they were added
    pub edges: Vec<Connection>,
}

/// The states after the editor has applied `message` to a DFA with `nodes`.
pub open spec fn nodes_after(nodes: Seq<Node>, message: Message) -> Seq<Node> {
    match message {
        Message::AddNode => nodes.push(node_at(nodes.len() as int)),
        Message::AddCon { .. } => nodes,
    }
}

/// The transitions after the editor has applied `message` to a DFA with `nodes`
/// and `edges`: a transition is added only between two states that exist.
pub open spec fn edges_after(nodes: Seq<Node>, edges: Seq<Connection>, message: Message) -> Seq<
    Connection,
> {
    match message {
        Message::AddNode => edges,
        Message::AddCon { start, end, symbol } => {
            if start < nodes.len() && end < nodes.len() {
                edges.push(Connection { start, end, symbol })
            } else {
                edges
            }
        },
    }
}

impl DfaInstance {
    /// The DFA is well formed: each state sits at the position of its index, as
    /// the editor created it, and each transition joins two of its states.
    pub open spec fn wf(&self) -> bool {
        &&& forall|i: int| 0 <= i < self.nodes@.len() ==> #[trigger] self.nodes@[i] == node_at(i)
        &&& forall|k: int|
            0 <= k < self.edges@.len() ==> (#[trigger] self.edges@[k]).start < self.nodes@.len()
                && self.edges@[k].end < self.nodes@.len()
    }

    /// Applies a message of the DFA editor to the DFA.
    ///
    /// `AddNode` appends a new state whose index is the number of states so far;
    /// the first state is accepting. `AddCon` appends a transition, provided that
    /// both of its states exist; otherwise the DFA is left as it is.
    pub fn update(&mut self, message: Message)
        ensures
            final(self).nodes@ == nodes_after(old(self).nodes@, message),
            final(self).edges@ == edges_after(old(self).nodes@, old(self).edges@, message),
            old(self).wf() ==> final(self).wf(),
    {
        match message {
            Message::AddNode => {
                let n: usize = self.nodes.len();
                self.nodes.push(Node { index: Some(n), is_accepting: n == 0, is_initial: false });
            },
            Message::AddCon { start, end, symbol } => {
                if start < self.nodes.len() && end < self.nodes.len() {
                    self.edges.push(Connection { start, end, symbol });
                }
            },
        }
    }
}

impl Default for DfaInstance {
    /// The empty DFA.
    fn default() -> (d: Self)
        ensures
            d.nodes@ == Seq::<Node>::empty(),
            d.edges@ == Seq::<Connection>::empty(),
            d.wf(),
    {
        DfaInstance { nodes: Vec::new(), edges: Vec::new() }
    }
}

/// The decimal digit `d` as a character.
pub open spec fn digit_char(d: int) -> char {
    (d + 48) as char
}

/// The decimal representation of `n`, most significant digit first and with no
/// leading zero.
pub open spec fn decimal(n: nat) -> Seq<char>
    decreases n,
{
    if n < 10 {
        seq![digit_char(n as int)]
    } else {
        decimal(n / 10).push(digit_char((n % 10) as int))
    }
}

/// A decimal representation is never empty.
pub proof fn lemma_decimal_not_empty(n: nat)
    ensures
        decimal(n).len() >= 1,
    decreases n,
{
    if n >= 10 {
        lemma_decimal_not_empty(n / 10);
    }
}

/// The character of a decimal digit.
fn digit_to_char(d: usize) -> (c: char)
    requires
        d < 10,
    ensures
        c == digit_char(d as int),
{
    let b: u8 = 48u8 + (d as u8);
    b as char
}

/// Appends the decimal representation of `n` to `s`.
fn push_decimal(s: &mut String, n: usize)
    ensures
        final(s)@ == old(s)@ + decimal(n as nat),
    decreases n,
{
    if n >= 10 {
        push_decimal(s, n / 10);
    }
    let digit = char_to_string(digit_to_char(n % 10));
    s.append(digit.as_str());
    proof {
        assert(old(s)@ + decimal(n as nat) =~= old(s)@ + (if n >= 10 {
            decimal((n / 10) as nat)
        } else {
            Seq::empty()
        }) + seq![digit_char((n % 10) as int)]);
    }
}

/// The text written in the state `node`: `S` followed by its index in decimal,
/// or by `0` when it has none.
pub open spec fn spec_node_label(node: Node) -> Seq<char> {
    seq!['S'] + decimal(
        match node.index {
            Some(i) => i as nat,
            None => 0,
        },
    )
}

/// Returns the text displayed in a state: `S` followed by its index, as in
/// `S0`, `S1`, ..., or `S0` for a state without an index.
pub fn node_label(node: &Node) -> (r: String)
    ensures
        r@ == spec_node_label(*node),
        r@.len() >= 2,
        r@[0] == 'S',
        forall|k: int| 1 <= k < r@.len() ==> 48 <= #[trigger] r@[k] as int <= 57,
        r@.len() > 2 ==> r@[1] != '0',
        digits_value(r@.drop_first()) == match node.index {
            Some(i) => i as int,
            None => 0,
        },
{
    proof {
        lemma_node_label_reads_back(*node);
    }
    let index: usize = match node.index {
        Some(i) => i,
        None => 0,
    };
    let mut s = char_to_string('S');
    push_decimal(&mut s, index);
    s
}

/// Returns the first character of the decimal representation of `n`: the symbol
/// that the editor gives to a new transition when there are `n` already.
pub fn leading_digit(n: usize) -> (c: char)
    ensures
        c == decimal(n as nat)[0],
{
    let mut m: usize = n;
    while m >= 10
        invariant
            decimal(m as nat)[0] == decimal(n as nat)[0],
        decreases m,
    {
        proof {
            lemma_decimal_not_empty((m / 10) as nat);
        }
        m = m / 10;
    }
    digit_to_char(m)
}


/// The window in which to render the DFA editor
pub struct DfaWindow {
    /// The current state of the DFA being edited, including its nodes and connections
    pub dfa: DfaInstance,
}

/// How the user is currently interacting with the DFA editor,
/// such as adding a connection by dragging from one node to another
#[derive(Debug, Clone, Copy, PartialEq, Eq, Structural)]
pub enum Interaction {
    /// No interaction is currently happening
    Idle,
    /// User is adding a connection by dragging from one node to another,
    /// with the index of the initial node stored in `init`
    AddCon {
        /// The index of the state where the drag started
        init: usize,
    },
}

impl Default for Interaction {
    /// No interaction.
    fn default() -> (i: Self)
        ensures
            i == Interaction::Idle,
    {
        Interaction::Idle
    }
}

/// What the editor learns of a mouse event on its canvas.
///
/// A node is "hit" when its centre lies within the hit radius of the cursor (of
/// the origin where the cursor is not over the canvas); the canvas is "crowded"
/// at the cursor when the nearest node is too close for a new one to be placed
/// there.
#[derive(Debug, Clone, Copy, PartialEq, Eq, Structural)]
pub enum EditorEvent {
    /// The left button was pressed
    LeftPressed {
        /// Whether the cursor is over the canvas
        cursor_present: bool,
        /// The node hit by the cursor, if any
        hit: Option<usize>,
        /// Whether a new node would stand too close to an existing one
        crowded: bool,
    },
    /// The left button was released
    LeftReleased {
        /// The node hit by the cursor, if any
        hit: Option<usize>,
    },
    /// Any other event
    Other,
}

/// What the editor asks of the canvas after an event.
#[derive(Debug, Clone, Copy, PartialEq, Eq, Structural)]
pub enum EditorAction {
    /// Redraw the canvas and capture the event
    Redraw,
    /// Publish the message to the DFA and capture the event
    Publish(Message),
}

/// `hit` names one of the `node_count` states of the DFA.
pub open spec fn hits_state(hit: Option<usize>, node_count: nat) -> bool {
    hit is Some && hit->0 < node_count
}

/// The interaction after `event`, in a DFA with `node_count` states. A hit
/// that names no state of the DFA counts as no hit.
pub open spec fn interaction_after(
    interaction: Interaction,
    event: EditorEvent,
    node_count: nat,
) -> Interaction {
    match event {
        EditorEvent::LeftPressed { cursor_present, hit, crowded } => {
            if cursor_present && hits_state(hit, node_count) {
                Interaction::AddCon { init: hit->0 }
            } else if crowded {
                interaction
            } else {
                Interaction::Idle
            }
        },
        EditorEvent::LeftReleased { .. } => Interaction::Idle,
        EditorEvent::Other => interaction,
    }
}

/// The answer of the editor to `event`, in a DFA with `node_count` states and
/// `edge_count` transitions. A hit that names no state counts as no hit.
///
/// Pressing the button on a state starts dragging a new transition from it;
/// pressing it elsewhere adds a state unless the place is crowded. Releasing it
/// on a state after a drag adds a transition from the state where the drag
/// started to that state, whose symbol is the first decimal digit of
/// `edge_count`.
pub open spec fn action_for(
    interaction: Interaction,
    event: EditorEvent,
    node_count: nat,
    edge_count: nat,
) -> Option<EditorAction> {
    match event {
        EditorEvent::LeftPressed { cursor_present, hit, crowded } => {
            if cursor_present && hits_state(hit, node_count) {
                Some(EditorAction::Redraw)
            } else if crowded {
                None
            } else {
                Some(EditorAction::Publish(Message::AddNode))
            }
        },
        EditorEvent::LeftReleased { hit } => match interaction {
            Interaction::AddCon { init } => {
                if hits_state(hit, node_count) {
                    Some(
                        EditorAction::Publish(
                            Message::AddCon {
                                start: init,
                                end: hit->0,
                                symbol: decimal(edge_count)[0],
                            },
                        ),
                    )
                } else {
                    None
                }
            },
            Interaction::Idle => None,
        },
        EditorEvent::Other => None,
    }
}

impl DfaWindow {
    /// Updates the interaction with the editor on a mouse event and returns what
    /// the canvas should do: nothing, redraw, or publish a message to the DFA.
    /// A hit that names no state of the DFA counts as no hit.
    pub fn update(&self, interaction: &mut Interaction, event: EditorEvent) -> (r: Option<
        EditorAction,
    >)
        ensures
            *final(interaction) == interaction_after(
                *old(interaction),
                event,
                self.dfa.nodes@.len(),
            ),
            r == action_for(
                *old(interaction),
                event,
                self.dfa.nodes@.len(),
                self.dfa.edges@.len(),
            ),
            event is Other ==> *final(interaction) == *old(interaction) && r is None,
    {
        let node_count: usize = self.dfa.nodes.len();
        match event {
            EditorEvent::LeftPressed { cursor_present, hit, crowded } => {
                let on_state = match hit {
                    Some(h) => h < node_count,
                    None => false,
                };
                if cursor_present && on_state {
                    *interaction = Interaction::AddCon { init: hit.unwrap() };
                    Some(EditorAction::Redraw)
                } else if crowded {
                    None
                } else {
                    *interaction = Interaction::Idle;
                    Some(EditorAction::Publish(Message::AddNode))
                }
            },
            EditorEvent::LeftReleased { hit } => {
                let started = *interaction;
                *interaction = Interaction::Idle;
                match (started, hit) {
                    (Interaction::AddCon { init }, Some(end)) => {
                        if end < node_count {
                            let symbol = leading_digit(self.dfa.edges.len());
                            Some(
                                EditorAction::Publish(
                                    Message::AddCon { start: init, end, symbol },
                                ),
                            )
                        } else {
                            None
                        }
                    },
                    _ => None,
                }
            },
            EditorEvent::Other => None,
        }
    }
}

/// The interaction names no state outside the first `node_count` ones.
pub open spec fn interaction_within(interaction: Interaction, node_count: nat) -> bool {
    match interaction {
        Interaction::Idle => true,
        Interaction::AddCon { init } => init < node_count,
    }
}

/// A drag always starts from an existing state: whatever the event, an
/// interaction that names only states of the DFA still does afterwards, and
/// every transition that the editor publishes joins two states of the DFA, so
/// that the DFA adds it.
pub proof fn lemma_drag_starts_from_existing_state(
    interaction: Interaction,
    event: EditorEvent,
    node_count: nat,
    edge_count: nat,
)
    requires
        interaction_within(interaction, node_count),
    ensures
        interaction_within(interaction_after(interaction, event, node_count), node_count),
        action_for(interaction, event, node_count, edge_count) matches Some(
            EditorAction::Publish(Message::AddCon { start, end, .. }),
        ) ==> start < node_count && end < node_count,
{
}

/// The symbol that the editor gives to a new transition is a decimal digit,
/// `'0'` only in a DFA without transitions; in particular it is never `'\0'`,
/// so the label of the transition shows it.
pub proof fn lemma_new_symbol_is_digit(edge_count: nat)
    ensures
        48 <= decimal(edge_count)[0] as int <= 57,
        edge_count > 0 ==> decimal(edge_count)[0] != '0',
        decimal(edge_count)[0] != '\0',
    decreases edge_count,
{
    if edge_count >= 10 {
        lemma_new_symbol_is_digit(edge_count / 10);
        lemma_decimal_not_empty(edge_count / 10);
    }
}

/// Releasing the button always ends the interaction, whatever it was.
pub proof fn lemma_release_ends_interaction(
    interaction: Interaction,
    hit: Option<usize>,
    node_count: nat,
)
    ensures
        interaction_after(interaction, EditorEvent::LeftReleased { hit }, node_count)
            == Interaction::Idle,
{
}

/// Dragging from one state to another adds a transition between them: pressing
/// the button on state `a` starts a drag from `a`, whatever was going on; then
/// releasing it on state `b` publishes a transition from `a` to `b`, which the
/// DFA appends to its transitions, keeping its states and staying well formed.
pub proof fn lemma_drag_adds_transition(
    dfa: DfaInstance,
    interaction: Interaction,
    a: usize,
    b: usize,
    crowded: bool,
)
    requires
        dfa.wf(),
        a < dfa.nodes@.len(),
        b < dfa.nodes@.len(),
    ensures
        ({
            let press = EditorEvent::LeftPressed { cursor_present: true, hit: Some(a), crowded };
            let release = EditorEvent::LeftReleased { hit: Some(b) };
            let n = dfa.nodes@.len();
            let dragging = interaction_after(interaction, press, n);
            let symbol = decimal(dfa.edges@.len())[0];
            let message = Message::AddCon { start: a, end: b, symbol };
            &&& action_for(interaction, press, n, dfa.edges@.len()) == Some(EditorAction::Redraw)
            &&& dragging == Interaction::AddCon { init: a }
            &&& action_for(dragging, release, n, dfa.edges@.len()) == Some(
                EditorAction::Publish(message),
            )
            &&& interaction_after(dragging, release, n) == Interaction::Idle
            &&& nodes_after(dfa.nodes@, message) == dfa.nodes@
            &&& edges_after(dfa.nodes@, dfa.edges@, message) == dfa.edges@.push(
                Connection { start: a, end: b, symbol },
            )
        }),
{
    // The symbol is a valid character, which lets the transition built from it
    // be compared with the one that the DFA appends.
    lemma_new_symbol_is_digit(dfa.edges@.len());
    lemma_decimal_not_empty(dfa.edges@.len());
}

/// Pressing the button where no drag starts (no cursor, or no state hit) and
/// the canvas is not crowded adds a state, numbered after the existing ones;
/// where the canvas is crowded, nothing happens. This holds whatever the
/// number of transitions.
pub proof fn lemma_click_adds_state(
    nodes: Seq<Node>,
    interaction: Interaction,
    cursor_present: bool,
    hit: Option<usize>,
    crowded: bool,
    edge_count: nat,
)
    requires
        !(cursor_present && hits_state(hit, nodes.len())),
    ensures
        ({
            let press = EditorEvent::LeftPressed { cursor_present, hit, crowded };
            let n = nodes.len();
            &&& !crowded ==> action_for(interaction, press, n, edge_count) == Some(
                EditorAction::Publish(Message::AddNode),
            )
            &&& !crowded ==> interaction_after(interaction, press, n) == Interaction::Idle
            &&& crowded ==> action_for(interaction, press, n, edge_count) is None
            &&& crowded ==> interaction_after(interaction, press, n) == interaction
            &&& nodes_after(nodes, Message::AddNode) == nodes.push(node_at(n as int))
        }),
{
}


/// The number that a string of decimal digits stands for, most significant
/// digit first (each character counts for its code minus that of `'0'`).
pub open spec fn digits_value(s: Seq<char>) -> int
    decreases s.len(),
{
    if s.len() == 0 {
        0
    } else {
        digits_value(s.drop_last()) * 10 + (s.last() as int - 48)
    }
}

/// Reading back the decimal representation of `n` gives `n`: it is made of
/// digits only, has no leading zero, and stands for `n`. So two numbers have
/// the same representation only when they are equal.
pub proof fn lemma_decimal_reads_back(n: nat)
    ensures
        decimal(n).len() >= 1,
        forall|k: int| 0 <= k < decimal(n).len() ==> 48 <= #[trigger] decimal(n)[k] as int <= 57,
        decimal(n).len() > 1 ==> decimal(n)[0] != '0',
        digits_value(decimal(n)) == n,
    decreases n,
{
    lemma_new_symbol_is_digit(n);
    let c = digit_char((n % 10) as int);
    assert(c as int == (n % 10) + 48);
    if n < 10 {
        assert(decimal(n).drop_last() =~= Seq::<char>::empty());
        assert(decimal(n).last() == c);
        assert(digits_value(Seq::<char>::empty()) == 0);
        assert(n % 10 == n);
        assert(digits_value(decimal(n)) == digits_value(decimal(n).drop_last()) * 10 + (
        decimal(n).last() as int - 48));
    } else {
        lemma_decimal_reads_back(n / 10);
        let d = decimal(n / 10);
        assert(decimal(n) == d.push(c));
        assert(decimal(n).drop_last() =~= d);
        assert(decimal(n).last() == c);
        assert((n / 10) * 10 + n % 10 == n);
        assert(digits_value(decimal(n)) == digits_value(d) * 10 + (c as int - 48));
        assert forall|k: int| 0 <= k < decimal(n).len() implies 48 <= #[trigger] decimal(
            n,
        )[k] as int <= 57 by {
            if k < d.len() {
                assert(decimal(n)[k] == d[k]);
            }
        }
    }
}

/// The label of a state reads back as its index: `S` followed by the digits of
/// the index (of 0 when it has none), without a leading zero. So states with
/// different indices never share a label.
pub proof fn lemma_node_label_reads_back(node: Node)
    ensures
        spec_node_label(node).len() >= 2,
        spec_node_label(node)[0] == 'S',
        forall|k: int|
            1 <= k < spec_node_label(node).len() ==> 48 <= #[trigger] spec_node_label(node)[k] as int
                <= 57,
        spec_node_label(node).len() > 2 ==> spec_node_label(node)[1] != '0',
        digits_value(spec_node_label(node).drop_first()) == match node.index {
            Some(i) => i as int,
            None => 0,
        },
{
    let n: nat = match node.index {
        Some(i) => i as nat,
        None => 0,
    };
    lemma_decimal_reads_back(n);
    let l = spec_node_label(node);
    assert(l.drop_first() =~= decimal(n));
    assert forall|k: int| 1 <= k < l.len() implies 48 <= #[trigger] l[k] as int <= 57 by {
        assert(l[k] == decimal(n)[k - 1]);
    }
}

/// States with different indices have different labels.
pub proof fn lemma_node_labels_differ(a: Node, b: Node)
    requires
        a.index is Some,
        b.index is Some,
        a.index != b.index,
    ensures
        spec_node_label(a) != spec_node_label(b),
{
    lemma_node_label_reads_back(a);
    lemma_node_label_reads_back(b);
}

/// An event that is neither a press nor a release of the left button changes
/// nothing: a drag in progress goes on, and the canvas is asked for nothing.
pub proof fn lemma_other_event_changes_nothing(
    interaction: Interaction,
    node_count: nat,
    edge_count: nat,
)
    ensures
        interaction_after(interaction, EditorEvent::Other, node_count) == interaction,
        action_for(interaction, EditorEvent::Other, node_count, edge_count) is None,
{
}


/// Applying a message only ever appends: the states and transitions that were
/// there stay, in place. `AddNode` appends exactly one state, numbered after
/// the existing ones, accepting only when it is the first, never initial, and
/// leaves the transitions alone. `AddCon` leaves the states alone and appends
/// exactly the transition it names when both of its states exist, and nothing
/// otherwise.
pub proof fn lemma_update_only_appends(nodes: Seq<Node>, edges: Seq<Connection>, message: Message)
    ensures
        ({
            let new_nodes = nodes_after(nodes, message);
            let new_edges = edges_after(nodes, edges, message);
            &&& forall|i: int| 0 <= i < nodes.len() ==> #[trigger] new_nodes[i] == nodes[i]
            &&& forall|k: int| 0 <= k < edges.len() ==> #[trigger] new_edges[k] == edges[k]
            &&& match message {
                Message::AddNode => {
                    &&& new_nodes.len() == nodes.len() + 1
                    &&& new_nodes[nodes.len() as int].index == Some(nodes.len() as usize)
                    &&& new_nodes[nodes.len() as int].is_accepting == (nodes.len() == 0)
                    &&& !new_nodes[nodes.len() as int].is_initial
                    &&& new_edges == edges
                },
                Message::AddCon { start, end, symbol } => {
                    &&& new_nodes == nodes
                    &&& if start < nodes.len() && end < nodes.len() {
                        &&& new_edges.len() == edges.len() + 1
                        &&& new_edges[edges.len() as int].start == start
                        &&& new_edges[edges.len() as int].end == end
                        &&& new_edges[edges.len() as int].symbol == symbol
                    } else {
                        new_edges == edges
                    }
                },
            }
        }),
{
}

} // verus!
