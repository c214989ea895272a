use langviewer::graphics::connection::Connection;
use langviewer::graphics::dfa_mode::{
    leading_digit, node_label, DfaInstance, DfaWindow, EditorAction, EditorEvent, Interaction,
    Message, Node, NODE_SIZE, NODE_TEXT_MAXWIDTH,
};
use langviewer::graphics::{EditorMode, GraphicsInstance, Message as AppMessage};

fn node(index: Option<usize>) -> Node {
    Node { index, is_accepting: false, is_initial: false }
}

fn window() -> DfaWindow {
    DfaWindow { dfa: DfaInstance::default() }
}

fn window_with_states(n: usize) -> DfaWindow {
    let mut w = window();
    for _ in 0..n {
        w.dfa.update(Message::AddNode);
    }
    w
}

#[test]
fn sizes() {
    assert_eq!(NODE_SIZE, 2 << 4);
    assert_eq!(NODE_TEXT_MAXWIDTH, NODE_SIZE);
}

#[test]
fn defaults() {
    assert_eq!(Node::default(), node(None));
    assert_eq!(Interaction::default(), Interaction::Idle);
    let d = DfaInstance::default();
    assert!(d.nodes.is_empty());
    assert!(d.edges.is_empty());
}

#[test]
fn node_label_writes_index() {
    assert_eq!(node_label(&node(Some(0))), "S0");
    assert_eq!(node_label(&node(Some(7))), "S7");
    assert_eq!(node_label(&node(Some(12))), "S12");
    assert_eq!(node_label(&node(Some(105))), "S105");
    assert_eq!(node_label(&node(None)), "S0");
}

#[test]
fn leading_digit_is_first_decimal_digit() {
    assert_eq!(leading_digit(0), '0');
    assert_eq!(leading_digit(7), '7');
    assert_eq!(leading_digit(10), '1');
    assert_eq!(leading_digit(987), '9');
    assert_eq!(leading_digit(usize::MAX), usize::MAX.to_string().chars().next().unwrap());
}

#[test]
fn add_node_numbers_states_in_order() {
    let mut d = DfaInstance::default();
    d.update(Message::AddNode);
    d.update(Message::AddNode);
    d.update(Message::AddNode);
    assert_eq!(d.nodes.len(), 3);
    for (i, n) in d.nodes.iter().enumerate() {
        assert_eq!(n.index, Some(i));
        assert_eq!(n.is_accepting, i == 0);
        assert!(!n.is_initial);
    }
    assert!(d.edges.is_empty());
}

#[test]
fn add_con_appends_transition_between_existing_states() {
    let mut d = DfaInstance::default();
    d.update(Message::AddNode);
    d.update(Message::AddNode);
    d.update(Message::AddCon { start: 1, end: 0, symbol: 'a' });
    d.update(Message::AddCon { start: 0, end: 0, symbol: 'b' });
    assert_eq!(d.edges, vec![Connection::new(1, 0, 'a'), Connection::new(0, 0, 'b')]);
    assert_eq!(d.nodes.len(), 2);
}

#[test]
fn add_con_to_missing_state_is_ignored() {
    let mut d = DfaInstance::default();
    d.update(Message::AddCon { start: 0, end: 0, symbol: 'a' });
    assert!(d.edges.is_empty());
    d.update(Message::AddNode);
    d.update(Message::AddCon { start: 0, end: 1, symbol: 'a' });
    d.update(Message::AddCon { start: 3, end: 0, symbol: 'a' });
    assert!(d.edges.is_empty());
    assert_eq!(d.nodes.len(), 1);
}

#[test]
fn press_on_node_starts_drag() {
    let w = window_with_states(3);
    let mut i = Interaction::Idle;
    let r = w.update(&mut i, EditorEvent::LeftPressed { cursor_present: true, hit: Some(2), crowded: true });
    assert_eq!(r, Some(EditorAction::Redraw));
    assert_eq!(i, Interaction::AddCon { init: 2 });
}

#[test]
fn press_on_free_space_adds_node() {
    let w = window();
    let mut i = Interaction::AddCon { init: 4 };
    let r = w.update(&mut i, EditorEvent::LeftPressed { cursor_present: true, hit: None, crowded: false });
    assert_eq!(r, Some(EditorAction::Publish(Message::AddNode)));
    assert_eq!(i, Interaction::Idle);
}

#[test]
fn press_in_crowded_space_does_nothing() {
    let w = window();
    let mut i = Interaction::AddCon { init: 4 };
    let r = w.update(&mut i, EditorEvent::LeftPressed { cursor_present: true, hit: None, crowded: true });
    assert_eq!(r, None);
    assert_eq!(i, Interaction::AddCon { init: 4 });
}

#[test]
fn press_without_cursor_does_not_start_drag() {
    let w = window_with_states(1);
    let mut i = Interaction::Idle;
    let r = w.update(&mut i, EditorEvent::LeftPressed { cursor_present: false, hit: Some(0), crowded: false });
    assert_eq!(r, Some(EditorAction::Publish(Message::AddNode)));
    assert_eq!(i, Interaction::Idle);
}

#[test]
fn drag_between_states_adds_transition() {
    let mut w = window();
    w.dfa.update(Message::AddNode);
    w.dfa.update(Message::AddNode);
    let mut i = Interaction::Idle;
    w.update(&mut i, EditorEvent::LeftPressed { cursor_present: true, hit: Some(0), crowded: true });
    let r = w.update(&mut i, EditorEvent::LeftReleased { hit: Some(1) });
    let msg = Message::AddCon { start: 0, end: 1, symbol: '0' };
    assert_eq!(r, Some(EditorAction::Publish(msg)));
    assert_eq!(i, Interaction::Idle);
    w.dfa.update(msg);
    assert_eq!(w.dfa.edges, vec![Connection::new(0, 1, '0')]);
    // the next transition gets the symbol '1'
    w.update(&mut i, EditorEvent::LeftPressed { cursor_present: true, hit: Some(1), crowded: false });
    let r = w.update(&mut i, EditorEvent::LeftReleased { hit: Some(1) });
    assert_eq!(r, Some(EditorAction::Publish(Message::AddCon { start: 1, end: 1, symbol: '1' })));
}

#[test]
fn release_off_node_cancels_drag() {
    let w = window_with_states(2);
    let mut i = Interaction::AddCon { init: 1 };
    let r = w.update(&mut i, EditorEvent::LeftReleased { hit: None });
    assert_eq!(r, None);
    assert_eq!(i, Interaction::Idle);
}

#[test]
fn release_without_drag_does_nothing() {
    let w = window_with_states(2);
    let mut i = Interaction::Idle;
    let r = w.update(&mut i, EditorEvent::LeftReleased { hit: Some(1) });
    assert_eq!(r, None);
    assert_eq!(i, Interaction::Idle);
}

#[test]
fn other_events_change_nothing() {
    let w = window();
    let mut i = Interaction::AddCon { init: 3 };
    assert_eq!(w.update(&mut i, EditorEvent::Other), None);
    assert_eq!(i, Interaction::AddCon { init: 3 });
}

#[test]
fn new_instance_is_empty() {
    let g = GraphicsInstance::new();
    assert!(matches!(g.mode, EditorMode::Empty));
}

#[test]
fn dfa_message_ignored_without_editor() {
    let mut g = GraphicsInstance::new();
    g.update(AppMessage::DfaMessage(Message::AddNode));
    assert!(matches!(g.mode, EditorMode::Empty));
}

#[test]
fn dfa_mode_opens_empty_editor_and_forwards_messages() {
    let mut g = GraphicsInstance::new();
    g.update(AppMessage::DfaMode);
    g.update(AppMessage::DfaMessage(Message::AddNode));
    g.update(AppMessage::DfaMessage(Message::AddNode));
    g.update(AppMessage::DfaMessage(Message::AddCon { start: 0, end: 1, symbol: 'z' }));
    match &g.mode {
        EditorMode::Dfa { dfa_win } => {
            assert_eq!(dfa_win.dfa.nodes.len(), 2);
            assert_eq!(dfa_win.dfa.edges, vec![Connection::new(0, 1, 'z')]);
        }
        EditorMode::Empty => panic!("no editor"),
    }
    // entering DFA mode again starts over
    g.update(AppMessage::DfaMode);
    match &g.mode {
        EditorMode::Dfa { dfa_win } => {
            assert!(dfa_win.dfa.nodes.is_empty());
            assert!(dfa_win.dfa.edges.is_empty());
        }
        EditorMode::Empty => panic!("no editor"),
    }
}

#[test]
fn press_on_missing_state_is_no_hit() {
    let w = window();
    let mut i = Interaction::Idle;
    let r = w.update(&mut i, EditorEvent::LeftPressed { cursor_present: true, hit: Some(5), crowded: false });
    assert_eq!(r, Some(EditorAction::Publish(Message::AddNode)));
    assert_eq!(i, Interaction::Idle);
    let r = w.update(&mut i, EditorEvent::LeftPressed { cursor_present: true, hit: Some(5), crowded: true });
    assert_eq!(r, None);
    assert_eq!(i, Interaction::Idle);
}

#[test]
fn release_on_missing_state_cancels_drag() {
    let w = window_with_states(2);
    let mut i = Interaction::Idle;
    w.update(&mut i, EditorEvent::LeftPressed { cursor_present: true, hit: Some(1), crowded: false });
    assert_eq!(i, Interaction::AddCon { init: 1 });
    let r = w.update(&mut i, EditorEvent::LeftReleased { hit: Some(2) });
    assert_eq!(r, None);
    assert_eq!(i, Interaction::Idle);
}

#[test]
fn click_adds_state_whatever_the_transitions() {
    let mut w = window_with_states(2);
    for k in 0..12 {
        w.dfa.update(Message::AddCon { start: 0, end: 1, symbol: 'a' });
        let mut i = Interaction::Idle;
        let r = w.update(&mut i, EditorEvent::LeftPressed { cursor_present: true, hit: None, crowded: false });
        assert_eq!(r, Some(EditorAction::Publish(Message::AddNode)));
        assert_eq!(w.dfa.edges.len(), k + 1);
    }
}
