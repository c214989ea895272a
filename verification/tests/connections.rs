use langviewer::graphics::connection::{
    connection_label, doubled_edge_rank, parallel_indices, would_duplicate_symbol, Connection,
};

fn conn(start: usize, end: usize, symbol: char) -> Connection {
    Connection::new(start, end, symbol)
}

#[test]
fn new_keeps_its_fields() {
    let c = Connection::new(2, 5, 'x');
    assert_eq!(c.start, 2);
    assert_eq!(c.end, 5);
    assert_eq!(c.symbol, 'x');
}

#[test]
fn equality_compares_states_and_symbol() {
    assert_eq!(conn(0, 1, 'a'), conn(0, 1, 'a'));
    assert_ne!(conn(0, 1, 'a'), conn(1, 0, 'a'));
    assert_ne!(conn(0, 1, 'a'), conn(0, 1, 'b'));
}

#[test]
fn has_endpoint_checks_both_ends() {
    let c = conn(3, 7, 'a');
    assert!(c.has_endpoint(3));
    assert!(c.has_endpoint(7));
    assert!(!c.has_endpoint(4));
}

#[test]
fn duplicate_symbol_found_in_same_direction() {
    let conns = vec![conn(0, 1, 'a'), conn(0, 1, 'b'), conn(1, 0, 'c')];
    assert!(would_duplicate_symbol(&conns, 1, 'a'));
    assert!(!would_duplicate_symbol(&conns, 1, 'd'));
}

#[test]
fn duplicate_symbol_ignores_opposite_direction() {
    let conns = vec![conn(0, 1, 'a'), conn(1, 0, 'c')];
    assert!(!would_duplicate_symbol(&conns, 0, 'c'));
    assert!(!would_duplicate_symbol(&conns, 1, 'a'));
}

#[test]
fn duplicate_symbol_ignores_the_transition_itself() {
    let conns = vec![conn(0, 1, 'a'), conn(2, 1, 'a')];
    assert!(!would_duplicate_symbol(&conns, 0, 'a'));
}

#[test]
fn duplicate_symbol_out_of_range_index_is_false() {
    let conns = vec![conn(0, 1, 'a'), conn(0, 1, 'a')];
    assert!(!would_duplicate_symbol(&conns, 2, 'a'));
    let empty: Vec<Connection> = Vec::new();
    assert!(!would_duplicate_symbol(&empty, 0, 'a'));
}

#[test]
fn duplicate_of_own_symbol_means_an_equal_transition() {
    let conns = vec![conn(0, 1, 'a'), conn(1, 2, 'b'), conn(0, 1, 'a')];
    assert!(would_duplicate_symbol(&conns, 0, conns[0].symbol));
    assert_eq!(conns[0], conns[2]);
    assert!(!would_duplicate_symbol(&conns, 1, conns[1].symbol));
}

#[test]
fn parallel_indices_gathers_both_directions_in_order() {
    let conns = vec![
        conn(0, 1, 'a'),
        conn(1, 2, 'b'),
        conn(1, 0, 'c'),
        conn(0, 1, 'd'),
        conn(2, 2, 'e'),
    ];
    assert_eq!(parallel_indices(&conns, 0), vec![0, 2, 3]);
    assert_eq!(parallel_indices(&conns, 2), vec![0, 2, 3]);
    assert_eq!(parallel_indices(&conns, 1), vec![1]);
    assert_eq!(parallel_indices(&conns, 4), vec![4]);
}

#[test]
fn parallel_groups_agree_between_members() {
    let conns = vec![conn(4, 5, 'a'), conn(5, 4, 'b'), conn(4, 6, 'c')];
    let g0 = parallel_indices(&conns, 0);
    for &j in &g0 {
        assert_eq!(parallel_indices(&conns, j), g0);
    }
    assert!(parallel_indices(&conns, 2).contains(&2));
}

#[test]
fn doubled_edge_rank_spreads_the_group_evenly() {
    let group = vec![3, 5, 7];
    assert_eq!(doubled_edge_rank(&group, 3), -2);
    assert_eq!(doubled_edge_rank(&group, 5), 0);
    assert_eq!(doubled_edge_rank(&group, 7), 2);
    let pair = vec![4, 9];
    assert_eq!(doubled_edge_rank(&pair, 4), -1);
    assert_eq!(doubled_edge_rank(&pair, 9), 1);
    assert_eq!(doubled_edge_rank(&[8], 8), 0);
}

#[test]
fn doubled_edge_rank_is_symmetric() {
    let group = vec![1, 2, 6, 10, 11];
    for k in 0..group.len() {
        let a = doubled_edge_rank(&group, group[k]);
        let b = doubled_edge_rank(&group, group[group.len() - 1 - k]);
        assert_eq!(a + b, 0);
    }
}

#[test]
fn doubled_edge_rank_uses_first_position() {
    assert_eq!(doubled_edge_rank(&[2, 2, 3], 2), -2);
}

#[test]
fn connection_label_shows_the_symbol() {
    assert_eq!(connection_label(&conn(0, 1, 'a')), "a");
    assert_eq!(connection_label(&conn(0, 1, '7')), "7");
    assert_eq!(connection_label(&conn(0, 1, 'é')), "é");
}

#[test]
fn connection_label_is_empty_without_symbol() {
    assert_eq!(connection_label(&conn(0, 1, '\0')), "");
}

#[test]
fn equality_is_an_equivalence() {
    let a = conn(1, 2, 'a');
    let b = conn(1, 2, 'a');
    let c = Connection::new(1, 2, 'a');
    assert_eq!(a, a);
    assert_eq!(a == b, b == a);
    assert!(a == b && b == c && a == c);
    let d = conn(2, 1, 'a');
    assert_eq!(a == d, d == a);
    assert!(a != d);
}
