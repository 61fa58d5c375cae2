use laser_cutter::svg_paths::{DrawnPath, PathBuilder};

#[test]
fn connected_moves_in_one_style_form_one_path() {
    let mut b = PathBuilder::new();
    b.draw_line(0, 1, 0);
    b.draw_line(1, 2, 0);
    b.close_last();
    assert_eq!(b.closed, vec![DrawnPath { points: vec![0, 1, 2], style: 0 }]);
    assert!(b.open.is_none());
}

#[test]
fn a_new_style_closes_the_path() {
    let mut b = PathBuilder::new();
    b.draw_line(0, 1, 0);
    b.draw_line(1, 2, 1);
    assert_eq!(b.closed, vec![DrawnPath { points: vec![0, 1], style: 0 }]);
    b.close_last();
    assert_eq!(b.closed[1], DrawnPath { points: vec![1, 2], style: 1 });
}

#[test]
fn an_extended_path_keeps_the_point_it_continues_from() {
    // The open path continues only from 1, the end of its first move: a move
    // from 2, where the second move ended, starts a new path, and a move from 1
    // extends the open one.
    let mut b = PathBuilder::new();
    b.draw_line(0, 1, 0);
    b.draw_line(1, 2, 0);
    b.draw_line(1, 3, 0);
    b.draw_line(3, 4, 0);
    b.close_last();
    assert_eq!(
        b.closed,
        vec![DrawnPath { points: vec![0, 1, 2, 3], style: 0 }, DrawnPath { points: vec![3, 4], style: 0 }]
    );
}

#[test]
fn closing_nothing_changes_nothing() {
    let mut b = PathBuilder::new();
    b.close_last();
    assert!(b.closed.is_empty());
    assert!(b.open.is_none());
}
