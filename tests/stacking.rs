use rustboard::zorder::bring_shape_forward;
use rustboard::zorder::bring_shape_to_front;
use rustboard::zorder::max_z_index;
use rustboard::zorder::normalize_z_indices;
use rustboard::zorder::send_shape_backward;
use rustboard::zorder::send_shape_to_back;
use rustboard::zorder::shape_z_index;
use rustboard::zorder::Layer;

fn layers(zs: &[(u64, i32)]) -> Vec<Layer> {
    zs.iter().map(|&(id, z)| Layer { id, z }).collect()
}

fn zs(ls: &[Layer]) -> Vec<(u64, i32)> {
    ls.iter().map(|l| (l.id, l.z)).collect()
}

#[test]
fn lookup_and_maximum() {
    let ls = layers(&[(1, 3), (2, 7), (3, -2)]);
    assert_eq!(shape_z_index(&ls, 2), Some(7));
    assert_eq!(shape_z_index(&ls, 9), None);
    assert_eq!(max_z_index(&ls), 7);
    assert_eq!(max_z_index(&layers(&[(1, -5)])), 0);
    assert_eq!(max_z_index(&[].to_vec()), 0);
}

#[test]
fn bring_to_front_goes_above_the_maximum() {
    let mut ls = layers(&[(1, 0), (2, 1), (3, 2)]);
    bring_shape_to_front(&mut ls, 1);
    assert_eq!(zs(&ls), vec![(1, 3), (2, 1), (3, 2)]);
    bring_shape_to_front(&mut ls, 42);
    assert_eq!(zs(&ls), vec![(1, 3), (2, 1), (3, 2)]);
}

#[test]
fn bring_forward_swaps_with_the_next_shape_up() {
    let mut ls = layers(&[(1, 0), (2, 1), (3, 2)]);
    bring_shape_forward(&mut ls, 1);
    assert_eq!(zs(&ls), vec![(1, 1), (2, 0), (3, 2)]);
    bring_shape_forward(&mut ls, 3);
    assert_eq!(zs(&ls), vec![(1, 1), (2, 0), (3, 2)]);
    let mut gaps = layers(&[(1, 0), (2, 5), (3, 9)]);
    bring_shape_forward(&mut gaps, 1);
    assert_eq!(zs(&gaps), vec![(1, 5), (2, 0), (3, 9)]);
}

#[test]
fn send_backward_swaps_with_the_next_shape_down() {
    let mut ls = layers(&[(1, 0), (2, 1), (3, 2)]);
    send_shape_backward(&mut ls, 3);
    assert_eq!(zs(&ls), vec![(1, 0), (2, 2), (3, 1)]);
    send_shape_backward(&mut ls, 1);
    assert_eq!(zs(&ls), vec![(1, 0), (2, 2), (3, 1)]);
}

#[test]
fn send_to_back_shifts_the_shapes_below() {
    let mut ls = layers(&[(1, 0), (2, 1), (3, 2)]);
    send_shape_to_back(&mut ls, 3);
    assert_eq!(zs(&ls), vec![(1, 1), (2, 2), (3, 0)]);
    send_shape_to_back(&mut ls, 3);
    assert_eq!(zs(&ls), vec![(1, 1), (2, 2), (3, 0)]);
}

#[test]
fn normalizing_gives_dense_indices_in_order() {
    let mut ls = layers(&[(1, 10), (2, -4), (3, 10), (4, 3)]);
    normalize_z_indices(&mut ls);
    assert_eq!(zs(&ls), vec![(1, 2), (2, 0), (3, 3), (4, 1)]);
    let mut empty: Vec<Layer> = Vec::new();
    normalize_z_indices(&mut empty);
    assert!(empty.is_empty());
}

#[test]
fn normalizing_twice_changes_nothing() {
    let mut ls = layers(&[(1, 5), (2, 5), (3, -1), (4, 100)]);
    normalize_z_indices(&mut ls);
    let once = zs(&ls);
    normalize_z_indices(&mut ls);
    assert_eq!(zs(&ls), once);
    assert_eq!(once, vec![(1, 1), (2, 2), (3, 0), (4, 3)]);
}
