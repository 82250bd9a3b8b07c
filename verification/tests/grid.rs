use ymir_nodes::field::Layer;
use ymir_nodes::grid::Grid;
use ymir_nodes::shaping::{spans, value_or};

#[test]
fn neighbours_are_mutual_and_only_the_rim_lacks_some() {
    let grid = Grid { width: 4, height: 3 };
    for c in 0..grid.len() {
        let around: Vec<usize> = (0..8).filter_map(|k| grid.neighbour(c, k)).collect();
        assert_eq!(around.len() == 8, !grid.is_boundary(c), "cell {c}");
        for n in around {
            assert!((0..8).any(|k| grid.neighbour(n, k) == Some(c)), "{c} and {n}");
        }
    }
    assert_eq!(Grid { width: 1, height: 1 }.neighbour(0, 0), None);
}

#[test]
fn differences_are_one_sided_at_the_rim() {
    let h = Layer::from_fn(3, 2, &|x: usize, y: usize| (10 * y + x) as i32);
    let (dx, dy) = spans(&h, 3, 2, 1, 0, 0);
    assert_eq!((dx.before, dx.after, dx.cells), (0, 2, 2));
    assert_eq!((dy.before, dy.after, dy.cells), (1, 11, 1));
    let (dx, dy) = spans(&h, 3, 2, 2, 1, 0);
    assert_eq!((dx.before, dx.after, dx.cells), (11, 12, 1));
    assert_eq!((dy.before, dy.after, dy.cells), (2, 12, 1));
    let one = Layer::filled(1, 1, 5);
    let (dx, _) = spans(&one, 1, 1, 0, 0, 0);
    assert_eq!(dx.cells, 0);
}

#[test]
fn a_layer_reads_its_default_outside() {
    let h = Layer::filled(2, 2, 7);
    assert_eq!(value_or(&h, 1, 1, 0), 7);
    assert_eq!(value_or(&h, 2, 1, 0), 0);
    assert_eq!(h.get(0, 2), None);
}
