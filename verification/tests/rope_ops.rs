use rtdriver::rope::{Rope, RopeMut};

#[test]
fn test_rope_simple() {
    let data = vec![0, 1, 2, 3, 4, 5, 6, 7, 8, 9];
    let rope = Rope::new(vec![data]);

    assert_eq!(rope.len(), 10);
    assert!(!rope.is_empty());
    for k in 0..10usize {
        assert_eq!(*rope.get(k), k);
    }
    assert_eq!(rope.to_vec(), vec![0, 1, 2, 3, 4, 5, 6, 7, 8, 9]);
}

#[test]
fn empty_rope() {
    let rope = Rope::<u8>::new(Vec::new());
    assert_eq!(rope.len(), 0);
    assert!(rope.is_empty());

    let with_empty_segments = Rope::<u8>::new(vec![Vec::new(), Vec::new()]);
    assert_eq!(with_empty_segments.len(), 0);
    assert!(with_empty_segments.is_empty());
}

#[test]
fn indexing_crosses_segments() {
    let rope = Rope::new(vec![vec![10, 11], vec![], vec![12], vec![13, 14, 15]]);
    assert_eq!(rope.len(), 6);
    assert_eq!(
        (0..6).map(|k| *rope.get(k)).collect::<Vec<_>>(),
        vec![10, 11, 12, 13, 14, 15]
    );
}

#[test]
fn merge_concatenates() {
    let a = Rope::new(vec![vec![1, 2], vec![3]]);
    let b = Rope::new(vec![vec![4], vec![5, 6]]);
    let b_copy = Rope::new(vec![vec![4], vec![5, 6]]);

    let merged = a.merge(b);
    // length of the merge is the sum of the lengths
    assert_eq!(merged.len(), 3 + 3);
    // element len(a) + k of the merge is element k of b
    for k in 0..3usize {
        assert_eq!(*merged.get(3 + k), *b_copy.get(k));
    }
}

#[test]
fn scatter_gather_round_trip() {
    let mut rope = RopeMut::new(vec![vec![0i64, 0], vec![0], vec![0, 0, 0]]);
    let flat = [7i64, -3, 5, 11, 0, -9];
    rope.copy_from_slice(&flat);
    assert_eq!(rope.to_vec(), flat.to_vec());
}

#[test]
fn clone_scatter_round_trip() {
    let mut rope = RopeMut::new(vec![
        vec![String::new(), String::new()],
        vec![String::new()],
    ]);
    let flat = [String::from("a"), String::from("b"), String::from("c")];
    rope.clone_from_slice(&flat);
    let frozen = rope.into_rope();
    assert_eq!(frozen.len(), 3);
    assert_eq!(*frozen.get(0), "a");
    assert_eq!(*frozen.get(1), "b");
    assert_eq!(*frozen.get(2), "c");
}

#[test]
fn indexed_writes() {
    let mut rope = RopeMut::new(vec![vec![0u8, 0], vec![0, 0]]);
    rope.set(0, 9);
    rope.set(3, 4);
    assert_eq!(rope.to_vec(), vec![9, 0, 0, 4]);
    assert_eq!(rope.len(), 4);

    let merged = RopeMut::new(vec![vec![1u8]]).merge(rope);
    assert_eq!(merged.to_vec(), vec![1, 9, 0, 0, 4]);
}
