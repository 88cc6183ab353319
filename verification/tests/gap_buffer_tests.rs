use kyute::gap_buffer::GapBuffer;

fn contents(g: &GapBuffer<u32>) -> Vec<u32> {
    g.iter(0..g.len()).into_iter().copied().collect()
}

#[test]
fn new_buffer_is_empty() {
    let g: GapBuffer<u32> = GapBuffer::new();
    assert_eq!(g.len(), 0);
    assert!(contents(&g).is_empty());
}

#[test]
fn inserts_at_positions() {
    let mut g = GapBuffer::new();
    g.insert(0, 1);
    g.insert(1, 3);
    g.insert(1, 2);
    g.insert(0, 0);
    assert_eq!(contents(&g), vec![0, 1, 2, 3]);
    assert_eq!(*g.index(2), 2);
}

#[test]
fn matches_vec_under_random_edits() {
    let mut g = GapBuffer::new();
    let mut v: Vec<u32> = Vec::new();
    let mut seed = 12345u64;
    for step in 0..2000u32 {
        seed = seed.wrapping_mul(6364136223846793005).wrapping_add(1442695040888963407);
        let r = (seed >> 33) as usize;
        if v.is_empty() || r % 3 != 0 {
            let pos = r % (v.len() + 1);
            g.insert(pos, step);
            v.insert(pos, step);
        } else {
            let pos = r % v.len();
            assert_eq!(g.remove(pos), v.remove(pos));
        }
        assert_eq!(g.len(), v.len());
    }
    assert_eq!(contents(&g), v);
}

#[test]
fn insert_then_remove_restores() {
    let mut g = GapBuffer::new();
    for i in 0..10 {
        g.insert(i, i as u32 * 10);
    }
    g.insert(4, 99);
    assert_eq!(g.remove(4), 99);
    assert_eq!(contents(&g), vec![0, 10, 20, 30, 40, 50, 60, 70, 80, 90]);
}

#[test]
fn set_replaces_an_element() {
    let mut g = GapBuffer::new();
    g.insert(0, 1);
    g.insert(1, 2);
    assert_eq!(g.set(1, 7), 2);
    assert_eq!(contents(&g), vec![1, 7]);
}

#[test]
fn iter_returns_a_range() {
    let mut g = GapBuffer::new();
    for i in 0..6 {
        g.insert(i, i as u32);
    }
    g.remove(0);
    let items: Vec<u32> = g.iter(1..4).into_iter().copied().collect();
    assert_eq!(items, vec![2, 3, 4]);
    assert!(g.iter(2..2).is_empty());
}

#[test]
fn works_with_owned_values() {
    let mut g: GapBuffer<String> = GapBuffer::new();
    g.insert(0, "b".to_string());
    g.insert(0, "a".to_string());
    g.insert(2, "c".to_string());
    assert_eq!(g.remove(1), "b");
    assert_eq!(g.index(1), "c");
}

#[test]
fn capacity_doubles_only_when_full() {
    // one slot, then two, then four: inserting five elements reallocates four times
    let mut g: GapBuffer<u32> = GapBuffer::new();
    for i in 0..5u32 {
        g.insert(0, i);
    }
    assert_eq!(contents(&g), vec![4, 3, 2, 1, 0]);
    assert_eq!(g.remove(4), 0);
    assert_eq!(g.len(), 4);
}
