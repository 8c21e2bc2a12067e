use gpu_fluid::scan::{add_back, block_scan, blocked_exclusive_scan, exclusive_scan, BLOCK_SIZE};

fn sequential_starts(counts: &[u32]) -> Vec<u32> {
    let mut r = vec![0u32];
    for &c in counts {
        let last = *r.last().unwrap();
        r.push(last + c);
    }
    r
}

#[test]
fn block_scan_small() {
    let counts = vec![3u32, 1, 4, 1, 5];
    let (local, sums) = block_scan(&counts);
    assert_eq!(local, vec![0, 3, 4, 8, 9]);
    assert_eq!(sums, vec![14]);
}

#[test]
fn block_scan_restarts_each_block() {
    let counts = vec![1u32; 2 * BLOCK_SIZE + 3];
    let (local, sums) = block_scan(&counts);
    assert_eq!(local[0], 0);
    assert_eq!(local[BLOCK_SIZE - 1], (BLOCK_SIZE - 1) as u32);
    assert_eq!(local[BLOCK_SIZE], 0);
    assert_eq!(local[2 * BLOCK_SIZE + 2], 2);
    assert_eq!(sums, vec![BLOCK_SIZE as u32, BLOCK_SIZE as u32, 3]);
}

#[test]
fn block_scan_empty() {
    let (local, sums) = block_scan(&Vec::new());
    assert!(local.is_empty());
    assert!(sums.is_empty());
}

#[test]
fn exclusive_scan_values() {
    assert_eq!(exclusive_scan(&vec![2, 0, 5, 1]), vec![0, 2, 2, 7]);
    assert!(exclusive_scan(&Vec::new()).is_empty());
}

#[test]
fn add_back_offsets_and_sentinel() {
    let mut starts = vec![0u32; BLOCK_SIZE + 2];
    starts[BLOCK_SIZE + 1] = 4;
    add_back(&mut starts, &vec![10, 20], 99);
    assert_eq!(starts.len(), BLOCK_SIZE + 3);
    assert_eq!(starts[0], 10);
    assert_eq!(starts[BLOCK_SIZE - 1], 10);
    assert_eq!(starts[BLOCK_SIZE], 20);
    assert_eq!(starts[BLOCK_SIZE + 1], 24);
    assert_eq!(starts[BLOCK_SIZE + 2], 99);
}

#[test]
fn blocked_scan_matches_sequential_scan() {
    let counts: Vec<u32> = (0..600u32).map(|i| i % 7).collect();
    let starts = blocked_exclusive_scan(&counts);
    assert_eq!(starts, sequential_starts(&counts));
    assert_eq!(*starts.last().unwrap(), counts.iter().sum::<u32>());
}

#[test]
fn blocked_scan_exact_block_multiple() {
    let counts = vec![2u32; 2 * BLOCK_SIZE];
    let starts = blocked_exclusive_scan(&counts);
    assert_eq!(starts.len(), 2 * BLOCK_SIZE + 1);
    assert_eq!(starts[BLOCK_SIZE], 2 * BLOCK_SIZE as u32);
    assert_eq!(starts[2 * BLOCK_SIZE], 4 * BLOCK_SIZE as u32);
}

#[test]
fn blocked_scan_no_cells() {
    assert_eq!(blocked_exclusive_scan(&Vec::new()), vec![0]);
}
