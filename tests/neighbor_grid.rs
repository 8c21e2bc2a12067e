use gpu_fluid::cell::Cell;
use gpu_fluid::cell_map::build_cell_map;
use gpu_fluid::csr::{build_compressed_grid, cell_indices, histogram, scatter};
use gpu_fluid::lattice::lattice_indices;
use gpu_fluid::params::grid_params;

fn cells_of(coords: &[(i32, i32)]) -> Vec<Cell> {
    coords.iter().map(|&(x, y)| Cell::new(x, y)).collect()
}

fn sample_cells() -> Vec<Cell> {
    cells_of(&[(0, 0), (1, 0), (0, 0), (2, 1), (1, 0)])
}

fn lattice_cells(n_x: usize, n_y: usize, spacing: f32, h: f32) -> Vec<Cell> {
    lattice_indices(n_x, n_y)
        .iter()
        .map(|&(ix, iy)| {
            let x = ix as f32 * spacing;
            let y = iy as f32 * spacing;
            Cell::new((x / h).floor() as i32, (y / h).floor() as i32)
        })
        .collect()
}

#[test]
fn init_grid_n() {
    let spacing = 0.12f32;
    let lattice = lattice_indices(10, 5);
    assert_eq!(lattice.len(), 50);
    let pos = |k: usize| {
        let (ix, iy) = lattice[k];
        (ix as f32 * spacing, iy as f32 * spacing)
    };
    assert_eq!(pos(0), (0.0, 0.0));
    assert_eq!(pos(1), (0.12, 0.0));
    assert_eq!(pos(10), (0.0, 0.12));
}

#[test]
fn grid_contains_all_particles() {
    let h = 0.045;
    let spacing = 0.08;
    let cells = lattice_cells(4, 3, spacing, h);
    let grid = build_cell_map(&cells);
    let amount: usize = grid.lists.iter().map(Vec::len).sum();
    assert_eq!(amount, cells.len());
}

#[test]
fn lattice_indices_row_by_row() {
    let r = lattice_indices(3, 2);
    assert_eq!(r, vec![(0, 0), (1, 0), (2, 0), (0, 1), (1, 1), (2, 1)]);
    assert!(lattice_indices(0, 4).is_empty());
    assert!(lattice_indices(4, 0).is_empty());
}

#[test]
fn grid_params_cover_bounding_box() {
    let p = grid_params(&sample_cells()).unwrap();
    assert_eq!(p.min_cell, Cell::new(0, 0));
    assert_eq!((p.nx, p.ny), (3, 2));
    assert_eq!(p.num_cells(), 6);

    let q = grid_params(&cells_of(&[(-3, 7), (-1, 5)])).unwrap();
    assert_eq!(q.min_cell, Cell::new(-3, 5));
    assert_eq!((q.nx, q.ny), (3, 3));
    assert_eq!(q.cell_index(Cell::new(-1, 7)), 2 + 2 * 3);

    let e = grid_params(&Vec::new()).unwrap();
    assert_eq!((e.nx, e.ny), (0, 0));
}

#[test]
fn grid_too_large_is_refused() {
    let cells = cells_of(&[(i32::MIN, i32::MIN), (i32::MAX, i32::MAX)]);
    assert!(grid_params(&cells).is_none());
    assert!(build_compressed_grid(&cells).is_none());
}

#[test]
fn histogram_counts_each_cell() {
    let cells = sample_cells();
    let p = grid_params(&cells).unwrap();
    let ids = cell_indices(&p, &cells);
    assert_eq!(ids, vec![0, 1, 0, 5, 1]);
    assert_eq!(histogram(&ids, 6), vec![2, 2, 0, 0, 0, 1]);
}

#[test]
fn scatter_groups_by_cell_in_index_order() {
    let ids = vec![0usize, 1, 0, 5, 1];
    let starts = vec![0u32, 2, 4, 4, 4, 4, 5];
    assert_eq!(scatter(&ids, &starts, 6), vec![0, 2, 1, 4, 3]);
}

#[test]
fn compressed_grid_exact_layout() {
    let g = build_compressed_grid(&sample_cells()).unwrap();
    assert_eq!(g.num_cells(), 6);
    assert_eq!(g.starts, vec![0, 2, 4, 4, 4, 4, 5]);
    assert_eq!(g.entries, vec![0, 2, 1, 4, 3]);
}

#[test]
fn compressed_grid_empty_input() {
    let g = build_compressed_grid(&Vec::new()).unwrap();
    assert_eq!(g.num_cells(), 0);
    assert_eq!(g.starts, vec![0]);
    assert!(g.entries.is_empty());
    assert!(g.neighbor_candidates(Cell::new(0, 0)).is_empty());
}

#[test]
fn compressed_grid_counts_sum_to_particles() {
    let cells = lattice_cells(10, 10, 0.04, 0.045);
    let g = build_compressed_grid(&cells).unwrap();
    let n = g.num_cells();
    assert_eq!(g.starts.len(), n + 1);
    assert_eq!(g.entries.len(), cells.len());
    assert_eq!(g.starts[n] as usize, cells.len());
    let total: u32 = (0..n).map(|c| g.starts[c + 1] - g.starts[c]).sum();
    assert_eq!(total as usize, cells.len());
    let mut seen = g.entries.clone();
    seen.sort();
    assert_eq!(seen, (0..cells.len() as u32).collect::<Vec<_>>());
    for c in 0..n {
        for k in g.starts[c]..g.starts[c + 1] {
            let j = g.entries[k as usize] as usize;
            assert_eq!(g.params.cell_index(cells[j]), c);
        }
    }
}

#[test]
fn rebuild_is_deterministic() {
    let cells = lattice_cells(12, 7, 0.03, 0.045);
    let a = build_compressed_grid(&cells).unwrap();
    let b = build_compressed_grid(&cells).unwrap();
    assert_eq!(a.params, b.params);
    assert_eq!(a.starts, b.starts);
    assert_eq!(a.entries, b.entries);
    let m1 = build_cell_map(&cells);
    let m2 = build_cell_map(&cells);
    assert_eq!(m1.occupied, m2.occupied);
    assert_eq!(m1.lists, m2.lists);
}

#[test]
fn cell_map_lists_by_first_appearance() {
    let m = build_cell_map(&sample_cells());
    assert_eq!(m.occupied, cells_of(&[(0, 0), (1, 0), (2, 1)]));
    assert_eq!(m.lists, vec![vec![0, 2], vec![1, 4], vec![3]]);
    assert_eq!(m.get(Cell::new(1, 0)), Some(&vec![1, 4]));
    assert_eq!(m.get(Cell::new(1, 1)), None);
    assert_eq!(m.get(Cell::new(-7, 40)), None);
}

#[test]
fn neighbor_candidates_three_by_three() {
    let cells = sample_cells();
    let g = build_compressed_grid(&cells).unwrap();
    let m = build_cell_map(&cells);
    assert_eq!(g.neighbor_candidates(Cell::new(0, 0)), vec![0, 2, 1, 4]);
    assert_eq!(m.neighbor_candidates(Cell::new(0, 0)), vec![0, 2, 1, 4]);
    assert_eq!(g.neighbor_candidates(Cell::new(1, 1)), vec![0, 2, 1, 4, 3]);
    assert_eq!(m.neighbor_candidates(Cell::new(1, 1)), vec![0, 2, 1, 4, 3]);
    assert_eq!(g.neighbor_candidates(Cell::new(3, 2)), vec![3]);
    assert!(g.neighbor_candidates(Cell::new(9, 9)).is_empty());
    assert!(m.neighbor_candidates(Cell::new(9, 9)).is_empty());
}

#[test]
fn neighbor_candidates_at_coordinate_limits() {
    let cells = cells_of(&[(i32::MAX, 0), (i32::MAX - 1, 1)]);
    let m = build_cell_map(&cells);
    let g = build_compressed_grid(&cells).unwrap();
    assert_eq!(m.neighbor_candidates(Cell::new(i32::MAX, 0)), vec![1, 0]);
    assert_eq!(g.neighbor_candidates(Cell::new(i32::MAX, 0)), vec![1, 0]);
}

#[test]
fn builders_agree_on_lattice() {
    let cells = lattice_cells(71, 71, 0.04, 0.045);
    let g = build_compressed_grid(&cells).unwrap();
    let m = build_cell_map(&cells);
    for (s, c) in m.occupied.iter().enumerate() {
        let id = g.params.cell_index(*c);
        let lo = g.starts[id] as usize;
        let hi = g.starts[id + 1] as usize;
        let slice: Vec<usize> = g.entries[lo..hi].iter().map(|&e| e as usize).collect();
        assert_eq!(slice, m.lists[s]);
    }
    for c in [cells[0], cells[100], cells[5040]] {
        assert_eq!(g.neighbor_candidates(c), m.neighbor_candidates(c));
    }
}
