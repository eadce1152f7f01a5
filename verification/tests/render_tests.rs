use raytracer::render::{assemble_tiles, plan_fits, plan_render, tile_bounds, RenderPlan, Tile, TileBounds};

#[test]
fn plan_for_full_image() {
    let plan = plan_render(20, 10, 0, 10, 4);
    assert_eq!(
        plan,
        RenderPlan { total_rows: 10, tile_rows: 2, tile_cols: 3, total_tiles: 6, threads: 4 }
    );
    assert!(plan_fits(&plan, 0, 10));
}

#[test]
fn plan_limits_threads() {
    assert_eq!(plan_render(80, 100, 0, 3, 16).threads, 3);
    assert_eq!(plan_render(8, 100, 0, 3, 16).threads, 1);
    assert_eq!(plan_render(8, 8, 0, 8, 16).threads, 1);
    assert_eq!(plan_render(8, 8, 0, 8, 0).threads, 1);
}

#[test]
fn plan_clips_request_to_image() {
    let plan = plan_render(16, 10, 4, 30, 2);
    assert_eq!(plan.total_rows, 6);
    assert_eq!(plan.tile_rows, 1);
    assert!(!plan_fits(&plan, 4, 30));
    let empty = plan_render(16, 10, 12, 30, 2);
    assert_eq!(empty.total_rows, 0);
    assert_eq!(empty.total_tiles, 1);
    let inverted = plan_render(16, 10, 5, 2, 2);
    assert_eq!(inverted.total_rows, 0);
}

#[test]
fn plan_zero_width_has_one_tile() {
    let plan = plan_render(0, 10, 0, 10, 2);
    assert_eq!(plan.tile_cols, 0);
    assert_eq!(plan.total_tiles, 1);
}

#[test]
fn tile_bounds_row_major() {
    assert_eq!(
        tile_bounds(4, 3, 5, 25, 0, 20),
        TileBounds { row_start: 13, row_end: 21, col_start: 8, col_end: 16 }
    );
    assert_eq!(
        tile_bounds(5, 3, 5, 15, 0, 20),
        TileBounds { row_start: 13, row_end: 15, col_start: 16, col_end: 20 }
    );
}

#[test]
fn tiles_cover_every_pixel_once() {
    let (width, height, start, end) = (19usize, 30usize, 3usize, 21usize);
    let plan = plan_render(width, height, start, end, 8);
    let mut seen = vec![vec![0u32; width]; plan.total_rows];
    for k in 0..plan.total_tiles {
        let b = tile_bounds(k, plan.tile_cols, start, end, 0, width);
        for r in b.row_start..b.row_end {
            for c in b.col_start..b.col_end {
                seen[r - start][c] += 1;
            }
        }
    }
    assert!(seen.iter().all(|row| row.iter().all(|&n| n == 1)));
}

#[test]
fn assemble_places_tiles() {
    let (width, start, end) = (10usize, 2usize, 12usize);
    let plan = plan_render(width, 100, start, end, 3);
    let mut tiles = Vec::new();
    for k in 0..plan.total_tiles {
        let b = tile_bounds(k, plan.tile_cols, start, end, 0, width);
        let data: Vec<Vec<(usize, usize)>> = (b.row_start..b.row_end)
            .map(|r| (b.col_start..b.col_end).map(|c| (r, c)).collect())
            .collect();
        tiles.push(Tile { start_row: b.row_start, start_col: b.col_start, data });
    }
    let image = assemble_tiles(&tiles, start, plan.total_rows, width, (0, 0));
    assert_eq!(image.len(), 10);
    for (y, row) in image.iter().enumerate() {
        assert_eq!(row.len(), width);
        for (x, &p) in row.iter().enumerate() {
            assert_eq!(p, (start + y, x));
        }
    }
}

#[test]
fn assemble_keeps_fill_and_later_tiles_win() {
    let tiles = vec![
        Tile { start_row: 1, start_col: 0, data: vec![vec![5u8, 5]] },
        Tile { start_row: 1, start_col: 1, data: vec![vec![9u8]] },
    ];
    let image = assemble_tiles(&tiles, 1, 2, 3, 0u8);
    assert_eq!(image, vec![vec![5, 9, 0], vec![0, 0, 0]]);
}
