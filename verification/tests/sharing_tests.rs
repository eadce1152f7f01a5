use raytracer::sharing::{client_rows, place_pixels, rows_per_worker, server_rows, RowRange};

#[test]
fn rows_per_worker_rounds_up() {
    assert_eq!(rows_per_worker(600, 2), 200);
    assert_eq!(rows_per_worker(601, 2), 201);
    assert_eq!(rows_per_worker(0, 3), 0);
    assert_eq!(rows_per_worker(5, 0), 5);
}

#[test]
fn client_and_server_rows() {
    let per = rows_per_worker(10, 3);
    assert_eq!(per, 3);
    assert_eq!(client_rows(0, per, 10), Some(RowRange { start: 0, end: 3 }));
    assert_eq!(client_rows(2, per, 10), Some(RowRange { start: 6, end: 9 }));
    assert_eq!(server_rows(3, per, 10), Some(RowRange { start: 9, end: 10 }));
}

#[test]
fn idle_workers_get_nothing() {
    let per = rows_per_worker(2, 4);
    assert_eq!(per, 1);
    assert_eq!(client_rows(3, per, 2), None);
    assert_eq!(server_rows(4, per, 2), None);
}

#[test]
fn every_row_has_one_worker() {
    for height in 0..40usize {
        for clients in 0..6usize {
            let per = rows_per_worker(height, clients);
            let mut owners = vec![0u32; height];
            for i in 0..clients {
                if let Some(r) = client_rows(i, per, height) {
                    for y in r.start..r.end {
                        owners[y] += 1;
                    }
                }
            }
            if let Some(r) = server_rows(clients, per, height) {
                for y in r.start..r.end {
                    owners[y] += 1;
                }
            }
            assert!(owners.iter().all(|&n| n == 1), "{height} {clients}");
        }
    }
}

#[test]
fn place_pixels_fills_rows_in_order() {
    let mut image = vec![vec![0u8; 3]; 4];
    place_pixels(&mut image, RowRange { start: 1, end: 3 }, 3, &vec![1, 2, 3, 4, 5]);
    assert_eq!(image, vec![vec![0, 0, 0], vec![1, 2, 3], vec![4, 5, 0], vec![0, 0, 0]]);
}

#[test]
fn place_pixels_drops_extra_pixels() {
    let mut image = vec![vec![0u8; 2]; 2];
    place_pixels(&mut image, RowRange { start: 0, end: 1 }, 2, &vec![7, 8, 9, 10]);
    assert_eq!(image, vec![vec![7, 8], vec![0, 0]]);
}
