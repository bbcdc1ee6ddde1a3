use raytracer::light::sample_cells;

#[test]
fn an_area_light_samples_its_cells_row_by_row() {
    let cells = sample_cells(3, 2);

    assert_eq!(cells, vec![(0, 0), (1, 0), (2, 0), (0, 1), (1, 1), (2, 1)]);
}

#[test]
fn every_cell_of_an_area_light_is_sampled_once() {
    let (u_steps, v_steps) = (4u32, 5u32);
    let cells = sample_cells(u_steps, v_steps);

    assert_eq!(cells.len(), 20);
    for v in 0..v_steps {
        for u in 0..u_steps {
            assert_eq!(cells[(v * u_steps + u) as usize], (u, v));
        }
    }
    let mut sorted = cells.clone();
    sorted.sort();
    sorted.dedup();
    assert_eq!(sorted.len(), cells.len());
}

#[test]
fn a_light_with_no_rows_or_columns_has_no_samples() {
    assert!(sample_cells(0, 7).is_empty());
    assert!(sample_cells(7, 0).is_empty());
}

#[test]
fn a_single_cell_light_has_one_sample() {
    assert_eq!(sample_cells(1, 1), vec![(0, 0)]);
}
