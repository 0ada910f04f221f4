use auto_grid::auto_grid;
use auto_grid::Rect;

#[test]
fn empty_grid() {
    let area = Rect::new(0, 0, 100, 100);
    let result = auto_grid(area, 0, 0);
    assert_eq!(result.len(), 0);
}

#[test]
fn single_cell() {
    let area = Rect::new(0, 0, 100, 100);
    let result = auto_grid(area, 1, 0);
    assert_eq!(result.len(), 1);
    assert_eq!(result[0], area, "Single cell should fill entire area");
}

#[test]
fn four_cells_perfect_square() {
    let area = Rect::new(0, 0, 100, 100);
    let result = auto_grid(area, 4, 0);

    assert_eq!(result.len(), 4);

    // Top left
    assert_eq!(result[0].x, 0);
    assert_eq!(result[0].y, 0);
    assert_eq!(result[0].width, 50);
    assert_eq!(result[0].height, 50);

    // Top right
    assert_eq!(result[1].x, 50);
    assert_eq!(result[1].y, 0);

    // Bottom left
    assert_eq!(result[2].x, 0);
    assert_eq!(result[2].y, 50);

    // Bottom right
    assert_eq!(result[3].x, 50);
    assert_eq!(result[3].y, 50);
}

#[test]
fn nine_cells() {
    let area = Rect::new(0, 0, 99, 99);
    let result = auto_grid(area, 9, 0);

    assert_eq!(result.len(), 9);

    // first cell
    assert_eq!(result[0].x, 0);
    assert_eq!(result[0].y, 0);
    assert_eq!(result[0].width, 33);
    assert_eq!(result[0].height, 33);

    // last cell
    assert_eq!(result[8].x, 66);
    assert_eq!(result[8].y, 66);
}

#[test]
fn non_square_grid() {
    let area = Rect::new(0, 0, 100, 100);
    let result = auto_grid(area, 6, 0);

    assert_eq!(result.len(), 6);

    // First row
    assert_eq!(result[0].y, result[1].y);
    assert_eq!(result[1].y, result[2].y);

    // Second row
    assert_eq!(result[3].y, result[4].y);
    assert_eq!(result[4].y, result[5].y);

    assert_ne!(result[0].y, result[3].y);
}

#[test]
fn with_spacing() {
    let area = Rect::new(0, 0, 100, 100);
    let result_no_spacing = auto_grid(area, 4, 0);
    let result_with_spacing = auto_grid(area, 4, 2);

    assert_eq!(result_no_spacing.len(), 4);
    assert_eq!(result_with_spacing.len(), 4);

    assert!(result_with_spacing[0].width <= result_no_spacing[0].width);
    assert!(result_with_spacing[0].height <= result_no_spacing[0].height);

    let gap_no_spacing =
        result_no_spacing[1].x - (result_no_spacing[0].x + result_no_spacing[0].width);
    let gap_with_spacing =
        result_with_spacing[1].x - (result_with_spacing[0].x + result_with_spacing[0].width);
    assert!(gap_with_spacing >= gap_no_spacing);
}

#[test]
fn all_cells_within_bounds() {
    let area = Rect::new(10, 10, 200, 150);
    let result = auto_grid(area, 7, 1);

    for (i, rect) in result.iter().enumerate() {
        assert!(
            rect.x >= area.x,
            "Cell {} x position {} should be >= area.x {}",
            i,
            rect.x,
            area.x
        );
        assert!(
            rect.y >= area.y,
            "Cell {} y position {} should be >= area.y {}",
            i,
            rect.y,
            area.y
        );
        assert!(
            rect.x + rect.width <= area.x + area.width,
            "Cell {} right edge should be within area bounds",
            i
        );
        assert!(
            rect.y + rect.height <= area.y + area.height,
            "Cell {} bottom edge should be withing area bounds",
            i
        );
    }
}

#[test]
fn row_major_order() {
    let area = Rect::new(0, 0, 100, 100);
    let result = auto_grid(area, 6, 0);

    assert_eq!(result[0].y, result[1].y);
    assert_eq!(result[1].y, result[2].y);

    assert_eq!(result[3].y, result[4].y);
    assert_eq!(result[4].y, result[5].y);

    assert!(result[0].y < result[3].y);
}

#[test]
fn exact_count_returned() {
    for n in 1..=20 {
        let area = Rect::new(0, 0, 100, 100);
        let result = auto_grid(area, n, 0);
        assert_eq!(
            result.len(),
            n,
            "should return exactly {} cells, got {}",
            n,
            result.len()
        );
    }
}

#[test]
fn empty_grid_any_spacing() {
    let area = Rect::new(3, 4, 50, 60);
    let result = auto_grid(area, 0, 9);
    assert_eq!(result.len(), 0);
}

#[test]
fn single_cell_spacing_irrelevant() {
    let area = Rect::new(2, 3, 40, 30);
    let result = auto_grid(area, 1, 7);
    assert_eq!(result.len(), 1);
    assert_eq!(result[0], area);
}

#[test]
fn four_cells_exact_spacing() {
    // 100 wide, one gap of 2 between two columns: 98 left, 49 each.
    let area = Rect::new(0, 0, 100, 100);
    let result = auto_grid(area, 4, 2);

    assert_eq!(result.len(), 4);
    assert_eq!(result[0], Rect::new(0, 0, 49, 49));
    assert_eq!(result[1], Rect::new(51, 0, 49, 49));
    assert_eq!(result[2], Rect::new(0, 51, 49, 49));
    assert_eq!(result[3], Rect::new(51, 51, 49, 49));
}

#[test]
fn remainder_goes_to_earlier_cells() {
    // 11 split in two: the first column and row get the extra unit.
    let area = Rect::new(0, 0, 11, 11);
    let result = auto_grid(area, 4, 0);

    assert_eq!(result.len(), 4);
    assert_eq!(result[0], Rect::new(0, 0, 6, 6));
    assert_eq!(result[1], Rect::new(6, 0, 5, 6));
    assert_eq!(result[2], Rect::new(0, 6, 6, 5));
    assert_eq!(result[3], Rect::new(6, 6, 5, 5));
}

#[test]
fn truncates_mid_row() {
    // 7 cells on a 3x3 grid: the last row holds a single cell.
    let area = Rect::new(0, 0, 90, 90);
    let result = auto_grid(area, 7, 0);

    assert_eq!(result.len(), 7);
    assert_eq!(result[6], Rect::new(0, 60, 30, 30));
}

#[test]
fn offset_area() {
    let area = Rect::new(5, 7, 20, 9);
    let result = auto_grid(area, 2, 0);

    assert_eq!(result.len(), 2);
    assert_eq!(result[0], Rect::new(5, 7, 10, 9));
    assert_eq!(result[1], Rect::new(15, 7, 10, 9));
}

#[test]
fn oversized_spacing_stays_within_bounds() {
    // Spacing larger than the area: cells collapse but never leave it.
    let area = Rect::new(0, 0, 10, 10);
    let result = auto_grid(area, 4, 50);

    assert_eq!(result.len(), 4);
    for rect in &result {
        assert!(rect.x + rect.width <= 10);
        assert!(rect.y + rect.height <= 10);
    }
}

#[test]
fn spacing_monotone_both_axes() {
    let area = Rect::new(0, 0, 100, 100);
    let tight = auto_grid(area, 9, 0);
    let loose = auto_grid(area, 9, 3);

    for i in 0..9 {
        assert!(loose[i].width <= tight[i].width);
        assert!(loose[i].height <= tight[i].height);
    }
    let v_gap_tight = tight[3].y - (tight[0].y + tight[0].height);
    let v_gap_loose = loose[3].y - (loose[0].y + loose[0].height);
    assert!(v_gap_loose >= v_gap_tight);
}
