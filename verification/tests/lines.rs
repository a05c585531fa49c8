use pixel_raster::buffer::PixelBuffer;
use pixel_raster::draw;

const RED: u32 = 0xFFFF_0000;

fn painted(buffer: &PixelBuffer, color: u32) -> Vec<usize> {
    let mut indices = Vec::new();
    for (index, &held) in buffer.pixels().iter().enumerate() {
        if held == color {
            indices.push(index);
        }
    }
    indices
}

fn cells(points: &[(usize, usize)], width: usize) -> Vec<usize> {
    let mut indices: Vec<usize> = points.iter().map(|&(x, y)| y * width + x).collect();
    indices.sort();
    indices
}

#[test]
fn shallow_line_steps_one_row_where_the_decision_turns_positive() {
    let mut buffer = PixelBuffer::new(8, 6).unwrap();
    draw::line(&mut buffer, 0, 3, 0, 1, RED);
    assert_eq!(painted(&buffer, RED), cells(&[(0, 0), (1, 0), (2, 1), (3, 1)], 8));
    assert_eq!(painted(&buffer, 0).len(), 48 - 4);
}

#[test]
fn shallow_line_falling() {
    let mut buffer = PixelBuffer::new(8, 6).unwrap();
    draw::line(&mut buffer, 0, 4, 3, 1, RED);
    assert_eq!(painted(&buffer, RED), cells(&[(0, 3), (1, 3), (2, 2), (3, 2), (4, 1)], 8));
}

#[test]
fn shallow_line_is_the_same_from_either_end() {
    let mut forward = PixelBuffer::new(8, 6).unwrap();
    let mut backward = PixelBuffer::new(8, 6).unwrap();
    draw::line(&mut forward, 0, 4, 3, 1, RED);
    draw::line(&mut backward, 4, 0, 1, 3, RED);
    assert_eq!(forward.pixels(), backward.pixels());
    assert_eq!(painted(&backward, RED).len(), 5);

    let mut other = PixelBuffer::new(8, 6).unwrap();
    draw::line(&mut other, 3, 0, 1, 0, RED);
    assert_eq!(painted(&other, RED), cells(&[(0, 0), (1, 0), (2, 1), (3, 1)], 8));
}

#[test]
fn steep_line_has_a_cell_in_every_row_the_last_included() {
    let mut buffer = PixelBuffer::new(8, 6).unwrap();
    draw::line(&mut buffer, 1, 2, 0, 5, RED);
    assert_eq!(
        painted(&buffer, RED),
        cells(&[(1, 0), (1, 1), (1, 2), (2, 3), (2, 4), (2, 5)], 8)
    );
}

#[test]
fn steep_line_leaning_left() {
    let mut buffer = PixelBuffer::new(8, 6).unwrap();
    draw::line(&mut buffer, 5, 3, 1, 5, RED);
    // run 4, rise 2: the column moves after the second and after the fourth row
    assert_eq!(painted(&buffer, RED), cells(&[(5, 1), (5, 2), (4, 3), (4, 4), (3, 5)], 8));
}

#[test]
fn steep_line_is_the_same_from_either_end() {
    let mut forward = PixelBuffer::new(8, 6).unwrap();
    let mut backward = PixelBuffer::new(8, 6).unwrap();
    draw::line(&mut forward, 1, 2, 0, 5, RED);
    draw::line(&mut backward, 2, 1, 5, 0, RED);
    assert_eq!(forward.pixels(), backward.pixels());
}

#[test]
fn diagonal_line_moves_one_column_per_row() {
    let mut buffer = PixelBuffer::new(8, 6).unwrap();
    draw::line(&mut buffer, 0, 3, 0, 3, RED);
    assert_eq!(painted(&buffer, RED), cells(&[(0, 0), (1, 1), (2, 2), (3, 3)], 8));

    let mut falling = PixelBuffer::new(8, 6).unwrap();
    draw::line(&mut falling, 0, 3, 3, 0, RED);
    assert_eq!(painted(&falling, RED), cells(&[(3, 0), (2, 1), (1, 2), (0, 3)], 8));
}

#[test]
fn vertical_line_stays_in_its_column() {
    let mut buffer = PixelBuffer::new(8, 6).unwrap();
    draw::line(&mut buffer, 6, 6, 1, 4, RED);
    assert_eq!(painted(&buffer, RED), cells(&[(6, 1), (6, 2), (6, 3), (6, 4)], 8));

    let mut upward = PixelBuffer::new(8, 6).unwrap();
    draw::line(&mut upward, 6, 6, 4, 1, RED);
    assert_eq!(upward.pixels(), buffer.pixels());
}

#[test]
fn line_between_equal_points_writes_exactly_one_pixel() {
    let mut buffer = PixelBuffer::new(800, 600).unwrap();
    draw::line(&mut buffer, 17, 17, 23, 23, RED);
    assert_eq!(painted(&buffer, RED), vec![23 * 800 + 17]);
    assert_eq!(painted(&buffer, 0).len(), 480_000 - 1);

    let mut corner = PixelBuffer::new(800, 600).unwrap();
    draw::line(&mut corner, 799, 799, 599, 599, 5);
    assert_eq!(painted(&corner, 5), vec![479_999]);

    let mut origin = PixelBuffer::new(800, 600).unwrap();
    draw::line(&mut origin, 0, 0, 0, 0, 5);
    assert_eq!(painted(&origin, 5), vec![0]);
}

#[test]
fn horizontal_line_sets_the_whole_span_and_nothing_else() {
    let mut buffer = PixelBuffer::new(800, 600).unwrap();
    draw::line(&mut buffer, 100, 250, 40, 40, RED);
    let expected: Vec<usize> = (40 * 800 + 100..=40 * 800 + 250).collect();
    assert_eq!(painted(&buffer, RED), expected);
    assert_eq!(painted(&buffer, 0).len(), 480_000 - 151);
}

#[test]
fn horizontal_line_from_right_to_left_sets_the_same_span() {
    let mut buffer = PixelBuffer::new(800, 600).unwrap();
    draw::line(&mut buffer, 250, 100, 40, 40, RED);
    let expected: Vec<usize> = (40 * 800 + 100..=40 * 800 + 250).collect();
    assert_eq!(painted(&buffer, RED), expected);
}

#[test]
fn horizontal_line_across_a_whole_row() {
    let mut buffer = PixelBuffer::new(8, 6).unwrap();
    draw::line(&mut buffer, 0, 7, 5, 5, RED);
    assert_eq!(painted(&buffer, RED), (40..48).collect::<Vec<usize>>());
}

#[test]
fn line_keeps_what_it_does_not_cross() {
    let mut buffer = PixelBuffer::new(8, 6).unwrap();
    draw::line(&mut buffer, 0, 7, 2, 2, 11);
    draw::line(&mut buffer, 3, 3, 0, 5, 22);
    assert_eq!(painted(&buffer, 22), cells(&[(3, 0), (3, 1), (3, 2), (3, 3), (3, 4), (3, 5)], 8));
    assert_eq!(
        painted(&buffer, 11),
        cells(&[(0, 2), (1, 2), (2, 2), (4, 2), (5, 2), (6, 2), (7, 2)], 8)
    );
}

#[test]
fn line_has_one_cell_more_than_its_longer_extent() {
    let ends = [
        (0, 0, 0, 0),
        (0, 9, 0, 0),
        (0, 0, 0, 9),
        (2, 11, 3, 7),
        (11, 2, 7, 3),
        (5, 6, 0, 9),
        (6, 5, 9, 0),
        (0, 11, 0, 11),
        (11, 0, 0, 11),
        (1, 10, 8, 2),
    ];
    for &(x0, x1, y0, y1) in ends.iter() {
        let mut buffer = PixelBuffer::new(12, 12).unwrap();
        draw::line(&mut buffer, x0, x1, y0, y1, RED);
        let longer = (x1 - x0).abs().max((y1 - y0).abs()) as usize;
        assert_eq!(painted(&buffer, RED).len(), longer + 1);
        assert_eq!(buffer.get((y0 * 12 + x0) as usize), Some(RED));
        assert_eq!(buffer.get((y1 * 12 + x1) as usize), Some(RED));
    }
}

#[test]
fn line_between_cells_stays_between_them() {
    let mut state: u64 = 0x2545_F491_4F6C_DD1D;
    let mut next = |bound: u64| -> i32 {
        state ^= state << 13;
        state ^= state >> 7;
        state ^= state << 17;
        (state % bound) as i32
    };
    for _ in 0..200 {
        let (x0, x1, y0, y1) = (next(80), next(80), next(60), next(60));
        let mut buffer = PixelBuffer::new(80, 60).unwrap();
        draw::line(&mut buffer, x0, x1, y0, y1, RED);
        let indices = painted(&buffer, RED);
        let longer = (x1 - x0).abs().max((y1 - y0).abs()) as usize;
        assert_eq!(indices.len(), longer + 1);
        for index in indices {
            let (x, y) = ((index % 80) as i32, (index / 80) as i32);
            assert!(x0.min(x1) <= x && x <= x0.max(x1));
            assert!(y0.min(y1) <= y && y <= y0.max(y1));
        }
    }
}

#[test]
fn line_may_run_past_the_right_edge_into_the_next_row() {
    // nothing is clipped: the cell in column 8 of row 0 is index 8, the first of row 1
    let mut buffer = PixelBuffer::new(8, 6).unwrap();
    draw::line(&mut buffer, 6, 9, 0, 0, RED);
    assert_eq!(painted(&buffer, RED), vec![6, 7, 8, 9]);
}

#[test]
fn line_with_a_tie_keeps_to_the_row_of_its_start() {
    // halfway between two rows the nearer one to the start is taken
    let mut buffer = PixelBuffer::new(8, 6).unwrap();
    draw::line(&mut buffer, 0, 2, 0, 1, RED);
    assert_eq!(painted(&buffer, RED), cells(&[(0, 0), (1, 0), (2, 1)], 8));
}

#[test]
fn thousand_red_lines_on_the_full_canvas() {
    let mut buffer = PixelBuffer::new(800, 600).unwrap();
    let mut state: u64 = 0x9E37_79B9_7F4A_7C15;
    let mut next = |bound: u64| -> i32 {
        state ^= state << 13;
        state ^= state >> 7;
        state ^= state << 17;
        (state % bound) as i32
    };
    for _ in 0..1000 {
        let (x0, x1, y0, y1) = (next(800), next(800), next(600), next(600));
        assert!(buffer.contains(x0, y0) && buffer.contains(x1, y1));
        draw::line(&mut buffer, x0, x1, y0, y1, RED);
        assert_eq!(buffer.get((y0 * 800 + x0) as usize), Some(RED));
        assert_eq!(buffer.get((y1 * 800 + x1) as usize), Some(RED));
    }
    assert!(buffer.pixels().iter().all(|&color| color == 0 || color == RED));
}
