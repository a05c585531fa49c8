use pixel_raster::buffer::PixelBuffer;
use pixel_raster::draw::square;

const C: u32 = 0xFF12_3456;

#[test]
fn square_of_five_by_five_sets_exactly_its_25_cells() {
    let mut buffer = PixelBuffer::new(800, 600).unwrap();
    square(&mut buffer, 10, 10, 5, 5, C);
    let mut set = 0;
    for y in 0..600usize {
        for x in 0..800usize {
            let inside = (10..=14).contains(&x) && (10..=14).contains(&y);
            let expected = if inside { C } else { 0 };
            assert_eq!(buffer.get(y * 800 + x), Some(expected));
            if inside {
                set += 1;
            }
        }
    }
    assert_eq!(set, 25);
}

#[test]
fn square_keeps_the_colors_around_it() {
    let mut buffer = PixelBuffer::new(6, 4).unwrap();
    square(&mut buffer, 0, 0, 6, 4, 9);
    square(&mut buffer, 2, 1, 3, 2, C);
    assert_eq!(
        buffer.pixels(),
        &vec![9, 9, 9, 9, 9, 9, 9, 9, C, C, C, 9, 9, 9, C, C, C, 9, 9, 9, 9, 9, 9, 9]
    );
}

#[test]
fn square_over_the_whole_buffer() {
    let mut buffer = PixelBuffer::new(7, 3).unwrap();
    square(&mut buffer, 0, 0, 7, 3, C);
    assert_eq!(buffer.pixels(), &vec![C; 21]);
}

#[test]
fn square_of_one_cell() {
    let mut buffer = PixelBuffer::new(7, 3).unwrap();
    square(&mut buffer, 6, 2, 1, 1, C);
    assert_eq!(buffer.get(20), Some(C));
    assert_eq!(buffer.pixels()[..20], [0; 20]);
}

#[test]
fn square_without_cells_changes_nothing() {
    let mut buffer = PixelBuffer::new(7, 3).unwrap();
    square(&mut buffer, 2, 1, 0, 2, C);
    square(&mut buffer, 2, 1, 3, 0, C);
    square(&mut buffer, 2, 1, -4, 2, C);
    square(&mut buffer, 2, 1, 3, -1, C);
    square(&mut buffer, 900, 900, 0, 0, C);
    square(&mut buffer, -50, -50, 5, 0, C);
    assert_eq!(buffer.pixels(), &vec![0; 21]);
}

#[test]
fn square_past_the_right_edge_runs_into_the_next_rows() {
    // nothing is clipped: columns 6 and 7 of a row are the first two of the row below
    let mut buffer = PixelBuffer::new(6, 4).unwrap();
    square(&mut buffer, 4, 0, 4, 2, C);
    let mut expected = vec![0u32; 24];
    for index in [4, 5, 6, 7, 10, 11, 12, 13] {
        expected[index] = C;
    }
    assert_eq!(buffer.pixels(), &expected);
}

#[test]
fn square_from_a_negative_column_runs_out_of_the_row_above() {
    let mut buffer = PixelBuffer::new(6, 4).unwrap();
    square(&mut buffer, -2, 1, 3, 2, C);
    let mut expected = vec![0u32; 24];
    for index in [4, 5, 6, 10, 11, 12] {
        expected[index] = C;
    }
    assert_eq!(buffer.pixels(), &expected);
}
