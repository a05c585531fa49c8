use pixel_raster::buffer::{
    checked_draw_to_buffer, coordinates_to_index, draw_to_buffer, OutOfBounds, PixelBuffer,
};

#[test]
fn new_buffer_is_zero_everywhere() {
    let buffer = PixelBuffer::new(800, 600).unwrap();
    assert_eq!(buffer.width(), 800);
    assert_eq!(buffer.height(), 600);
    assert_eq!(buffer.len(), 480_000);
    assert_eq!(buffer.pixels().len(), 480_000);
    assert!(buffer.pixels().iter().all(|&color| color == 0));
}

#[test]
fn new_buffer_may_have_no_cell() {
    let buffer = PixelBuffer::new(0, 9).unwrap();
    assert_eq!(buffer.len(), 0);
    assert_eq!(buffer.get(0), None);
    assert!(!buffer.contains(0, 0));
}

#[test]
fn new_buffer_refuses_a_size_past_the_index_type() {
    assert!(PixelBuffer::new(usize::MAX, 2).is_none());
    assert!(PixelBuffer::new(usize::MAX / 2 + 1, 2).is_none());
}

#[test]
fn coordinates_map_to_row_times_width_plus_column() {
    assert_eq!(coordinates_to_index(0, 0, 800), 0);
    assert_eq!(coordinates_to_index(3, 2, 800), 1603);
    assert_eq!(coordinates_to_index(799, 599, 800), 479_999);
    assert_eq!(coordinates_to_index(5, 0, 7), 5);
    assert_eq!(coordinates_to_index(0, 5, 7), 35);
    assert_eq!(coordinates_to_index(4, 9, 0), 4);
}

#[test]
fn write_then_read_gives_the_written_color() {
    let mut buffer = PixelBuffer::new(4, 3).unwrap();
    for index in 0..12 {
        let color = 0xFF00_0000 + index as u32;
        draw_to_buffer(&mut buffer, index, color);
        assert_eq!(buffer.get(index), Some(color));
    }
}

#[test]
fn write_changes_no_other_index() {
    let mut buffer = PixelBuffer::new(4, 3).unwrap();
    for index in 0..12 {
        draw_to_buffer(&mut buffer, index, 100 + index as u32);
    }
    let before = buffer.pixels().clone();
    draw_to_buffer(&mut buffer, 7, 0xFFFF_0000);
    for index in 0..12 {
        if index == 7 {
            assert_eq!(buffer.get(index), Some(0xFFFF_0000));
        } else {
            assert_eq!(buffer.get(index), Some(before[index]));
        }
    }
    assert_eq!(buffer.len(), 12);
    assert_eq!(buffer.width(), 4);
    assert_eq!(buffer.height(), 3);
}

#[test]
fn write_at_first_and_last_index() {
    let mut buffer = PixelBuffer::new(5, 2).unwrap();
    draw_to_buffer(&mut buffer, 0, 1);
    draw_to_buffer(&mut buffer, 9, 2);
    assert_eq!(buffer.pixels(), &vec![1, 0, 0, 0, 0, 0, 0, 0, 0, 2]);
}

#[test]
fn checked_write_in_range_stores_the_color() {
    let mut buffer = PixelBuffer::new(5, 2).unwrap();
    assert_eq!(checked_draw_to_buffer(&mut buffer, 9, 0xAABB_CCDD), Ok(()));
    assert_eq!(buffer.get(9), Some(0xAABB_CCDD));
    assert_eq!(buffer.pixels()[..9], [0; 9]);
}

#[test]
fn checked_write_at_the_length_is_out_of_bounds() {
    let mut buffer = PixelBuffer::new(5, 2).unwrap();
    let done = checked_draw_to_buffer(&mut buffer, 10, 7);
    assert_eq!(done, Err(OutOfBounds { index: 10, len: 10 }));
    assert!(buffer.pixels().iter().all(|&color| color == 0));
}

#[test]
fn checked_write_past_the_length_is_out_of_bounds() {
    let mut buffer = PixelBuffer::new(5, 2).unwrap();
    let done = checked_draw_to_buffer(&mut buffer, 11, 7);
    assert_eq!(done, Err(OutOfBounds { index: 11, len: 10 }));
    let done = checked_draw_to_buffer(&mut buffer, usize::MAX, 7);
    assert_eq!(done, Err(OutOfBounds { index: usize::MAX, len: 10 }));
    assert!(buffer.pixels().iter().all(|&color| color == 0));
}

#[test]
fn checked_write_on_an_empty_buffer_is_out_of_bounds() {
    let mut buffer = PixelBuffer::new(0, 0).unwrap();
    let done = checked_draw_to_buffer(&mut buffer, 0, 7);
    assert_eq!(done, Err(OutOfBounds { index: 0, len: 0 }));
}

#[test]
fn read_past_the_end_gives_nothing() {
    let buffer = PixelBuffer::new(5, 2).unwrap();
    assert_eq!(buffer.get(9), Some(0));
    assert_eq!(buffer.get(10), None);
    assert_eq!(buffer.get(usize::MAX), None);
}

#[test]
fn clear_resets_every_cell() {
    let mut buffer = PixelBuffer::new(6, 4).unwrap();
    for index in 0..24 {
        draw_to_buffer(&mut buffer, index, 0xFFFF_0000);
    }
    buffer.clear();
    assert_eq!(buffer.width(), 6);
    assert_eq!(buffer.height(), 4);
    assert_eq!(buffer.pixels(), &vec![0u32; 24]);
}

#[test]
fn contains_tells_cells_from_other_points() {
    let buffer = PixelBuffer::new(800, 600).unwrap();
    assert!(buffer.contains(0, 0));
    assert!(buffer.contains(799, 599));
    assert!(!buffer.contains(800, 0));
    assert!(!buffer.contains(0, 600));
    assert!(!buffer.contains(-1, 0));
    assert!(!buffer.contains(0, -1));
    assert!(!buffer.contains(i32::MAX, i32::MAX));
    assert!(!buffer.contains(i32::MIN, 5));
}
