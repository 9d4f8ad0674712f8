use waygraph::surface::{buffer_layout, fill_pixels, BufferLayout, SURFACE_HEIGHT, SURFACE_WIDTH};

#[test]
fn layout_of_the_background_buffer() {
    assert_eq!(
        buffer_layout(SURFACE_WIDTH, SURFACE_HEIGHT),
        BufferLayout { width: 400, height: 300, stride: 1600, size: 640000 }
    );
}

#[test]
fn fill_paints_whole_pixels_blue() {
    let mut data = vec![7u8; 10];
    fill_pixels(&mut data);
    assert_eq!(data, vec![0xFF, 0, 0, 0xFF, 0xFF, 0, 0, 0xFF, 7, 7]);
    let mut empty: Vec<u8> = vec![];
    fill_pixels(&mut empty);
    assert!(empty.is_empty());
}
