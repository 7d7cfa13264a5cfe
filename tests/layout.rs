use pathtracer::layout::{join_bands, Band, FrameLayout, LayoutError};

#[test]
fn layout_rejects_zero_width() {
    assert_eq!(FrameLayout::new(0, 600, 4).err(), Some(LayoutError::ZeroWidth));
}

#[test]
fn layout_rejects_zero_height() {
    assert_eq!(FrameLayout::new(800, 0, 4).err(), Some(LayoutError::ZeroHeight));
}

#[test]
fn layout_rejects_zero_height_before_workers() {
    assert_eq!(FrameLayout::new(800, 0, 0).err(), Some(LayoutError::ZeroHeight));
}

#[test]
fn layout_rejects_no_workers() {
    assert_eq!(FrameLayout::new(800, 600, 0).err(), Some(LayoutError::NoWorkers));
}

#[test]
fn layout_rejects_oversized_frame() {
    if usize::MAX as u128 >= 3 * (u32::MAX as u128) * (u32::MAX as u128) {
        assert!(FrameLayout::new(u32::MAX, u32::MAX, 4).is_ok());
    } else {
        assert_eq!(
            FrameLayout::new(u32::MAX, u32::MAX, 4).err(),
            Some(LayoutError::TooLarge)
        );
    }
}

#[test]
fn layout_keeps_dimensions() {
    let l = FrameLayout::new(800, 600, 8).unwrap();
    assert_eq!(l.width(), 800);
    assert_eq!(l.height(), 600);
    assert_eq!(l.workers(), 8);
}

#[test]
fn host_layout_has_a_worker() {
    let l = FrameLayout::for_host(800, 600).unwrap();
    assert!(l.workers() >= 1);
    assert_eq!(l.width(), 800);
    assert_eq!(l.height(), 600);
    assert_eq!(l.bands().len(), l.workers());
}

#[test]
fn host_layout_rejects_zero_width() {
    assert_eq!(FrameLayout::for_host(0, 600).err(), Some(LayoutError::ZeroWidth));
}

#[test]
fn bands_cover_rows_and_last_takes_remainder() {
    let l = FrameLayout::new(800, 600, 7).unwrap();
    let bands = l.bands();
    assert_eq!(bands.len(), 7);
    assert_eq!(bands[0], Band { start_row: 0, end_row: 85 });
    assert_eq!(bands[1], Band { start_row: 85, end_row: 170 });
    assert_eq!(bands[6], Band { start_row: 510, end_row: 600 });
    for i in 1..bands.len() {
        assert_eq!(bands[i - 1].end_row, bands[i].start_row);
    }
}

#[test]
fn bands_with_more_workers_than_rows() {
    let l = FrameLayout::new(4, 3, 5).unwrap();
    let bands = l.bands();
    assert_eq!(bands.len(), 5);
    for i in 0..4 {
        assert_eq!(bands[i], Band { start_row: 0, end_row: 0 });
    }
    assert_eq!(bands[4], Band { start_row: 0, end_row: 3 });
}

#[test]
fn single_band_is_whole_image() {
    let l = FrameLayout::new(10, 10, 1).unwrap();
    assert_eq!(l.band(0), Band { start_row: 0, end_row: 10 });
}

#[test]
fn pixel_offset_is_row_major_rgb() {
    let l = FrameLayout::new(800, 600, 4).unwrap();
    assert_eq!(l.pixel_offset(0, 0), 0);
    assert_eq!(l.pixel_offset(10, 2), 4830);
    assert_eq!(l.pixel_offset(799, 599), 800 * 600 * 3 - 3);
}

#[test]
fn band_offset_is_relative_to_band_start() {
    let l = FrameLayout::new(800, 600, 4).unwrap();
    // band 1 holds rows 150..300
    assert_eq!(l.band_offset(1, 0, 150), 0);
    assert_eq!(l.band_offset(1, 10, 152), (2 * 800 + 10) * 3);
    assert_eq!(
        150 * 800 * 3 + l.band_offset(1, 10, 152),
        l.pixel_offset(10, 152)
    );
}

#[test]
fn split_frame_gives_each_band_its_rows() {
    let l = FrameLayout::new(4, 5, 3).unwrap();
    let buffer: Vec<u32> = (0..60).collect();
    let parts = l.split_frame(buffer);
    assert_eq!(parts.len(), 3);
    assert_eq!(parts[0], (0..12).collect::<Vec<u32>>());
    assert_eq!(parts[1], (12..24).collect::<Vec<u32>>());
    assert_eq!(parts[2], (24..60).collect::<Vec<u32>>());
}

#[test]
fn split_then_join_restores_buffer() {
    let l = FrameLayout::new(7, 13, 4).unwrap();
    let buffer: Vec<u32> = (0..7 * 13 * 3).collect();
    let parts = l.split_frame(buffer.clone());
    assert_eq!(join_bands(parts), buffer);
}

#[test]
fn join_of_nothing_is_empty() {
    let parts: Vec<Vec<u8>> = Vec::new();
    assert!(join_bands(parts).is_empty());
}
