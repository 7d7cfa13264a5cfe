use pathtracer::progress::{clear_samples, Progress};

#[test]
fn frames_count_up_while_camera_still() {
    let mut p = Progress::new();
    let mut buf = vec![0.5f32; 6];
    assert_eq!(p.begin_frame(false, &mut buf, 0.0), 0);
    p.end_frame();
    assert_eq!(p.begin_frame(false, &mut buf, 0.0), 1);
    p.end_frame();
    assert_eq!(p.frames(), 2);
    assert_eq!(buf, vec![0.5f32; 6]);
}

#[test]
fn camera_move_resets_counter_and_buffer() {
    let mut p = Progress::new();
    let mut buf = vec![3.0f32, 4.0, 5.0];
    p.end_frame();
    p.end_frame();
    assert_eq!(p.frames(), 2);
    assert_eq!(p.begin_frame(true, &mut buf, 0.0), 0);
    assert_eq!(p.frames(), 0);
    assert_eq!(buf, vec![0.0f32; 3]);
}

#[test]
fn clear_keeps_length() {
    let mut buf = vec![1u8, 2, 3, 4];
    clear_samples(&mut buf, 9);
    assert_eq!(buf, vec![9u8; 4]);
    let mut empty: Vec<u8> = Vec::new();
    clear_samples(&mut empty, 1);
    assert!(empty.is_empty());
}
