use raycaster::Framebuffer;

#[test]
fn new_framebuffer_is_black() {
    let fb = Framebuffer::new(4, 3);
    assert_eq!(fb.width, 4);
    assert_eq!(fb.height, 3);
    assert_eq!(fb.buffer.len(), 12);
    assert!(fb.buffer.iter().all(|&c| c == 0));
}

#[test]
fn point_writes_row_major() {
    let mut fb = Framebuffer::new(4, 3);
    fb.point(2, 1, 0xABCDEF);
    assert_eq!(fb.buffer[1 * 4 + 2], 0xABCDEF);
    let untouched = fb.buffer.iter().filter(|&&c| c == 0).count();
    assert_eq!(untouched, 11);
}

#[test]
fn point_off_the_surface_is_ignored() {
    let mut fb = Framebuffer::new(4, 3);
    fb.point(4, 0, 0xABCDEF);
    fb.point(0, 3, 0xABCDEF);
    assert!(fb.buffer.iter().all(|&c| c == 0));
}

#[test]
fn clear_fills_with_background() {
    let mut fb = Framebuffer::new(2, 2);
    fb.point(0, 0, 0x123456);
    fb.set_background_color(0x333355);
    fb.clear();
    assert!(fb.buffer.iter().all(|&c| c == 0x333355));
}
