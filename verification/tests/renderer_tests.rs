use raytracer::argb;
use raytracer::renderer::Framebuffer;

#[test]
fn argb_packs_channels() {
    assert_eq!(argb(0, 0, 0), 0xFF000000);
    assert_eq!(argb(255, 0, 0), 0xFFFF0000);
    assert_eq!(argb(0, 255, 0), 0xFF00FF00);
    assert_eq!(argb(0, 0, 255), 0xFF0000FF);
    assert_eq!(argb(0x12, 0x34, 0x56), 0xFF123456);
    assert_eq!(argb(255, 255, 255), 0xFFFFFFFF);
}

#[test]
fn framebuffer_starts_black() {
    let fb = Framebuffer::new(4, 3).unwrap();
    assert_eq!(fb.width(), 4);
    assert_eq!(fb.height(), 3);
    let buf = fb.into_vec();
    assert_eq!(buf.len(), 12);
    assert!(buf.iter().all(|&p| p == 0));
}

#[test]
fn framebuffer_is_row_major_top_first() {
    let mut fb = Framebuffer::new(3, 2).unwrap();
    fb.set_pixel(0, 0, 0xFF000001);
    fb.set_pixel(2, 0, 0xFF000002);
    fb.set_pixel(1, 1, 0xFF000003);
    assert_eq!(fb.get_pixel(0, 0), 0xFF000001);
    assert_eq!(fb.get_pixel(2, 0), 0xFF000002);
    assert_eq!(fb.get_pixel(1, 1), 0xFF000003);
    let buf = fb.into_vec();
    assert_eq!(
        buf,
        vec![0xFF000001, 0, 0xFF000002, 0, 0xFF000003, 0]
    );
}

#[test]
fn framebuffer_set_row_replaces_one_scanline() {
    let mut fb = Framebuffer::new(2, 3).unwrap();
    fb.set_pixel(0, 0, 7);
    fb.set_pixel(1, 2, 9);
    let row = vec![11u32, 12u32];
    fb.set_row(1, &row);
    let buf = fb.into_vec();
    assert_eq!(buf, vec![7, 0, 11, 12, 0, 9]);
}

#[test]
fn framebuffer_overwrites_pixel() {
    let mut fb = Framebuffer::new(1, 1).unwrap();
    fb.set_pixel(0, 0, 1);
    fb.set_pixel(0, 0, 2);
    assert_eq!(fb.get_pixel(0, 0), 2);
}
