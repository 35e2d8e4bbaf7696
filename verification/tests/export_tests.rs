use rtstest::{FrameBuffer, Rgb};

#[test]
fn ppm_export_starts_with_valid_header() {
    let mut frame = FrameBuffer::new(2, 1);
    frame.set_pixel(0, 0, Rgb(255, 0, 0));
    frame.set_pixel(1, 0, Rgb(0, 255, 0));

    let ppm = frame.to_ppm();
    assert!(ppm.starts_with("P3\n2 1\n255\n"));
    assert!(ppm.contains("255 0 0"));
    assert!(ppm.contains("0 255 0"));
}

#[test]
fn ppm_export_is_byte_exact() {
    let mut frame = FrameBuffer::new(2, 2);
    frame.set_pixel(0, 0, Rgb(1, 2, 3));
    frame.set_pixel(1, 0, Rgb(40, 50, 60));
    frame.set_pixel(0, 1, Rgb(255, 0, 128));

    let ppm = frame.to_ppm();
    assert_eq!(ppm, "P3\n2 2\n255\n1 2 3 40 50 60 \n255 0 128 0 0 0 \n");
}

#[test]
fn ppm_export_of_empty_buffer_is_header_only() {
    let frame = FrameBuffer::new(0, 0);
    assert_eq!(frame.to_ppm(), "P3\n0 0\n255\n");
}

#[test]
fn out_of_bounds_writes_are_dropped() {
    let mut frame = FrameBuffer::new(2, 2);
    frame.set_pixel(2, 0, Rgb(9, 9, 9));
    frame.set_pixel(0, 2, Rgb(9, 9, 9));
    frame.set_pixel(100, 100, Rgb(9, 9, 9));
    for y in 0..2 {
        for x in 0..2 {
            assert_eq!(frame.get_pixel(x, y), Rgb(0, 0, 0));
        }
    }
}

#[test]
fn argb_export_packs_channels_little_endian() {
    let mut frame = FrameBuffer::new(2, 1);
    frame.set_pixel(0, 0, Rgb(0x12, 0x34, 0x56));
    frame.set_pixel(1, 0, Rgb(255, 0, 1));

    let words = frame.to_argb_u32_buffer();
    assert_eq!(words.len(), 2);
    assert_eq!(words[0], 0xFF123456);
    assert_eq!(words[1], 0xFFFF0001);
    // The external viewer decodes the little-endian bytes of each word.
    assert_eq!(words[0].to_le_bytes(), [0x56, 0x34, 0x12, 0xFF]);
}
