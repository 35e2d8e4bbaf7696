use rtstest::{
    build_demo_render_queue, color_to_rgb, render_queue_to_framebuffer, Color, OpenGlRenderQueue,
    PlaceholderTexture, Rgb,
};

#[test]
fn demo_render_queue_contains_expected_static_objects() {
    // Worker position at the start of the demo animation: (2.0, 2.5).
    let queue = build_demo_render_queue(2000, 2500);

    assert_eq!(queue.quads.len(), 3);
    assert_eq!(queue.quads[0].color, PlaceholderTexture::GoldMine.color());
    assert_eq!(queue.quads[1].color, PlaceholderTexture::Forest.color());
    assert_eq!(queue.quads[2].color, PlaceholderTexture::Worker.color());
}

#[test]
fn opengl_placeholder_uses_colored_square_palette() {
    let mut queue = OpenGlRenderQueue::default();
    queue.queue_placeholder_quad(PlaceholderTexture::Worker, 1000, 2000, 16000);

    assert_eq!(queue.quads.len(), 1);
    assert_eq!(queue.quads[0].color, Color(200, 400, 1000));
    assert_eq!(queue.quads[0].size, 16000);
}

#[test]
fn render_queue_draws_colored_square_into_framebuffer() {
    let mut queue = OpenGlRenderQueue::default();
    queue.queue_placeholder_quad(PlaceholderTexture::GoldMine, 1000, 1000, 2000);

    let frame = render_queue_to_framebuffer(&queue, 4, 4);

    assert_eq!(frame.get_pixel(0, 0), Rgb(0, 0, 0));
    assert_eq!(frame.get_pixel(1, 1), Rgb(255, 217, 26));
    assert_eq!(frame.get_pixel(2, 2), Rgb(255, 217, 26));
}

#[test]
fn single_command_colors_exactly_its_footprint() {
    // A quad at (1, 1) of edge length 2 on a 4x4 buffer colors exactly the
    // 2x2 block with corners (1, 1) and (2, 2).
    let mut queue = OpenGlRenderQueue::default();
    queue.queue_placeholder_quad(PlaceholderTexture::Barracks, 1000, 1000, 2000);
    let expected = color_to_rgb(PlaceholderTexture::Barracks.color());

    let frame = render_queue_to_framebuffer(&queue, 4, 4);

    for y in 0..4 {
        for x in 0..4 {
            let inside = (1..3).contains(&x) && (1..3).contains(&y);
            let want = if inside { expected } else { Rgb(0, 0, 0) };
            assert_eq!(frame.get_pixel(x, y), want);
        }
    }
}

#[test]
fn empty_queue_rasterizes_to_all_black() {
    let queue = OpenGlRenderQueue::default();
    let frame = render_queue_to_framebuffer(&queue, 5, 3);
    for y in 0..3 {
        for x in 0..5 {
            assert_eq!(frame.get_pixel(x, y), Rgb(0, 0, 0));
        }
    }
}

#[test]
fn fully_offscreen_command_leaves_buffer_black() {
    let mut queue = OpenGlRenderQueue::default();
    // Entirely beyond the right/bottom edges.
    queue.queue_placeholder_quad(PlaceholderTexture::Forest, 4000, 4000, 2000);
    // Entirely left of and above the origin.
    queue.queue_placeholder_quad(PlaceholderTexture::Worker, -3000, -3000, 2500);
    let frame = render_queue_to_framebuffer(&queue, 4, 4);
    for y in 0..4 {
        for x in 0..4 {
            assert_eq!(frame.get_pixel(x, y), Rgb(0, 0, 0));
        }
    }
}

#[test]
fn overlapping_commands_keep_later_color_only() {
    let mut queue = OpenGlRenderQueue::default();
    queue.queue_placeholder_quad(PlaceholderTexture::GoldMine, 0, 0, 3000);
    queue.queue_placeholder_quad(PlaceholderTexture::Forest, 2000, 2000, 3000);
    let first = color_to_rgb(PlaceholderTexture::GoldMine.color());
    let second = color_to_rgb(PlaceholderTexture::Forest.color());

    let frame = render_queue_to_framebuffer(&queue, 6, 6);

    // The overlap (2, 2) holds the later color only, with no blending.
    assert_eq!(frame.get_pixel(2, 2), second);
    // A pixel only the first quad covers keeps the first color.
    assert_eq!(frame.get_pixel(0, 0), first);
    // A pixel only the second quad covers holds the second color.
    assert_eq!(frame.get_pixel(4, 4), second);
}

#[test]
fn partially_offscreen_command_is_clipped() {
    let mut queue = OpenGlRenderQueue::default();
    // Straddles the top-left corner: only pixel (0, 0) is on screen.
    queue.queue_placeholder_quad(PlaceholderTexture::Worker, -1500, -1500, 2500);
    let expected = color_to_rgb(PlaceholderTexture::Worker.color());

    let frame = render_queue_to_framebuffer(&queue, 3, 3);

    assert_eq!(frame.get_pixel(0, 0), expected);
    assert_eq!(frame.get_pixel(1, 0), Rgb(0, 0, 0));
    assert_eq!(frame.get_pixel(0, 1), Rgb(0, 0, 0));
    assert_eq!(frame.get_pixel(1, 1), Rgb(0, 0, 0));
}

#[test]
fn fractional_coordinates_floor_to_pixel_footprint() {
    let mut queue = OpenGlRenderQueue::default();
    // A quad from 1.25 to 2.75 world units floors to the half-open pixel
    // range [1, 2) on each axis: only pixel (1, 1) is colored.
    queue.queue_placeholder_quad(PlaceholderTexture::Forest, 1250, 1250, 1500);
    let expected = color_to_rgb(PlaceholderTexture::Forest.color());

    let frame = render_queue_to_framebuffer(&queue, 4, 4);

    assert_eq!(frame.get_pixel(0, 0), Rgb(0, 0, 0));
    assert_eq!(frame.get_pixel(1, 1), expected);
    assert_eq!(frame.get_pixel(2, 2), Rgb(0, 0, 0));
    assert_eq!(frame.get_pixel(3, 3), Rgb(0, 0, 0));
}

#[test]
fn zero_sized_command_draws_nothing() {
    let mut queue = OpenGlRenderQueue::default();
    queue.queue_placeholder_quad(PlaceholderTexture::Barracks, 1000, 1000, 0);
    let frame = render_queue_to_framebuffer(&queue, 2, 2);
    for y in 0..2 {
        for x in 0..2 {
            assert_eq!(frame.get_pixel(x, y), Rgb(0, 0, 0));
        }
    }
}
