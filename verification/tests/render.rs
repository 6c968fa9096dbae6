use engine::render::colors::{BLACK, BLUE, CYAN, GREEN, MAGENTA, RED, WHITE, YELLOW};
use engine::render::software::{blend_alpha, hline, rgb, rgba, to_rgb, vline};
use engine::render::{CommandBuffer, Renderer};

fn painted(renderer: &Renderer, color: u32) -> Vec<(i32, i32)> {
    let mut list = Vec::new();
    for y in 0..renderer.height as i32 {
        for x in 0..renderer.width as i32 {
            if renderer.get_pixel(x, y) == color {
                list.push((x, y));
            }
        }
    }
    list
}

#[test]
fn a_new_buffer_is_all_zero() {
    let renderer = Renderer::new(4, 3);
    assert_eq!(renderer.width, 4);
    assert_eq!(renderer.height, 3);
    assert_eq!(renderer.buffer().len(), 12);
    assert!(renderer.buffer().iter().all(|p| *p == 0));
    let empty = Renderer::new(0, 7);
    assert!(empty.buffer().is_empty());
}

#[test]
fn pixels_are_stored_row_by_row() {
    let mut renderer = Renderer::new(4, 3);
    renderer.set_pixel(1, 2, RED);
    assert_eq!(renderer.buffer[2 * 4 + 1], RED);
    assert_eq!(renderer.get_pixel(1, 2), RED);
    assert_eq!(renderer.get_pixel(2, 1), 0);
    assert_eq!(painted(&renderer, RED), vec![(1, 2)]);
}

#[test]
fn pixels_outside_the_buffer_are_ignored() {
    let mut renderer = Renderer::new(4, 3);
    renderer.clear(7);
    for (x, y) in [(-1, 0), (0, -1), (4, 0), (0, 3), (i32::MAX, i32::MAX), (i32::MIN, 0)] {
        renderer.set_pixel(x, y, RED);
        assert_eq!(renderer.get_pixel(x, y), 0);
    }
    assert!(renderer.buffer().iter().all(|p| *p == 7));
}

#[test]
fn clear_fills_everything() {
    let mut renderer = Renderer::new(3, 2);
    renderer.set_pixel(1, 1, RED);
    renderer.clear(BLUE);
    assert_eq!(renderer.buffer(), &[BLUE; 6]);
}

#[test]
fn rectangles_are_cut_at_the_edges() {
    let mut renderer = Renderer::new(5, 4);
    renderer.fill_rect(1, 1, 2, 2, RED);
    assert_eq!(painted(&renderer, RED), vec![(1, 1), (2, 1), (1, 2), (2, 2)]);
    renderer.fill_rect(-1, -1, 3, 3, GREEN);
    assert_eq!(painted(&renderer, GREEN), vec![(0, 0), (1, 0), (0, 1), (1, 1)]);
    renderer.fill_rect(3, 2, 100, 100, BLUE);
    assert_eq!(painted(&renderer, BLUE), vec![(3, 2), (4, 2), (3, 3), (4, 3)]);
}

#[test]
fn rectangles_off_the_buffer_paint_nothing() {
    let mut renderer = Renderer::new(5, 4);
    renderer.fill_rect(-10, 0, 5, 4, RED);
    renderer.fill_rect(0, -10, 5, 4, RED);
    renderer.fill_rect(5, 0, 3, 3, RED);
    renderer.fill_rect(1, 1, 0, 3, RED);
    renderer.fill_rect(1, 1, 3, 0, RED);
    renderer.fill_rect(i32::MIN, i32::MIN, 5, 5, RED);
    assert!(painted(&renderer, RED).is_empty());
    renderer.fill_rect(i32::MIN, i32::MIN, i32::MAX as u32, i32::MAX as u32, RED);
    assert!(painted(&renderer, RED).is_empty());
    // from the far left to the far right
    renderer.fill_rect(i32::MIN, i32::MIN, u32::MAX, u32::MAX, RED);
    assert_eq!(painted(&renderer, RED).len(), 20);
    renderer.fill_rect(-1, -1, u32::MAX, u32::MAX, GREEN);
    assert_eq!(painted(&renderer, GREEN).len(), 20);
}

#[test]
fn circles_hold_the_pixels_within_the_radius() {
    let mut renderer = Renderer::new(5, 5);
    renderer.fill_circle(2, 2, 1, RED);
    assert_eq!(painted(&renderer, RED), vec![(2, 1), (1, 2), (2, 2), (3, 2), (2, 3)]);
    renderer.fill_circle(2, 2, 0, GREEN);
    assert_eq!(painted(&renderer, GREEN), vec![(2, 2)]);
    renderer.fill_circle(2, 2, -1, BLUE);
    assert!(painted(&renderer, BLUE).is_empty());
    renderer.fill_circle(0, 0, 2, BLUE);
    assert_eq!(
        painted(&renderer, BLUE),
        vec![(0, 0), (1, 0), (2, 0), (0, 1), (1, 1), (0, 2)]
    );
    renderer.fill_circle(2, 2, i32::MAX, WHITE);
    assert_eq!(painted(&renderer, WHITE).len(), 25);
    renderer.fill_circle(-100, 2, 50, RED);
    assert!(painted(&renderer, RED).is_empty());
}

#[test]
fn lines_follow_bresenham() {
    let mut renderer = Renderer::new(5, 5);
    renderer.draw_line(0, 0, 3, 1, RED);
    assert_eq!(painted(&renderer, RED), vec![(0, 0), (1, 0), (2, 1), (3, 1)]);
    renderer.clear(0);
    renderer.draw_line(3, 3, 0, 0, RED);
    assert_eq!(painted(&renderer, RED), vec![(0, 0), (1, 1), (2, 2), (3, 3)]);
    renderer.clear(0);
    renderer.draw_line(1, 0, 1, 3, RED);
    assert_eq!(painted(&renderer, RED), vec![(1, 0), (1, 1), (1, 2), (1, 3)]);
    renderer.clear(0);
    renderer.draw_line(2, 2, 2, 2, RED);
    assert_eq!(painted(&renderer, RED), vec![(2, 2)]);
}

#[test]
fn lines_are_cut_at_the_edges() {
    let mut renderer = Renderer::new(3, 3);
    renderer.draw_line(-2, 1, 2, 1, RED);
    assert_eq!(painted(&renderer, RED), vec![(0, 1), (1, 1), (2, 1)]);
    renderer.clear(0);
    renderer.draw_line(-5, -5, 5, 5, RED);
    assert_eq!(painted(&renderer, RED), vec![(0, 0), (1, 1), (2, 2)]);
    renderer.clear(0);
    renderer.draw_line(-5, 10, 5, 10, RED);
    assert!(painted(&renderer, RED).is_empty());
}

#[test]
fn horizontal_and_vertical_lines_include_both_ends() {
    let mut renderer = Renderer::new(5, 4);
    hline(&mut renderer, 1, 3, 2, RED);
    assert_eq!(painted(&renderer, RED), vec![(1, 2), (2, 2), (3, 2)]);
    vline(&mut renderer, 4, 1, 2, GREEN);
    assert_eq!(painted(&renderer, GREEN), vec![(4, 1), (4, 2)]);
    hline(&mut renderer, -3, 9, 0, BLUE);
    assert_eq!(painted(&renderer, BLUE), vec![(0, 0), (1, 0), (2, 0), (3, 0), (4, 0)]);
    vline(&mut renderer, 0, -3, 9, WHITE);
    assert_eq!(painted(&renderer, WHITE), vec![(0, 0), (0, 1), (0, 2), (0, 3)]);
}

#[test]
fn lines_outside_or_the_wrong_way_round_paint_nothing() {
    let mut renderer = Renderer::new(5, 4);
    hline(&mut renderer, 0, 4, -1, RED);
    hline(&mut renderer, 0, 4, 4, RED);
    hline(&mut renderer, 3, 1, 2, RED);
    hline(&mut renderer, -9, -1, 2, RED);
    vline(&mut renderer, -1, 0, 3, RED);
    vline(&mut renderer, 5, 0, 3, RED);
    vline(&mut renderer, 2, 3, 1, RED);
    vline(&mut renderer, 2, 4, i32::MAX, RED);
    hline(&mut renderer, i32::MIN, -1, 0, RED);
    assert!(painted(&renderer, RED).is_empty());
    hline(&mut renderer, i32::MIN, i32::MAX, 0, RED);
    assert_eq!(painted(&renderer, RED).len(), 5);
}

#[test]
fn text_is_not_drawn_yet() {
    let mut renderer = Renderer::new(4, 4);
    renderer.draw_text("hello", 0, 0, WHITE);
    assert!(renderer.buffer().iter().all(|p| *p == 0));
}

#[test]
fn the_buffer_can_be_written_from_outside() {
    let mut renderer = Renderer::new(2, 2);
    renderer.buffer_mut()[3] = RED;
    assert_eq!(renderer.get_pixel(1, 1), RED);
    assert_eq!(renderer.buffer(), &[0, 0, 0, RED]);
}

#[test]
fn colours_are_packed_as_argb() {
    assert_eq!(rgb(1, 2, 3), 0xFF010203);
    assert_eq!(rgb(255, 0, 0), RED);
    assert_eq!(rgb(0, 255, 0), GREEN);
    assert_eq!(rgb(0, 0, 255), BLUE);
    assert_eq!(rgb(255, 255, 0), YELLOW);
    assert_eq!(rgb(0, 255, 255), CYAN);
    assert_eq!(rgb(255, 0, 255), MAGENTA);
    assert_eq!(rgb(0, 0, 0), BLACK);
    assert_eq!(rgb(255, 255, 255), WHITE);
    assert_eq!(rgba(1, 2, 3, 4), 0x04010203);
    assert_eq!(rgba(0, 0, 0, 0), 0);
    assert_eq!(to_rgb(0x04010203), (1, 2, 3));
    assert_eq!(to_rgb(WHITE), (255, 255, 255));
}

#[test]
fn blending_weighs_by_the_alpha_of_the_source() {
    assert_eq!(blend_alpha(0xFF000000, 0x80FFFFFF), 0xFF808080);
    assert_eq!(blend_alpha(0xFF102030, 0x40FF8000), 0xFF4B3823);
    // a clear source leaves the destination, a solid one replaces it
    assert_eq!(blend_alpha(0x12345678, 0x00FFFFFF), 0x12345678);
    assert_eq!(blend_alpha(0x12345678, 0xFFABCDEF), 0xFFABCDEF);
    assert_eq!(blend_alpha(0x00000000, 0x01000000), 0xFF000000);
}

#[test]
fn recorded_commands_run_in_order() {
    let mut commands = CommandBuffer::new();
    commands.clear(BLUE);
    commands.rect(0, 0, 2, 2, RED);
    commands.circle(1, 1, 0, GREEN);
    let mut renderer = Renderer::new(3, 3);
    commands.execute(&mut renderer);
    assert_eq!(
        renderer.buffer(),
        &[RED, RED, BLUE, RED, GREEN, BLUE, BLUE, BLUE, BLUE]
    );
    // the same commands run again on another buffer
    let mut other = Renderer::new(2, 1);
    commands.execute(&mut other);
    assert_eq!(other.buffer(), &[RED, RED]);
    commands.reset();
    commands.execute(&mut other);
    assert_eq!(other.buffer(), &[RED, RED]);
    let mut fresh = Renderer::new(1, 1);
    CommandBuffer::default().execute(&mut fresh);
    assert_eq!(fresh.buffer(), &[0]);
}
