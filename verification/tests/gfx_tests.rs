use somnia::framebuffer::{Font, Framebuffer, FramebufferWriter, BLACK, RED, WHITE};
use somnia::gui::{ButtonAction, ButtonData, ButtonState, DesktopData, GuiElement, GuiSystem};
use somnia::kernel_types::{InterruptIndex, Registers, SyscallNumber, TaskId, YieldNow};
use somnia::vga_buffer::{rm_char, Color, ColorCode, Writer};

fn test_fb() -> Framebuffer {
    let font = Font::load_from_bytes(&vec![0xffu8; 4096], 16);
    Framebuffer::new(64, 48, font)
}

#[test]
fn pixels_read_back_what_was_put() {
    let mut fb = test_fb();
    fb.put_pixel(3, 5, 0xAABBCCDD);
    assert_eq!(fb.get_pixel(3, 5), 0xAABBCCDD);
    assert_eq!(fb.get_pixel(4, 5), 0);
    // Off-screen coordinates read as zero and ignore writes.
    assert_eq!(fb.get_pixel(-1, 0), 0);
    fb.put_pixel_safe(-7, 1000, RED);
    assert_eq!(fb.get_pixel(0, 0), 0);
}

#[test]
fn fill_rect_paints_the_clipped_rectangle() {
    let mut fb = test_fb();
    fb.fill_rect(60, 44, 10, 10, WHITE);
    assert_eq!(fb.get_pixel(60, 44), WHITE);
    assert_eq!(fb.get_pixel(63, 47), WHITE);
    assert_eq!(fb.get_pixel(59, 44), 0);
}

#[test]
fn fill_screen_covers_everything() {
    let mut fb = test_fb();
    fb.fill_screen(RED);
    assert_eq!(fb.get_pixel(0, 0), RED);
    assert_eq!(fb.get_pixel(63, 47), RED);
}

#[test]
fn drawing_marks_dirty_regions() {
    let mut fb = test_fb();
    fb.fill_rect(0, 0, 4, 4, WHITE);
    fb.draw_line(0, 0, 10, 10, RED);
    let dirty = fb.take_dirty();
    assert_eq!(dirty.len(), 2);
    assert!(fb.take_dirty().is_empty());
}

#[test]
fn lines_and_shapes_stay_within_the_buffer() {
    let mut fb = test_fb();
    fb.draw_line(-20, -20, 100, 90, WHITE);
    fb.draw_rect(2, 2, 20, 10, WHITE);
    fb.draw_circle(10, 10, 8, RED);
    fb.fill_circle(30, 30, 5, RED);
    fb.draw_triangle(1, 1, 20, 5, 9, 30, WHITE);
    fb.fill_triangle(1, 1, 20, 5, 9, 30, WHITE);
    fb.draw_char(2, 2, b'A', WHITE);
    fb.draw_string(0, 0, "two\nlines", WHITE);
    // The diagonal's endpoints inside the screen were painted.
    assert_eq!(fb.get_pixel(0, 0), WHITE);
}

#[test]
fn writer_tracks_cursor_and_clears() {
    let mut writer = FramebufferWriter::new();
    writer.set_color(RED);
    // Without a framebuffer the writer stays inert.
    writer.rm_char();
    writer.set_framebuffer(test_fb());
    writer.clear();
    assert_eq!(writer.x, 0);
    assert_eq!(writer.y, 0);
    assert_eq!(writer.color, RED);
    let _ = BLACK;
}

#[test]
fn gui_builds_a_window_with_three_buttons() {
    let mut gui = GuiSystem::new(1024, 768);
    let win = gui.create_window("hello", 50, 50, 200, 150);
    assert_eq!(gui.nodes.len(), 5);
    assert_eq!(gui.nodes[win].children.len(), 3);
    assert_eq!(gui.nodes[win].parent, Some(gui.root));
}

#[test]
fn hit_test_finds_the_topmost_node() {
    let mut gui = GuiSystem::new(1024, 768);
    let win = gui.create_window("hello", 50, 50, 200, 150);
    let hit = gui.hit_test(gui.root, 60, 60).expect("hit");
    assert_eq!(hit, win);
    assert!(gui.hit_test(gui.root, 2000, 2000).is_none());
    // A window brought to the front still wins the hit test.
    gui.bring_to_front(win);
    assert_eq!(gui.hit_test(gui.root, 60, 60), Some(win));
}

#[test]
fn killed_nodes_free_their_slots_for_reuse() {
    let mut gui = GuiSystem::new(1024, 768);
    let a = gui.add_node(0, GuiElement::Desktop(DesktopData {}), 0, 0, 10, 10);
    gui.kill_node(a);
    assert!(matches!(gui.nodes[a].element, GuiElement::Dead));
    let b = gui.add_node(0, GuiElement::Desktop(DesktopData {}), 1, 1, 5, 5);
    assert_eq!(a, b, "the freed slot is reused");
}

#[test]
fn delete_subtree_kills_the_window_and_its_buttons() {
    let mut gui = GuiSystem::new(1024, 768);
    let win = gui.create_window("bye", 10, 10, 200, 100);
    let buttons: Vec<usize> = gui.nodes[win].children.clone();
    gui.delete_subtree(win);
    assert!(matches!(gui.nodes[win].element, GuiElement::Dead));
    for b in buttons {
        assert!(matches!(gui.nodes[b].element, GuiElement::Dead));
    }
}

#[test]
fn adjust_safe_placement_clamps_windows() {
    let mut gui = GuiSystem::new(1024, 768);
    let win = gui.create_window("w", 50, 50, 200, 150);
    gui.nodes[win].x = -20;
    gui.nodes[win].y = 4000;
    gui.adjust_safe_placement(win);
    assert_eq!(gui.nodes[win].x, 0);
    // Clamped first to the placement cap, then pulled fully on screen.
    assert_eq!(gui.nodes[win].y, 768 - 150);
}

#[test]
fn gui_draws_into_the_framebuffer() {
    let mut gui = GuiSystem::new(64, 48);
    gui.create_window("t", 1, 1, 90, 40);
    let mut fb = test_fb();
    gui.draw(&mut fb);
    // Below the title bar the window body shows the classic grey.
    assert_eq!(fb.get_pixel(10, 30), 0xC0C0C0);
}

#[test]
fn buttons_carry_their_action_and_state() {
    let b = ButtonData::new("X", Some(ButtonAction::Close));
    assert_eq!(b.state, ButtonState::Normal);
    assert_eq!(b.on_click, Some(ButtonAction::Close));
}

#[test]
fn vga_writer_wraps_scrolls_and_erases() {
    let mut writer = Writer::new(ColorCode::new(Color::Yellow, Color::Black));
    writer.write_string("hi");
    assert_eq!(writer.column_position, 2);
    assert_eq!(writer.buffer[24][0].ascii_char, b'h');
    writer.rm_char();
    assert_eq!(writer.column_position, 1);
    assert_eq!(writer.buffer[24][1].ascii_char, b' ');
    writer.write_string("\n");
    assert_eq!(writer.column_position, 0);
    // The line scrolled up one row.
    assert_eq!(writer.buffer[23][0].ascii_char, b'h');
    rm_char(&mut writer);
    writer.set_color(Color::White, Color::Blue);
    assert_eq!(writer.color_code.code, 1 * 16 + 15);
}

#[test]
fn prompt_byte_resists_erasure() {
    let mut writer = Writer::new(ColorCode::new(Color::Green, Color::Black));
    writer.write_string(">");
    assert_eq!(writer.column_position, 1);
    writer.rm_char();
    // The prompt at column zero stays.
    assert_eq!(writer.buffer[24][0].ascii_char, b'>');
    assert_eq!(writer.column_position, 1);
}

#[test]
fn kernel_types_expose_their_numbers() {
    assert_eq!(InterruptIndex::Timer.as_u8(), 32);
    assert_eq!(InterruptIndex::Keyboard.as_usize(), 33);
    assert_eq!(SyscallNumber::Write.as_u64(), 1);
    assert_eq!(SyscallNumber::ClearScreen.as_u64(), 18);
    assert_eq!(TaskId::new(7).0, 7);
    let r = Registers::default();
    assert_eq!(r.rax, 0);
    let mut y = YieldNow::new();
    assert!(!y.poll_step(), "first poll is pending");
    assert!(y.poll_step(), "second poll is ready");
}

#[test]
fn mouse_saves_and_restores_the_background() {
    let mut fb = test_fb();
    fb.fill_screen(RED);
    let mut mouse = somnia::mouse::Mouse::new();
    mouse.x = 5;
    mouse.y = 5;
    mouse.draw(&mut fb);
    // The arrow tip was painted over the red background.
    assert_eq!(fb.get_pixel(5, 5), WHITE);
    mouse.erase(&mut fb);
    // The erase painted the saved background back.
    assert_eq!(fb.get_pixel(5, 5), RED);
}
