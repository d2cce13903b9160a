use chip8rtic::screen::{Screen, DISPLAY_ADDRESS, DISPLAY_SIZE};

fn frame(bytes: &[u8]) -> Vec<u8> {
    bytes.to_vec()
}

fn data_bytes(frames: &[Vec<u8>]) -> Vec<u8> {
    frames.iter().filter(|f| f[0] == 0x40).map(|f| f[1]).collect()
}

#[test]
fn new_screen_sends_every_byte_of_every_page() {
    let mut screen = Screen::new();
    let frames = screen.display();
    assert_eq!(frames.len(), 8 * (1 + 128 * 3));
    assert_eq!(frames[0], frame(&[0x00, 0xB0]));
    assert_eq!(frames[1], frame(&[0x00, 0x02]));
    assert_eq!(frames[2], frame(&[0x00, 0x10]));
    assert_eq!(frames[3], frame(&[0x40, 0x00]));
    assert_eq!(frames[4], frame(&[0x00, 0x03]));
    assert_eq!(frames[385], frame(&[0x00, 0xB1]));
    assert_eq!(frames[7 * 385], frame(&[0x00, 0xB7]));
    assert_eq!(data_bytes(&frames).len(), DISPLAY_SIZE);
    assert!(data_bytes(&frames).iter().all(|b| *b == 0));
}

#[test]
fn column_fourteen_crosses_into_the_next_high_nibble() {
    let mut screen = Screen::new();
    let frames = screen.display();
    // column 14 is panel column 16: low nibble 0, high nibble 1
    let at = 1 + 14 * 3;
    assert_eq!(frames[at], frame(&[0x00, 0x00]));
    assert_eq!(frames[at + 1], frame(&[0x00, 0x11]));
}

#[test]
fn display_twice_sends_nothing_the_second_time() {
    let mut screen = Screen::new();
    let _ = screen.display();
    assert!(screen.display().is_empty());
}

#[test]
fn draw_sends_only_the_changed_bytes() {
    let mut screen = Screen::new();
    let _ = screen.display();
    assert!(!screen.draw(0, 0));
    let frames = screen.display();
    assert_eq!(
        frames,
        vec![
            frame(&[0x00, 0xB0]),
            frame(&[0x00, 0x02]),
            frame(&[0x00, 0x10]),
            frame(&[0x40, 0x03]),
            frame(&[0x00, 0x03]),
            frame(&[0x00, 0x10]),
            frame(&[0x40, 0x03]),
        ]
    );
}

#[test]
fn drawing_twice_collides_and_erases() {
    let mut screen = Screen::new();
    let _ = screen.display();
    assert!(!screen.draw(10, 5));
    assert!(screen.draw(10, 5));
    let frames = screen.display();
    assert_eq!(data_bytes(&frames), vec![0x00, 0x00]);
    assert!(!screen.draw(10, 5));
}

#[test]
fn draw_in_the_far_corner() {
    let mut screen = Screen::new();
    let _ = screen.display();
    assert!(!screen.draw(63, 31));
    let frames = screen.display();
    assert_eq!(
        frames,
        vec![
            frame(&[0x00, 0xB7]),
            frame(&[0x00, 0x00]),
            frame(&[0x00, 0x18]),
            frame(&[0x40, 0xC0]),
            frame(&[0x00, 0x01]),
            frame(&[0x00, 0x18]),
            frame(&[0x40, 0xC0]),
        ]
    );
}

#[test]
fn neighbouring_pixels_share_a_byte() {
    let mut screen = Screen::new();
    let _ = screen.display();
    assert!(!screen.draw(3, 0));
    assert!(!screen.draw(3, 1));
    let frames = screen.display();
    assert_eq!(data_bytes(&frames), vec![0x0F, 0x0F]);
}

#[test]
fn put_pixel_reports_collision_and_sets_one_bit() {
    let mut screen = Screen::new();
    let _ = screen.display();
    assert!(!screen.put_pixel(5, 9));
    let frames = screen.display();
    assert_eq!(
        frames,
        vec![
            frame(&[0x00, 0xB1]),
            frame(&[0x00, 0x07]),
            frame(&[0x00, 0x10]),
            frame(&[0x40, 0x02]),
        ]
    );
    assert!(screen.put_pixel(5, 9));
}

#[test]
fn clear_blanks_and_resends_everything() {
    let mut screen = Screen::new();
    let _ = screen.display();
    screen.draw(1, 1);
    screen.clear();
    let frames = screen.display();
    assert_eq!(frames.len(), 8 * (1 + 128 * 3));
    assert!(data_bytes(&frames).iter().all(|b| *b == 0));
    assert!(!screen.draw(1, 1));
}

#[test]
fn init_sends_the_controller_setup() {
    let screen = Screen::new();
    let frames = screen.init();
    assert_eq!(frames.len(), 15);
    assert_eq!(frames[0], frame(&[0x00, 0xAE]));
    assert_eq!(frames[1], frame(&[0x00, 0xD5, 0x80]));
    assert_eq!(frames[5], frame(&[0x00, 0xAD, 0x8B]));
    assert_eq!(frames[14], frame(&[0x00, 0xAF]));
    assert_eq!(DISPLAY_ADDRESS, 0x3C);
}

#[test]
fn draw_past_the_right_edge_reaches_four_rows_down() {
    let mut screen = Screen::new();
    let _ = screen.display();
    assert!(!screen.draw(64, 0));
    assert!(screen.draw(0, 4));
    assert!(!screen.draw(64, 0));
}

#[test]
fn draw_past_the_right_edge_marks_the_page_it_started_on() {
    let mut screen = Screen::new();
    let _ = screen.display();
    screen.draw(64, 0);
    // the bytes changed lie on page 1, but page 0 is the one marked
    assert_eq!(screen.display(), vec![frame(&[0x00, 0xB0])]);
    screen.draw(5, 4);
    let frames = screen.display();
    assert_eq!(frames[0], frame(&[0x00, 0xB1]));
    assert_eq!(data_bytes(&frames), vec![0x03, 0x03, 0x03, 0x03]);
}
