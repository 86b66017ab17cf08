use frame::graphics::{Font, ScreenElement, TextAlign};
use frame::menu::{Menu, MAX_MENU_ITEMS};

fn texts(elements: &[ScreenElement]) -> Vec<(String, i32, i32)> {
    elements
        .iter()
        .filter_map(|e| match e {
            ScreenElement::Text { text, x, y, .. } => Some((text.clone(), *x, *y)),
            _ => None,
        })
        .collect()
}

fn page_label(menu: &mut Menu) -> String {
    texts(&menu.layout())[1].0.clone()
}

fn empty_menu() -> Menu {
    let mut m = Menu::new();
    m.clear_names();
    m
}

fn menu_with(n: usize) -> Menu {
    let mut m = empty_menu();
    for i in 0..n {
        m.add_name(&format!("IMG{}.BMP", i));
    }
    m
}

#[test]
fn empty_menu_screen() {
    let mut m = empty_menu();
    let elements = m.layout();
    assert_eq!(elements.len(), 4);
    assert!(matches!(
        &elements[0],
        ScreenElement::Text { text, x: 100, y: 18, font: Font::Bold, align: TextAlign::Center }
            if text == "SELECT IMAGE"
    ));
    assert!(matches!(
        &elements[1],
        ScreenElement::Text { text, x: 190, y: 18, font: Font::Small, align: TextAlign::Right }
            if text == "PAGE 0/0"
    ));
    assert!(matches!(elements[2], ScreenElement::Line { x0: 20, y0: 28, x1: 180, y1: 28 }));
    assert!(matches!(
        &elements[3],
        ScreenElement::Text { text, x: 100, y: 180, font: Font::Small, align: TextAlign::Center }
            if text == "B:Next  A:Show"
    ));
    assert_eq!(m.selected_name(), "Photo 1");
}

#[test]
fn first_page_lists_four_names_with_cursor() {
    let mut m = menu_with(6);
    let t = texts(&m.layout());
    assert_eq!(t[1].0, "PAGE 1/2");
    assert_eq!(
        &t[2..6],
        &[
            ("IMG0.BMP".to_string(), 40, 45),
            ("IMG1.BMP".to_string(), 40, 59),
            ("IMG2.BMP".to_string(), 40, 73),
            ("IMG3.BMP".to_string(), 40, 87),
        ]
    );
    assert_eq!(t.len(), 7);
    assert_eq!(m.selected_name(), "IMG0.BMP");
}

#[test]
fn next_turns_the_page_after_four() {
    let mut m = menu_with(6);
    for _ in 0..3 {
        m.next_image();
    }
    assert_eq!(m.selected_name(), "IMG3.BMP");
    assert_eq!(page_label(&mut m), "PAGE 1/2");
    m.next_image();
    assert_eq!(m.selected_name(), "IMG4.BMP");
    let t = texts(&m.layout());
    assert_eq!(t[1].0, "PAGE 2/2");
    assert_eq!(
        &t[2..4],
        &[("IMG4.BMP".to_string(), 40, 45), ("IMG5.BMP".to_string(), 40, 59)]
    );
}

#[test]
fn next_wraps_to_the_first_name_and_page() {
    let mut m = menu_with(6);
    for _ in 0..6 {
        m.next_image();
    }
    assert_eq!(m.selected_name(), "IMG0.BMP");
    assert_eq!(page_label(&mut m), "PAGE 1/2");
}

#[test]
fn next_on_empty_menu_does_nothing() {
    let mut m = empty_menu();
    m.next_image();
    assert_eq!(page_label(&mut m), "PAGE 0/0");
}

#[test]
fn menu_holds_at_most_32_names() {
    let mut m = menu_with(MAX_MENU_ITEMS);
    assert_eq!(page_label(&mut m), "PAGE 1/8");
    m.add_name("EXTRA.BMP");
    for _ in 0..31 {
        m.next_image();
    }
    assert_eq!(m.selected_name(), "IMG31.BMP");
    assert_eq!(page_label(&mut m), "PAGE 8/8");
    m.next_image();
    assert_eq!(m.selected_name(), "IMG0.BMP");
}

#[test]
fn names_longer_than_13_bytes_are_stored_empty() {
    let mut m = empty_menu();
    m.add_name("ABCDEFGHIJKLM");
    assert_eq!(m.selected_name(), "ABCDEFGHIJKLM");
    m.clear_names();
    m.add_name("ABCDEFGHIJKLMN");
    assert_eq!(m.selected_name(), "");
    m.clear_names();
    // 'é' takes two bytes: six of them fill 12 bytes, seven fill 14.
    m.add_name("éééééé");
    assert_eq!(m.selected_name(), "éééééé");
    m.clear_names();
    m.add_name("ééééééX");
    assert_eq!(m.selected_name(), "ééééééX");
    m.clear_names();
    m.add_name("ééééééé");
    assert_eq!(m.selected_name(), "");
}

#[test]
fn clear_names_starts_over() {
    let mut m = menu_with(5);
    m.next_image();
    m.next_image();
    m.clear_names();
    assert_eq!(page_label(&mut m), "PAGE 0/0");
    m.add_name("NEW.BMP");
    assert_eq!(m.selected_name(), "NEW.BMP");
    assert_eq!(page_label(&mut m), "PAGE 1/1");
}

#[test]
fn selected_name_after_clear_is_the_old_first_slot() {
    let mut m = menu_with(2);
    m.clear_names();
    assert_eq!(m.selected_name(), "IMG0.BMP");
}

fn pixel(frame: &[u8], x: usize, y: usize) -> bool {
    let i = y * 200 + x;
    frame[i / 8] & (0x80 >> (i % 8)) != 0
}

#[test]
fn draw_menu_clears_the_frame_and_draws_the_screen() {
    let mut m = menu_with(2);
    m.framebuffer_mut().clear(frame::graphics::BinaryColor::On);
    assert!(m.framebuffer().buffer().iter().all(|&b| b == 0xFF));
    let frame = m.draw_menu().to_vec();
    assert_eq!(frame, m.framebuffer().buffer().to_vec());
    // The rule under the title runs from x = 20 to x = 180 on row 28.
    assert!(pixel(&frame, 20, 28));
    assert!(pixel(&frame, 100, 28));
    assert!(pixel(&frame, 180, 28));
    assert!(!pixel(&frame, 19, 28));
    assert!(!pixel(&frame, 181, 28));
    // Below the button help nothing is drawn.
    assert!(frame[190 * 25..].iter().all(|&b| b == 0));
    // The title and the names put some pixels on above the help.
    assert!(frame[..28 * 25].iter().any(|&b| b != 0));
    assert!(frame[36 * 25..60 * 25].iter().any(|&b| b != 0));
}

#[test]
fn cursor_moves_with_the_selection() {
    let mut m = menu_with(2);
    let first = m.draw_menu().to_vec();
    m.next_image();
    let second = m.draw_menu().to_vec();
    // The cursor sits left of x = 40, on the selected row.
    let cursor_pixels = |f: &[u8], top: usize| -> usize {
        (top..top + 12)
            .map(|y| (20..38).filter(|&x| pixel(f, x, y)).count())
            .sum()
    };
    assert!(cursor_pixels(&first, 35) > 0);
    assert_eq!(cursor_pixels(&first, 49), 0);
    assert_eq!(cursor_pixels(&second, 35), 0);
    assert!(cursor_pixels(&second, 49) > 0);
}

#[test]
fn start_up_menu_lists_the_built_in_images() {
    let mut m = Menu::new();
    assert_eq!(m.selected_name(), "Photo 1");
    let t = texts(&m.layout());
    assert_eq!(t[0].0, "SELECT IMAGE");
    assert_eq!(t[1].0, "PAGE 1/1");
    assert_eq!(
        &t[2..4],
        &[("Photo 1".to_string(), 40, 45), ("Photo 2".to_string(), 40, 59)]
    );
    assert_eq!(t[4].0, "B:Next  A:Show");
    assert_eq!(t.len(), 5);
    m.next_image();
    assert_eq!(m.selected_name(), "Photo 2");
    m.next_image();
    assert_eq!(m.selected_name(), "Photo 1");
}

fn lines(elements: &[ScreenElement]) -> Vec<(i32, i32, i32, i32)> {
    elements
        .iter()
        .filter_map(|e| match e {
            ScreenElement::Line { x0, y0, x1, y1 } => Some((*x0, *y0, *x1, *y1)),
            _ => None,
        })
        .collect()
}

#[test]
fn cursor_is_a_triangle_before_the_selected_row() {
    let mut m = menu_with(3);
    m.next_image();
    let l = lines(&m.layout());
    // The rule, then the cursor's four columns on the row with baseline 59.
    assert_eq!(
        l,
        vec![(20, 28, 180, 28), (25, 52, 25, 58), (26, 53, 26, 57), (27, 54, 27, 56), (28, 55, 28, 55)]
    );
    let frame = m.draw_menu().to_vec();
    for (x, top, bottom) in [(25, 52, 58), (26, 53, 57), (27, 54, 56), (28, 55, 55)] {
        for y in 45..70 {
            assert_eq!(pixel(&frame, x, y), top <= y && y <= bottom, "pixel ({}, {})", x, y);
        }
    }
    assert!(!pixel(&frame, 29, 55));
    assert!(!pixel(&frame, 24, 55));
}
