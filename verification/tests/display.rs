use frame::display::{BusOp, Yrd0150Display};

type Display = Yrd0150Display<u8, u8, u8, u8, u8, u32>;

fn display() -> Display {
    Yrd0150Display::new(1, 2, 3, 4, 5, 6)
}

/// The bytes the panel takes in: (is data, byte), for writes while chip select is low.
fn received(ops: &[BusOp]) -> Vec<(bool, u8)> {
    let mut selected = false;
    let mut data = false;
    let mut out = Vec::new();
    for op in ops {
        match op {
            BusOp::SetCs(high) => selected = !*high,
            BusOp::SetDc(high) => data = *high,
            BusOp::SpiWrite(bytes) => {
                if selected {
                    out.extend(bytes.iter().map(|&b| (data, b)));
                }
            }
            BusOp::RepeatData { byte, count } => {
                for _ in 0..*count {
                    out.push((true, *byte));
                }
                selected = false;
                data = true;
            }
            _ => {}
        }
    }
    out
}

fn cmd(c: u8) -> (bool, u8) {
    (false, c)
}

fn dat(d: u8) -> (bool, u8) {
    (true, d)
}

#[test]
fn new_display_has_nothing_queued() {
    let mut d = display();
    assert!(d.take_ops().is_empty());
    assert_eq!(d.delay, 6);
}

#[test]
fn command_is_framed_with_dc_low() {
    let mut d = display();
    d.send_command(0x12);
    let ops = d.take_ops();
    assert_eq!(ops.len(), 4);
    assert!(matches!(ops[0], BusOp::SetCs(false)));
    assert!(matches!(ops[1], BusOp::SetDc(false)));
    assert!(matches!(&ops[2], BusOp::SpiWrite(v) if v == &vec![0x12]));
    assert!(matches!(ops[3], BusOp::SetCs(true)));
    assert!(d.take_ops().is_empty());
}

#[test]
fn data_is_framed_with_dc_high() {
    let mut d = display();
    d.send_data(0x34);
    d.send_data_block(&[1, 2, 3]);
    let ops = d.take_ops();
    assert_eq!(ops.len(), 8);
    assert!(matches!(ops[1], BusOp::SetDc(true)));
    assert!(matches!(&ops[6], BusOp::SpiWrite(v) if v == &vec![1, 2, 3]));
    assert_eq!(received(&ops), vec![dat(0x34), dat(1), dat(2), dat(3)]);
}

#[test]
fn reset_pulses_the_reset_line() {
    let mut d = display();
    d.reset();
    let ops = d.take_ops();
    assert_eq!(ops.len(), 5);
    assert!(matches!(ops[0], BusOp::SetRst(false)));
    assert!(matches!(ops[1], BusOp::DelayMs(10)));
    assert!(matches!(ops[2], BusOp::SetRst(true)));
    assert!(matches!(ops[3], BusOp::DelayMs(10)));
    assert!(matches!(ops[4], BusOp::WaitUntilIdle));
}

#[test]
fn init_sends_the_datasheet_sequence() {
    let mut d = display();
    d.init();
    let ops = d.take_ops();
    assert!(matches!(ops[0], BusOp::SetRst(false)));
    assert_eq!(
        received(&ops),
        vec![
            cmd(0x0C), dat(0x8B), dat(0x9C), dat(0x96), dat(0x0F),
            cmd(0x01), dat(0xC7), dat(0x00), dat(0x00),
            cmd(0x11), dat(0x03),
            cmd(0x44), dat(0x00), dat(0x18),
            cmd(0x45), dat(0xC7), dat(0x00), dat(0x00), dat(0x00),
            cmd(0x3C), dat(0xC0),
            cmd(0x18), dat(0x80),
        ]
    );
}

#[test]
fn window_and_cursor_send_y_low_byte_first() {
    let mut d = display();
    d.set_window(1, 2, 0x0123, 0xFF07);
    d.set_cursor(9, 0x01C7);
    let ops = d.take_ops();
    assert_eq!(
        received(&ops),
        vec![
            cmd(0x44), dat(1), dat(2),
            cmd(0x45), dat(0x23), dat(0x01), dat(0x07), dat(0xFF),
            cmd(0x4E), dat(9),
            cmd(0x4F), dat(0xC7), dat(0x01),
        ]
    );
}

fn ram_write_start() -> Vec<(bool, u8)> {
    vec![
        cmd(0x44), dat(0), dat(24),
        cmd(0x45), dat(0), dat(0), dat(199), dat(0),
        cmd(0x4E), dat(0),
        cmd(0x4F), dat(0), dat(0),
        cmd(0x24),
    ]
}

#[test]
fn clear_writes_5000_bytes_of_the_colour() {
    let mut d = display();
    d.clear(0xFF);
    let ops = d.take_ops();
    assert_eq!(ops.len(), 14 * 4 + 2);
    assert!(matches!(ops[14 * 4], BusOp::RepeatData { byte: 0xFF, count: 5000 }));
    assert!(matches!(ops.last(), Some(BusOp::WaitUntilIdle)));
    let mut expected = ram_write_start();
    expected.extend(std::iter::repeat(dat(0xFF)).take(5000));
    assert_eq!(received(&ops), expected);
}

#[test]
fn write_framebuffer_sends_the_buffer_in_one_block() {
    let buffer: Vec<u8> = (0..5000).map(|i| (i % 251) as u8).collect();
    let mut d = display();
    d.write_framebuffer(&buffer);
    let ops = d.take_ops();
    assert_eq!(ops.len(), 14 * 4 + 4 + 1);
    assert!(matches!(&ops[14 * 4 + 2], BusOp::SpiWrite(v) if v == &buffer));
    let mut expected = ram_write_start();
    expected.extend(buffer.iter().map(|&b| dat(b)));
    assert_eq!(received(&ops), expected);
}

#[test]
fn clear_and_write_of_a_filled_frame_agree_at_the_panel() {
    let mut a = display();
    a.clear(0x00);
    let mut b = display();
    b.write_framebuffer(&[0u8; 5000]);
    assert_eq!(received(&a.take_ops()), received(&b.take_ops()));
}

#[test]
fn update_activates_and_waits() {
    let mut d = display();
    d.update();
    let ops = d.take_ops();
    assert_eq!(ops.len(), 13);
    assert_eq!(received(&ops), vec![cmd(0x22), dat(0xFF), cmd(0x20)]);
    assert!(matches!(ops[12], BusOp::WaitUntilIdle));
}

#[test]
fn sleep_enters_deep_sleep() {
    let mut d = display();
    d.sleep();
    let ops = d.take_ops();
    assert_eq!(received(&ops), vec![cmd(0x10), dat(0x01)]);
    assert!(matches!(ops.last(), Some(BusOp::DelayMs(100))));
}

#[test]
fn wait_until_idle_is_queued() {
    let mut d = display();
    d.wait_until_idle();
    let ops = d.take_ops();
    assert_eq!(ops.len(), 1);
    assert!(matches!(ops[0], BusOp::WaitUntilIdle));
}

#[test]
fn busy_line_readings() {
    assert!(Display::still_busy(Some(true)));
    assert!(Display::still_busy(None));
    assert!(!Display::still_busy(Some(false)));
}

#[test]
fn hardware_handles_are_reachable() {
    let mut d = display();
    d.send_command(1);
    let (spi, cs, dc, rst, busy, delay) = d.hardware();
    assert_eq!((*spi, *cs, *dc, *rst, *busy, *delay), (1, 2, 3, 4, 5, 6));
    *delay = 60;
    assert_eq!(d.delay, 60);
    assert_eq!(d.take_ops().len(), 4);
}
