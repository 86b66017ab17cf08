use vstd::prelude::*;

verus! {

/// One step of talking to the panel over its pins and the SPI bus. Levels
/// are `true` for high.
#[derive(Debug)]
pub enum BusOp {
    /// Drive chip select (active low).
    SetCs(bool),
    /// Drive data/command: low for a command, high for data.
    SetDc(bool),
    /// Drive the reset line (active low).
    SetRst(bool),
    /// Clock these bytes out on the SPI bus.
    SpiWrite(Vec<u8>),
    /// Wait this many milliseconds.
    DelayMs(u32),
    /// Poll the BUSY line until it reads low.
    WaitUntilIdle,
    /// Send `byte` as a data byte `count` times, each in a transaction of
    /// its own: chip select low, D/C high, the byte, chip select high.
    RepeatData { byte: u8, count: u32 },
}

/// What a `BusOp` does, with the written bytes as a sequence.
pub enum BusSignal {
    Cs(bool),
    Dc(bool),
    Rst(bool),
    Write(Seq<u8>),
    Delay(u32),
    WaitIdle,
}

/// What a `BusOp` does, as signals.
pub open spec fn op_signals(op: BusOp) -> Seq<BusSignal> {
    match op {
        BusOp::SetCs(b) => seq![BusSignal::Cs(b)],
        BusOp::SetDc(b) => seq![BusSignal::Dc(b)],
        BusOp::SetRst(b) => seq![BusSignal::Rst(b)],
        BusOp::SpiWrite(v) => seq![BusSignal::Write(v@)],
        BusOp::DelayMs(ms) => seq![BusSignal::Delay(ms)],
        BusOp::WaitUntilIdle => seq![BusSignal::WaitIdle],
        BusOp::RepeatData { byte, count } => data_bytes_signals(
            Seq::new(count as nat, |i: int| byte),
        ),
    }
}

/// What a list of operations does, in order.
pub open spec fn signals_of(ops: Seq<BusOp>) -> Seq<BusSignal>
    decreases ops.len(),
{
    if ops.len() == 0 {
        Seq::empty()
    } else {
        signals_of(ops.drop_last()) + op_signals(ops.last())
    }
}

/// One command byte: chip selected, D/C low, the byte, chip released.
pub open spec fn command_signals(command: u8) -> Seq<BusSignal> {
    seq![BusSignal::Cs(false), BusSignal::Dc(false), BusSignal::Write(seq![command]), BusSignal::Cs(true)]
}

/// One data byte: chip selected, D/C high, the byte, chip released.
pub open spec fn data_signals(data: u8) -> Seq<BusSignal> {
    seq![BusSignal::Cs(false), BusSignal::Dc(true), BusSignal::Write(seq![data]), BusSignal::Cs(true)]
}

/// A block of data bytes in one write: chip selected, D/C high, the bytes, chip released.
pub open spec fn data_block_signals(data: Seq<u8>) -> Seq<BusSignal> {
    seq![BusSignal::Cs(false), BusSignal::Dc(true), BusSignal::Write(data), BusSignal::Cs(true)]
}

/// Each byte of `data` sent as a data byte of its own, in order.
pub open spec fn data_bytes_signals(data: Seq<u8>) -> Seq<BusSignal>
    decreases data.len(),
{
    if data.len() == 0 {
        Seq::empty()
    } else {
        data_bytes_signals(data.drop_last()) + data_signals(data.last())
    }
}

/// A command followed by its parameters, each sent as a data byte.
pub open spec fn command_with_data(command: u8, data: Seq<u8>) -> Seq<BusSignal> {
    command_signals(command) + data_bytes_signals(data)
}

/// Low byte of a 16-bit value.
pub open spec fn low_byte(v: u16) -> u8 {
    (v % 256) as u8
}

/// High byte of a 16-bit value.
pub open spec fn high_byte(v: u16) -> u8 {
    (v / 256) as u8
}

/// Hardware reset: reset low for 10 ms, high for 10 ms, then wait for BUSY to drop.
pub open spec fn reset_signals() -> Seq<BusSignal> {
    seq![
        BusSignal::Rst(false),
        BusSignal::Delay(10),
        BusSignal::Rst(true),
        BusSignal::Delay(10),
        BusSignal::WaitIdle,
    ]
}

/// The RAM window: X from `x_start` to `x_end` (in bytes of 8 pixels), Y from
/// `y_start` to `y_end`, each Y value sent low byte first.
pub open spec fn window_signals(x_start: u8, x_end: u8, y_start: u16, y_end: u16) -> Seq<
    BusSignal,
> {
    command_with_data(0x44, seq![x_start, x_end]) + command_with_data(
        0x45,
        seq![low_byte(y_start), high_byte(y_start), low_byte(y_end), high_byte(y_end)],
    )
}

/// The RAM address counters: X, then Y low byte first.
pub open spec fn cursor_signals(x: u8, y: u16) -> Seq<BusSignal> {
    command_with_data(0x4E, seq![x]) + command_with_data(0x4F, seq![low_byte(y), high_byte(y)])
}

/// The power-on set-up, after a hardware reset: booster soft start, driver
/// output for gates 0 to 199, X and Y incrementing, RAM X 0 to 24 and Y 199
/// to 0, border as high impedance, internal temperature sensor.
pub open spec fn init_signals() -> Seq<BusSignal> {
    reset_signals() + command_with_data(0x0C, seq![0x8Bu8, 0x9Cu8, 0x96u8, 0x0Fu8])
        + command_with_data(0x01, seq![0xC7u8, 0x00u8, 0x00u8]) + command_with_data(
        0x11,
        seq![0x03u8],
    ) + command_with_data(0x44, seq![0x00u8, 0x18u8]) + command_with_data(
        0x45,
        seq![0xC7u8, 0x00u8, 0x00u8, 0x00u8],
    ) + command_with_data(0x3C, seq![0xC0u8]) + command_with_data(0x18, seq![0x80u8])
}

/// The full-screen window and the cursor at its origin, then the command that
/// writes the black/white RAM.
pub open spec fn ram_write_start_signals() -> Seq<BusSignal> {
    window_signals(0, 24, 0, 199) + cursor_signals(0, 0) + command_signals(0x24)
}

/// Filling the whole RAM (5000 bytes) with `color`, byte by byte.
pub open spec fn clear_signals(color: u8) -> Seq<BusSignal> {
    ram_write_start_signals() + data_bytes_signals(Seq::new(5000, |i: int| color)) + seq![
        BusSignal::WaitIdle,
    ]
}

/// Writing `buffer` to the RAM in one block.
pub open spec fn framebuffer_signals(buffer: Seq<u8>) -> Seq<BusSignal> {
    ram_write_start_signals() + data_block_signals(buffer) + seq![BusSignal::WaitIdle]
}

/// Display update: all stages enabled, master activation, wait for BUSY to drop.
pub open spec fn update_signals() -> Seq<BusSignal> {
    command_with_data(0x22, seq![0xFFu8]) + command_signals(0x20) + seq![BusSignal::WaitIdle]
}

/// Deep sleep mode 1, then 100 ms.
pub open spec fn sleep_signals() -> Seq<BusSignal> {
    command_with_data(0x10, seq![0x01u8]) + seq![BusSignal::Delay(100)]
}

/// Appending one byte to a list of data bytes appends its transaction.
pub proof fn lemma_data_bytes_push(data: Seq<u8>, d: u8)
    ensures
        data_bytes_signals(data.push(d)) == data_bytes_signals(data) + data_signals(d),
{
    assert(data.push(d).drop_last() =~= data);
}

/// A short parameter list unfolds into one transaction per byte.
pub proof fn lemma_data_bytes_short(a: u8, b: u8, c: u8, d: u8)
    ensures
        data_bytes_signals(seq![a]) == data_signals(a),
        data_bytes_signals(seq![a, b]) == data_signals(a) + data_signals(b),
        data_bytes_signals(seq![a, b, c]) == data_signals(a) + data_signals(b) + data_signals(c),
        data_bytes_signals(seq![a, b, c, d]) == data_signals(a) + data_signals(b) + data_signals(c)
            + data_signals(d),
{
    lemma_data_bytes_push(Seq::empty(), a);
    assert(Seq::<u8>::empty().push(a) =~= seq![a]);
    assert(data_bytes_signals(Seq::<u8>::empty()) + data_signals(a) =~= data_signals(a));
    lemma_data_bytes_push(seq![a], b);
    assert(seq![a].push(b) =~= seq![a, b]);
    lemma_data_bytes_push(seq![a, b], c);
    assert(seq![a, b].push(c) =~= seq![a, b, c]);
    lemma_data_bytes_push(seq![a, b, c], d);
    assert(seq![a, b, c].push(d) =~= seq![a, b, c, d]);
}

/// Sending data bytes never drives the reset line.
proof fn lemma_data_bytes_keep_reset(data: Seq<u8>)
    ensures
        forall|i: int|
            0 <= i < data_bytes_signals(data).len() ==> !(#[trigger] data_bytes_signals(data)[i] is Rst),
    decreases data.len(),
{
    if data.len() > 0 {
        lemma_data_bytes_keep_reset(data.drop_last());
        let a = data_bytes_signals(data.drop_last());
        let b = data_signals(data.last());
        assert forall|i: int| 0 <= i < (a + b).len() implies !(#[trigger] (a + b)[i] is Rst) by {
            if i < a.len() {
                assert((a + b)[i] == a[i]);
            } else {
                assert((a + b)[i] == b[i - a.len()]);
            }
        }
    }
}

/// Appending a command and its data to signals that leave the reset line
/// alone from index 5 on keeps them so.
proof fn lemma_append_command_keeps_reset(s: Seq<BusSignal>, command: u8, data: Seq<u8>)
    requires
        s.len() >= 5,
        forall|i: int| 5 <= i < s.len() ==> !(#[trigger] s[i] is Rst),
    ensures
        forall|i: int|
            5 <= i < (s + command_with_data(command, data)).len() ==> !(#[trigger] (s
                + command_with_data(command, data))[i] is Rst),
{
    lemma_data_bytes_keep_reset(data);
    let c = command_signals(command);
    let d = data_bytes_signals(data);
    let t = s + command_with_data(command, data);
    assert forall|i: int| 5 <= i < t.len() implies !(#[trigger] t[i] is Rst) by {
        if i < s.len() {
            assert(t[i] == s[i]);
        } else if i < s.len() + c.len() {
            assert(t[i] == c[i - s.len()]);
        } else {
            assert(t[i] == d[i - s.len() - c.len()]);
        }
    }
}

/// Initialisation starts with the reset pulse: reset driven low, 10 ms,
/// driven high (released), 10 ms, then a wait for BUSY. After that the reset
/// line is never driven again, so it stays released for every command and
/// data byte that follows.
pub proof fn lemma_init_releases_reset()
    ensures
        init_signals().len() >= 5,
        init_signals().take(5) == seq![
            BusSignal::Rst(false),
            BusSignal::Delay(10),
            BusSignal::Rst(true),
            BusSignal::Delay(10),
            BusSignal::WaitIdle,
        ],
        forall|i: int| 5 <= i < init_signals().len() ==> !(#[trigger] init_signals()[i] is Rst),
{
    let s0 = reset_signals();
    let s1 = s0 + command_with_data(0x0C, seq![0x8Bu8, 0x9Cu8, 0x96u8, 0x0Fu8]);
    lemma_append_command_keeps_reset(s0, 0x0C, seq![0x8Bu8, 0x9Cu8, 0x96u8, 0x0Fu8]);
    let s2 = s1 + command_with_data(0x01, seq![0xC7u8, 0x00u8, 0x00u8]);
    lemma_append_command_keeps_reset(s1, 0x01, seq![0xC7u8, 0x00u8, 0x00u8]);
    let s3 = s2 + command_with_data(0x11, seq![0x03u8]);
    lemma_append_command_keeps_reset(s2, 0x11, seq![0x03u8]);
    let s4 = s3 + command_with_data(0x44, seq![0x00u8, 0x18u8]);
    lemma_append_command_keeps_reset(s3, 0x44, seq![0x00u8, 0x18u8]);
    let s5 = s4 + command_with_data(0x45, seq![0xC7u8, 0x00u8, 0x00u8, 0x00u8]);
    lemma_append_command_keeps_reset(s4, 0x45, seq![0xC7u8, 0x00u8, 0x00u8, 0x00u8]);
    let s6 = s5 + command_with_data(0x3C, seq![0xC0u8]);
    lemma_append_command_keeps_reset(s5, 0x3C, seq![0xC0u8]);
    let s7 = s6 + command_with_data(0x18, seq![0x80u8]);
    lemma_append_command_keeps_reset(s6, 0x18, seq![0x80u8]);
    assert(s7 == init_signals());
    assert(s7.take(5) =~= s0);
}

/// Signals that end with the initialisation sequence hold its reset pulse
/// and no later reset signal.
proof fn lemma_init_after(s0: Seq<BusSignal>, s: Seq<BusSignal>)
    requires
        s == s0 + init_signals(),
    ensures
        s.subrange(s0.len() as int, s0.len() + 5int) == seq![
            BusSignal::Rst(false),
            BusSignal::Delay(10),
            BusSignal::Rst(true),
            BusSignal::Delay(10),
            BusSignal::WaitIdle,
        ],
        forall|i: int| s0.len() + 5 <= i < s.len() ==> !(#[trigger] s[i] is Rst),
{
    lemma_init_releases_reset();
    let t = init_signals();
    assert(s.subrange(s0.len() as int, s0.len() + 5int) =~= t.take(5));
    assert forall|i: int| s0.len() + 5 <= i < s.len() implies !(#[trigger] s[i] is Rst) by {
        assert(s[i] == t[i - s0.len()]);
    }
}

/// The two bytes sent for a 16-bit value give the value back.
pub proof fn lemma_bytes_of_u16(v: u16)
    ensures
        low_byte(v) + 256 * high_byte(v) == v,
{
}

proof fn lemma_split_u16(v: u16)
    ensures
        (v & 0xFF) as u8 == low_byte(v),
        ((v >> 8) & 0xFF) as u8 == high_byte(v),
{
    assert((v & 0xFF) == v % 256) by (bit_vector);
    assert(((v >> 8) & 0xFF) == v / 256) by (bit_vector);
}

/// Driver for the YRD0150 200 x 200 e-paper panel. It holds the hardware
/// handles and queues, in order, the bus operations that its methods decide
/// on; whoever owns the hardware carries them out.
pub struct Yrd0150Display<SPI, CS, DC, RST, BUSY, DELAY> {
    spi: SPI,
    cs: CS,
    dc: DC,
    rst: RST,
    busy: BUSY,
    pub delay: DELAY,
    ops: Vec<BusOp>,
}

impl<SPI, CS, DC, RST, BUSY, DELAY> Yrd0150Display<SPI, CS, DC, RST, BUSY, DELAY> {
    /// The operations queued and not yet taken, as signals.
    pub closed spec fn signals(&self) -> Seq<BusSignal> {
        signals_of(self.ops@)
    }

    /// The hardware handles.
    pub closed spec fn parts(&self) -> (SPI, CS, DC, RST, BUSY, DELAY) {
        (self.spi, self.cs, self.dc, self.rst, self.busy, self.delay)
    }

    /// A driver for the given hardware, with nothing queued.
    pub fn new(spi: SPI, cs: CS, dc: DC, rst: RST, busy: BUSY, delay: DELAY) -> (d: Self)
        ensures
            d.signals() == Seq::<BusSignal>::empty(),
            d.parts() == (spi, cs, dc, rst, busy, delay),
    {
        let d = Self { spi, cs, dc, rst, busy, delay, ops: Vec::new() };
        assert(d.signals() =~= Seq::<BusSignal>::empty());
        d
    }

    fn push_op(&mut self, op: BusOp)
        ensures
            final(self).signals() == old(self).signals() + op_signals(op),
            final(self).parts() == old(self).parts(),
    {
        let ghost before = self.ops@;
        self.ops.push(op);
        assert(self.ops@.drop_last() =~= before);
    }

    /// Hands over the queued operations, oldest first, and empties the queue.
    pub fn take_ops(&mut self) -> (ops: Vec<BusOp>)
        ensures
            signals_of(ops@) == old(self).signals(),
            final(self).signals() == Seq::<BusSignal>::empty(),
            final(self).parts() == old(self).parts(),
    {
        let mut ops: Vec<BusOp> = Vec::new();
        core::mem::swap(&mut ops, &mut self.ops);
        assert(final(self).signals() =~= Seq::<BusSignal>::empty());
        ops
    }

    /// Whether to keep waiting, given a reading of the BUSY line: a high
    /// level, or a failed read, counts as busy.
    pub fn still_busy(reading: Option<bool>) -> (b: bool)
        ensures
            b == (reading != Some(false)),
    {
        match reading {
            Some(high) => high,
            None => true,
        }
    }

    /// Waits until the panel no longer signals BUSY.
    pub fn wait_until_idle(&mut self)
        ensures
            final(self).signals() == old(self).signals().push(BusSignal::WaitIdle),
            final(self).parts() == old(self).parts(),
    {
        self.push_op(BusOp::WaitUntilIdle);
    }

    /// Sends one command byte.
    pub fn send_command(&mut self, command: u8)
        ensures
            final(self).signals() == old(self).signals() + command_signals(command),
            final(self).parts() == old(self).parts(),
    {
        self.push_op(BusOp::SetCs(false));
        self.push_op(BusOp::SetDc(false));
        let mut bytes: Vec<u8> = Vec::new();
        bytes.push(command);
        assert(bytes@ =~= seq![command]);
        self.push_op(BusOp::SpiWrite(bytes));
        self.push_op(BusOp::SetCs(true));
        assert(final(self).signals() =~= old(self).signals() + command_signals(command));
    }

    /// Sends one data byte.
    pub fn send_data(&mut self, data: u8)
        ensures
            final(self).signals() == old(self).signals() + data_signals(data),
            final(self).parts() == old(self).parts(),
    {
        self.push_op(BusOp::SetCs(false));
        self.push_op(BusOp::SetDc(true));
        let mut bytes: Vec<u8> = Vec::new();
        bytes.push(data);
        assert(bytes@ =~= seq![data]);
        self.push_op(BusOp::SpiWrite(bytes));
        self.push_op(BusOp::SetCs(true));
        assert(final(self).signals() =~= old(self).signals() + data_signals(data));
    }

    /// Sends a block of data bytes in one write.
    pub fn send_data_block(&mut self, data: &[u8])
        ensures
            final(self).signals() == old(self).signals() + data_block_signals(data@),
            final(self).parts() == old(self).parts(),
    {
        self.push_op(BusOp::SetCs(false));
        self.push_op(BusOp::SetDc(true));
        let bytes = vstd::slice::slice_to_vec(data);
        self.push_op(BusOp::SpiWrite(bytes));
        self.push_op(BusOp::SetCs(true));
        assert(final(self).signals() =~= old(self).signals() + data_block_signals(data@));
    }

    /// The hardware handles, to carry out the queued operations with.
    pub fn hardware(&mut self) -> (hw: (&mut SPI, &mut CS, &mut DC, &mut RST, &mut BUSY, &mut DELAY))
        ensures
            (*hw.0, *hw.1, *hw.2, *hw.3, *hw.4, *hw.5) == old(self).parts(),
            final(self).parts() == (
                *final(hw.0),
                *final(hw.1),
                *final(hw.2),
                *final(hw.3),
                *final(hw.4),
                *final(hw.5),
            ),
            final(self).signals() == old(self).signals(),
    {
        (&mut self.spi, &mut self.cs, &mut self.dc, &mut self.rst, &mut self.busy, &mut self.delay)
    }

    /// Hardware reset: reset line low for 10 ms, high for 10 ms, then wait
    /// until the panel is idle.
    pub fn reset(&mut self)
        ensures
            final(self).signals() == old(self).signals() + reset_signals(),
            final(self).parts() == old(self).parts(),
    {
        self.push_op(BusOp::SetRst(false));
        self.push_op(BusOp::DelayMs(10));
        self.push_op(BusOp::SetRst(true));
        self.push_op(BusOp::DelayMs(10));
        self.wait_until_idle();
        assert(final(self).signals() =~= old(self).signals() + reset_signals());
    }

    /// Hardware reset, then the power-on set-up that the datasheet gives.
    pub fn init(&mut self)
        ensures
            final(self).signals() == old(self).signals() + init_signals(),
            final(self).signals().subrange(
                old(self).signals().len() as int,
                old(self).signals().len() + 5int,
            ) == seq![
                BusSignal::Rst(false),
                BusSignal::Delay(10),
                BusSignal::Rst(true),
                BusSignal::Delay(10),
                BusSignal::WaitIdle,
            ],
            forall|i: int|
                old(self).signals().len() + 5 <= i < final(self).signals().len() ==> !(
                #[trigger] final(self).signals()[i] is Rst),
            final(self).parts() == old(self).parts(),
    {
        let ghost s0 = self.signals();
        proof {
            lemma_data_bytes_short(0x8B, 0x9C, 0x96, 0x0F);
            lemma_data_bytes_short(0xC7, 0x00, 0x00, 0x00);
            lemma_data_bytes_short(0x03, 0x00, 0x00, 0x00);
            lemma_data_bytes_short(0x00, 0x18, 0x00, 0x00);
            lemma_data_bytes_short(0xC0, 0x00, 0x00, 0x00);
            lemma_data_bytes_short(0x80, 0x00, 0x00, 0x00);
        }
        self.reset();

        // Booster soft start
        self.send_command(0x0C);
        self.send_data(0x8B);
        self.send_data(0x9C);
        self.send_data(0x96);
        self.send_data(0x0F);
        let ghost s1 = self.signals();
        assert(s1 =~= s0 + reset_signals() + command_with_data(
            0x0C,
            seq![0x8Bu8, 0x9Cu8, 0x96u8, 0x0Fu8],
        ));

        // Driver output control: gates 0 to 199, no scan divider
        self.send_command(0x01);
        self.send_data(0xC7);
        self.send_data(0x00);
        self.send_data(0x00);
        let ghost s2 = self.signals();
        assert(s2 =~= s1 + command_with_data(0x01, seq![0xC7u8, 0x00u8, 0x00u8]));

        // Data entry mode: Y increment, X increment
        self.send_command(0x11);
        self.send_data(0x03);
        let ghost s3 = self.signals();
        assert(s3 =~= s2 + command_with_data(0x11, seq![0x03u8]));

        // RAM X start/end: 0 to 24 (200 / 8 - 1)
        self.send_command(0x44);
        self.send_data(0x00);
        self.send_data(0x18);
        let ghost s4 = self.signals();
        assert(s4 =~= s3 + command_with_data(0x44, seq![0x00u8, 0x18u8]));

        // RAM Y start/end: 199 to 0
        self.send_command(0x45);
        self.send_data(0xC7);
        self.send_data(0x00);
        self.send_data(0x00);
        self.send_data(0x00);
        let ghost s5 = self.signals();
        assert(s5 =~= s4 + command_with_data(0x45, seq![0xC7u8, 0x00u8, 0x00u8, 0x00u8]));

        // Border waveform: VBD as high impedance
        self.send_command(0x3C);
        self.send_data(0xC0);
        let ghost s6 = self.signals();
        assert(s6 =~= s5 + command_with_data(0x3C, seq![0xC0u8]));

        // Temperature sensor: internal
        self.send_command(0x18);
        self.send_data(0x80);
        assert(self.signals() =~= s6 + command_with_data(0x18, seq![0x80u8]));
        assert(self.signals() =~= s0 + init_signals());
        proof {
            lemma_init_after(s0, self.signals());
        }
    }

    /// Sets the RAM window: X from `x_start` to `x_end`, Y from `y_start` to `y_end`.
    pub fn set_window(&mut self, x_start: u8, x_end: u8, y_start: u16, y_end: u16)
        ensures
            final(self).signals() == old(self).signals() + window_signals(
                x_start,
                x_end,
                y_start,
                y_end,
            ),
            final(self).parts() == old(self).parts(),
    {
        let ghost s0 = self.signals();
        proof {
            lemma_data_bytes_short(x_start, x_end, 0, 0);
            lemma_data_bytes_short(
                low_byte(y_start),
                high_byte(y_start),
                low_byte(y_end),
                high_byte(y_end),
            );
        }
        self.send_command(0x44);
        self.send_data(x_start);
        self.send_data(x_end);
        let ghost s1 = self.signals();
        assert(s1 =~= s0 + command_with_data(0x44, seq![x_start, x_end]));

        let y_start_low = (y_start & 0xFF) as u8;
        let y_start_high = ((y_start >> 8) & 0xFF) as u8;
        let y_end_low = (y_end & 0xFF) as u8;
        let y_end_high = ((y_end >> 8) & 0xFF) as u8;
        proof {
            lemma_split_u16(y_start);
            lemma_split_u16(y_end);
        }
        self.send_command(0x45);
        self.send_data(y_start_low);
        self.send_data(y_start_high);
        self.send_data(y_end_low);
        self.send_data(y_end_high);
        assert(self.signals() =~= s1 + command_with_data(
            0x45,
            seq![low_byte(y_start), high_byte(y_start), low_byte(y_end), high_byte(y_end)],
        ));
    }

    /// Sets the RAM address counters to `x` and `y`.
    pub fn set_cursor(&mut self, x: u8, y: u16)
        ensures
            final(self).signals() == old(self).signals() + cursor_signals(x, y),
            final(self).parts() == old(self).parts(),
    {
        let ghost s0 = self.signals();
        proof {
            lemma_data_bytes_short(x, 0, 0, 0);
            lemma_data_bytes_short(low_byte(y), high_byte(y), 0, 0);
            lemma_split_u16(y);
        }
        self.send_command(0x4E);
        self.send_data(x);
        let ghost s1 = self.signals();
        assert(s1 =~= s0 + command_with_data(0x4E, seq![x]));

        self.send_command(0x4F);
        self.send_data((y & 0xFF) as u8);
        self.send_data(((y >> 8) & 0xFF) as u8);
        assert(self.signals() =~= s1 + command_with_data(0x4F, seq![low_byte(y), high_byte(y)]));
    }

    /// Fills the whole panel RAM with `color`, one data byte at a time (queued
    /// as one repeated operation), and waits until the panel is idle.
    pub fn clear(&mut self, color: u8)
        ensures
            final(self).signals() == old(self).signals() + clear_signals(color),
            final(self).parts() == old(self).parts(),
    {
        let ghost s0 = self.signals();
        self.set_window(0, 24, 0, 199);
        self.set_cursor(0, 0);
        self.send_command(0x24);
        let ghost prefix = self.signals();
        assert(prefix =~= s0 + ram_write_start_signals());
        self.push_op(BusOp::RepeatData { byte: color, count: 5000 });
        self.wait_until_idle();
        assert(self.signals() =~= s0 + clear_signals(color));
    }

    /// Writes `buffer` into the panel RAM from the top-left corner and waits
    /// until the panel is idle.
    pub fn write_framebuffer(&mut self, buffer: &[u8])
        ensures
            final(self).signals() == old(self).signals() + framebuffer_signals(buffer@),
            final(self).parts() == old(self).parts(),
    {
        let ghost s0 = self.signals();
        self.set_window(0, 24, 0, 199);
        self.set_cursor(0, 0);
        self.send_command(0x24);
        self.send_data_block(buffer);
        self.wait_until_idle();
        assert(self.signals() =~= s0 + framebuffer_signals(buffer@));
    }

    /// Shows the RAM contents on the panel and waits until the update is done.
    pub fn update(&mut self)
        ensures
            final(self).signals() == old(self).signals() + update_signals(),
            final(self).parts() == old(self).parts(),
    {
        let ghost s0 = self.signals();
        proof {
            lemma_data_bytes_short(0xFF, 0, 0, 0);
        }
        self.send_command(0x22);
        self.send_data(0xFF);
        self.send_command(0x20);
        self.wait_until_idle();
        assert(self.signals() =~= s0 + update_signals());
    }

    /// Puts the panel into deep sleep mode 1 and waits 100 ms.
    pub fn sleep(&mut self)
        ensures
            final(self).signals() == old(self).signals() + sleep_signals(),
            final(self).parts() == old(self).parts(),
    {
        let ghost s0 = self.signals();
        proof {
            lemma_data_bytes_short(0x01, 0, 0, 0);
        }
        self.send_command(0x10);
        self.send_data(0x01);
        self.push_op(BusOp::DelayMs(100));
        assert(self.signals() =~= s0 + sleep_signals());
    }
}


/// The panel's view of the bus: whether chip select is low, so that it
/// listens, and whether D/C is high, so that bytes are data.
pub open spec fn bus_after_signal(st: (bool, bool), sig: BusSignal) -> (bool, bool) {
    match sig {
        BusSignal::Cs(high) => (!high, st.1),
        BusSignal::Dc(high) => (st.0, high),
        _ => st,
    }
}

/// The bytes the panel takes in from one signal, each marked `true` when it
/// is data and `false` when it is a command.
pub open spec fn bytes_from_signal(st: (bool, bool), sig: BusSignal) -> Seq<(bool, u8)> {
    match sig {
        BusSignal::Write(bytes) => if st.0 {
            bytes.map_values(|b: u8| (st.1, b))
        } else {
            Seq::empty()
        },
        _ => Seq::empty(),
    }
}

/// The panel's view of the bus after `sigs`, starting from `st`.
pub open spec fn bus_after(sigs: Seq<BusSignal>, st: (bool, bool)) -> (bool, bool)
    decreases sigs.len(),
{
    if sigs.len() == 0 {
        st
    } else {
        bus_after_signal(bus_after(sigs.drop_last(), st), sigs.last())
    }
}

/// The bytes the panel takes in during `sigs`, starting from `st`.
pub open spec fn received(sigs: Seq<BusSignal>, st: (bool, bool)) -> Seq<(bool, u8)>
    decreases sigs.len(),
{
    if sigs.len() == 0 {
        Seq::empty()
    } else {
        received(sigs.drop_last(), st) + bytes_from_signal(
            bus_after(sigs.drop_last(), st),
            sigs.last(),
        )
    }
}

/// Bytes as data, as the panel takes them in.
pub open spec fn as_data(bytes: Seq<u8>) -> Seq<(bool, u8)> {
    bytes.map_values(|b: u8| (true, b))
}

/// A command and its parameters, as the panel takes them in.
pub open spec fn command_stream(command: u8, data: Seq<u8>) -> Seq<(bool, u8)> {
    seq![(false, command)] + as_data(data)
}

/// What the panel takes in while the full-screen window and the cursor are
/// set and RAM writing starts.
pub open spec fn ram_write_start_stream() -> Seq<(bool, u8)> {
    command_stream(0x44, seq![0u8, 24u8]) + command_stream(0x45, seq![0u8, 0u8, 199u8, 0u8])
        + command_stream(0x4E, seq![0u8]) + command_stream(0x4F, seq![0u8, 0u8]) + seq![
        (false, 0x24u8),
    ]
}

/// What the panel takes in during `a` then `b` is what it takes in during
/// `a`, then during `b` from where `a` left it.
pub proof fn lemma_received_concat(a: Seq<BusSignal>, b: Seq<BusSignal>, st: (bool, bool))
    ensures
        received(a + b, st) == received(a, st) + received(b, bus_after(a, st)),
        bus_after(a + b, st) == bus_after(b, bus_after(a, st)),
    decreases b.len(),
{
    if b.len() == 0 {
        assert(a + b =~= a);
        assert(received(a, st) + received(b, bus_after(a, st)) =~= received(a, st));
    } else {
        lemma_received_concat(a, b.drop_last(), st);
        assert((a + b).drop_last() =~= a + b.drop_last());
        assert((a + b).last() == b.last());
    }
}

/// One transaction of four signals, as the panel takes it in.
proof fn lemma_transaction(dc: bool, bytes: Seq<u8>, st: (bool, bool))
    ensures
        received(
            seq![BusSignal::Cs(false), BusSignal::Dc(dc), BusSignal::Write(bytes), BusSignal::Cs(true)],
            st,
        ) == bytes.map_values(|b: u8| (dc, b)),
        bus_after(
            seq![BusSignal::Cs(false), BusSignal::Dc(dc), BusSignal::Write(bytes), BusSignal::Cs(true)],
            st,
        ) == (false, dc),
{
    let s4 = seq![BusSignal::Cs(false), BusSignal::Dc(dc), BusSignal::Write(bytes), BusSignal::Cs(true)];
    let s3 = seq![BusSignal::Cs(false), BusSignal::Dc(dc), BusSignal::Write(bytes)];
    let s2 = seq![BusSignal::Cs(false), BusSignal::Dc(dc)];
    let s1 = seq![BusSignal::Cs(false)];
    assert(s4.drop_last() =~= s3);
    assert(s3.drop_last() =~= s2);
    assert(s2.drop_last() =~= s1);
    assert(s1.drop_last() =~= Seq::<BusSignal>::empty());
    reveal_with_fuel(received, 5);
    reveal_with_fuel(bus_after, 5);
    assert(received(s4, st) =~= bytes.map_values(|b: u8| (dc, b)));
}

/// Data bytes sent one by one reach the panel as data, in order.
proof fn lemma_data_bytes_received(data: Seq<u8>, st: (bool, bool))
    ensures
        received(data_bytes_signals(data), st) == as_data(data),
        data.len() > 0 ==> bus_after(data_bytes_signals(data), st) == (false, true),
        data.len() == 0 ==> bus_after(data_bytes_signals(data), st) == st,
    decreases data.len(),
{
    if data.len() == 0 {
        assert(as_data(data) =~= Seq::<(bool, u8)>::empty());
    } else {
        lemma_data_bytes_received(data.drop_last(), st);
        let st1 = bus_after(data_bytes_signals(data.drop_last()), st);
        lemma_received_concat(
            data_bytes_signals(data.drop_last()),
            data_signals(data.last()),
            st,
        );
        lemma_transaction(true, seq![data.last()], st1);
        assert(seq![data.last()].map_values(|b: u8| (true, b)) =~= seq![(true, data.last())]);
        assert(as_data(data) =~= as_data(data.drop_last()) + seq![(true, data.last())]);
    }
}

/// A command with its parameters reaches the panel as the command byte, then
/// the parameters as data.
proof fn lemma_command_with_data_received(command: u8, data: Seq<u8>, st: (bool, bool))
    requires
        data.len() > 0,
    ensures
        received(command_with_data(command, data), st) == command_stream(command, data),
        bus_after(command_with_data(command, data), st) == (false, true),
{
    lemma_received_concat(command_signals(command), data_bytes_signals(data), st);
    lemma_transaction(false, seq![command], st);
    assert(seq![command].map_values(|b: u8| (false, b)) =~= seq![(false, command)]);
    lemma_data_bytes_received(data, (false, false));
}

/// What the panel takes in while RAM writing is set up, from any bus state.
proof fn lemma_ram_write_start_received(st: (bool, bool))
    ensures
        received(ram_write_start_signals(), st) == ram_write_start_stream(),
        bus_after(ram_write_start_signals(), st) == (false, false),
{
    let w1 = command_with_data(0x44, seq![0u8, 24u8]);
    let w2 = command_with_data(0x45, seq![low_byte(0), high_byte(0), low_byte(199), high_byte(199)]);
    let c1 = command_with_data(0x4E, seq![0u8]);
    let c2 = command_with_data(0x4F, seq![low_byte(0), high_byte(0)]);
    let last = command_signals(0x24);
    assert(seq![low_byte(0), high_byte(0), low_byte(199), high_byte(199)] =~= seq![
        0u8,
        0u8,
        199u8,
        0u8,
    ]);
    assert(seq![low_byte(0), high_byte(0)] =~= seq![0u8, 0u8]);
    assert(ram_write_start_signals() =~= w1 + w2 + c1 + c2 + last);
    lemma_command_with_data_received(0x44, seq![0u8, 24u8], st);
    lemma_command_with_data_received(0x45, seq![0u8, 0u8, 199u8, 0u8], (false, true));
    lemma_command_with_data_received(0x4E, seq![0u8], (false, true));
    lemma_command_with_data_received(0x4F, seq![0u8, 0u8], (false, true));
    lemma_transaction(false, seq![0x24u8], (false, true));
    assert(seq![0x24u8].map_values(|b: u8| (false, b)) =~= seq![(false, 0x24u8)]);
    lemma_received_concat(w1, w2, st);
    lemma_received_concat(w1 + w2, c1, st);
    lemma_received_concat(w1 + w2 + c1, c2, st);
    lemma_received_concat(w1 + w2 + c1 + c2, last, st);
    assert(received(ram_write_start_signals(), st) =~= ram_write_start_stream());
}

/// `write_framebuffer(buffer)` makes the panel take in the full-screen window,
/// the cursor at the origin, the Write RAM command, and then exactly the
/// bytes of `buffer`, as data.
pub proof fn lemma_framebuffer_received(buffer: Seq<u8>, st: (bool, bool))
    ensures
        received(framebuffer_signals(buffer), st) == ram_write_start_stream() + as_data(buffer),
{
    let start = ram_write_start_signals();
    let block = data_block_signals(buffer);
    let tail = seq![BusSignal::WaitIdle];
    lemma_ram_write_start_received(st);
    lemma_transaction(true, buffer, (false, false));
    lemma_received_concat(start, block, st);
    lemma_received_concat(start + block, tail, st);
    assert(tail.drop_last() =~= Seq::<BusSignal>::empty());
    reveal_with_fuel(received, 2);
    assert(received(tail, (false, true)) =~= Seq::<(bool, u8)>::empty());
    assert(received(framebuffer_signals(buffer), st) =~= ram_write_start_stream() + as_data(
        buffer,
    ));
}

/// `clear(color)` makes the panel take in what `write_framebuffer` does for a
/// frame of 5000 bytes that all equal `color`: the two differ only in
/// sending the bytes one by one rather than in one block.
pub proof fn lemma_clear_is_filled_framebuffer(color: u8, st: (bool, bool))
    ensures
        received(clear_signals(color), st) == received(
            framebuffer_signals(Seq::new(5000, |i: int| color)),
            st,
        ),
        received(clear_signals(color), st) == ram_write_start_stream() + as_data(
            Seq::new(5000, |i: int| color),
        ),
{
    let fill = Seq::new(5000, |i: int| color);
    let start = ram_write_start_signals();
    let bytes = data_bytes_signals(fill);
    let tail = seq![BusSignal::WaitIdle];
    lemma_ram_write_start_received(st);
    lemma_data_bytes_received(fill, (false, false));
    lemma_received_concat(start, bytes, st);
    lemma_received_concat(start + bytes, tail, st);
    assert(tail.drop_last() =~= Seq::<BusSignal>::empty());
    reveal_with_fuel(received, 2);
    assert(received(tail, (false, true)) =~= Seq::<(bool, u8)>::empty());
    assert(received(clear_signals(color), st) =~= ram_write_start_stream() + as_data(fill));
    lemma_framebuffer_received(fill, st);
}

} // verus!
