use vstd::prelude::*;

verus! {

/// What to do for a full-duplex read.
#[derive(Clone, Copy, PartialEq, Eq, Debug, Structural)]
pub enum ReadStep {
    /// A byte is already at hand: return it without clocking the bus.
    Ready(u8),
    /// Clock this byte out and return the byte clocked in.
    Transfer(u8),
}

/// What a read does when `pending` is the byte kept from the last send.
pub open spec fn read_step_for(pending: Option<u8>) -> ReadStep {
    match pending {
        Some(byte) => ReadStep::Ready(byte),
        None => ReadStep::Transfer(0xFF),
    }
}

/// Adapts a blocking SPI bus, where every write clocks a byte in as well, to
/// a full-duplex send/read interface: the byte clocked in by a send is kept,
/// and the next read returns it instead of clocking the bus again.
pub struct SpiFullDuplex<SPI> {
    spi: SPI,
    pending_read: Option<u8>,
}

impl<SPI> SpiFullDuplex<SPI> {
    /// The byte kept from the last send, if a read has not taken it yet.
    pub closed spec fn pending(&self) -> Option<u8> {
        self.pending_read
    }

    /// The bus.
    pub closed spec fn bus(&self) -> SPI {
        self.spi
    }

    /// An adapter over `spi` with no byte kept.
    pub fn new(spi: SPI) -> (a: Self)
        ensures
            a.bus() == spi,
            a.pending() == None::<u8>,
    {
        Self { spi, pending_read: None }
    }

    /// Decides a read: the kept byte, which is then used up, or else a
    /// transfer of `0xFF`.
    pub fn begin_read(&mut self) -> (step: ReadStep)
        ensures
            step == read_step_for(old(self).pending()),
            final(self).pending() == None::<u8>,
            final(self).bus() == old(self).bus(),
    {
        match self.pending_read.take() {
            Some(byte) => ReadStep::Ready(byte),
            None => ReadStep::Transfer(0xFF),
        }
    }

    /// Records the byte clocked in while a send clocked its word out, for the
    /// next read.
    pub fn finish_send(&mut self, received: u8)
        ensures
            final(self).pending() == Some(received),
            final(self).bus() == old(self).bus(),
    {
        self.pending_read = Some(received);
    }

    /// The bus, to carry out transfers on.
    pub fn bus_mut(&mut self) -> (spi: &mut SPI)
        ensures
            *spi == old(self).bus(),
            final(self).bus() == *final(spi),
            final(self).pending() == old(self).pending(),
    {
        &mut self.spi
    }
}

/// A read that follows a send returns the byte that the send clocked in, and
/// only the read after that clocks the bus again.
pub proof fn lemma_read_after_send(received: u8)
    ensures
        read_step_for(Some(received)) == ReadStep::Ready(received),
        read_step_for(None) == ReadStep::Transfer(0xFF),
{
}

/// A date and time for the filesystem, counted as on a FAT volume.
#[derive(Clone, Copy, PartialEq, Eq, Debug, Structural)]
pub struct Timestamp {
    pub year_since_1970: u8,
    pub zero_indexed_month: u8,
    pub zero_indexed_day: u8,
    pub hours: u8,
    pub minutes: u8,
    pub seconds: u8,
}

/// A clock that always reads midnight, 1 January 2026: the board has no
/// real-time clock, so files written get this time.
pub struct FixedTimeSource;

impl FixedTimeSource {
    /// The fixed time: 2026-01-01 00:00:00.
    pub fn get_timestamp(&self) -> (t: Timestamp)
        ensures
            t == (Timestamp {
                year_since_1970: 56,
                zero_indexed_month: 0,
                zero_indexed_day: 0,
                hours: 0,
                minutes: 0,
                seconds: 0,
            }),
    {
        Timestamp {
            year_since_1970: 56,
            zero_indexed_month: 0,
            zero_indexed_day: 0,
            hours: 0,
            minutes: 0,
            seconds: 0,
        }
    }
}

} // verus!
