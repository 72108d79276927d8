//! IEEE 488.2 status registers.
//!
//! The standard event register (ESR) accumulates which families of problem
//! have occurred. The status byte (STB) summarises the whole: its bit 5 is on
//! when some *enabled* event of the ESR is active, and its bit 6 is on when
//! any enabled summary is active. That cascade lets a client check a single
//! byte to know whether it is worth looking further.
use vstd::prelude::*;

pub mod esr;
pub mod stb;

verus! {

/// The abstract content of the status registers.
pub struct StatusView {
    /// Events that occurred since the last read.
    pub event: u8,
    /// Which events propagate to the summary (`*ESE`).
    pub event_enable: u8,
    /// Which summaries request service (`*SRE`).
    pub service_enable: u8,
}

/// The single bit `bit` of a byte.
pub open spec fn bit_mask(bit: u8) -> u8 {
    (1u8 << bit) as u8
}

/// The low bits of the status byte: error queue, message available and
/// event summary.
pub open spec fn summary_bits(v: StatusView, errors: bool, answer: bool) -> u8 {
    (if errors { 4u8 } else { 0u8 }) | (if answer { 16u8 } else { 0u8 }) | (if v.event & v.event_enable
        != 0 { 32u8 } else { 0u8 })
}

/// The status byte, the answer to `*STB?`: the summaries, plus bit 6 when one
/// of them is also enabled for service.
pub open spec fn status_byte_of(v: StatusView, errors: bool, answer: bool) -> u8 {
    let low = summary_bits(v, errors, answer);
    low | (if low & v.service_enable != 0 { 64u8 } else { 0u8 })
}

/// The status registers of an instrument.
#[derive(Debug, Default)]
pub struct StatusModel {
    event: u8,
    event_enable: u8,
    service_enable: u8,
}

impl View for StatusModel {
    type V = StatusView;

    closed spec fn view(&self) -> StatusView {
        StatusView { event: self.event, event_enable: self.event_enable, service_enable: self.service_enable }
    }
}

impl StatusModel {
    /// The registers at power-on: only the power-on event, nothing enabled.
    pub fn new() -> (r: Self)
        ensures
            r@ == (StatusView { event: bit_mask(esr::POWER_ON), event_enable: 0, service_enable: 0 }),
    {
        let mut s = StatusModel { event: 0, event_enable: 0, service_enable: 0 };
        s.set_event(esr::POWER_ON);
        assert(0u8 | bit_mask(7) == bit_mask(7)) by (bit_vector);
        s
    }

    /// Sets one bit of the event register.
    pub fn set_event(&mut self, bit: u8)
        requires
            bit < 8,
        ensures
            final(self)@ == (StatusView { event: old(self)@.event | bit_mask(bit), ..old(self)@ }),
    {
        self.event = self.event | (1u8 << bit);
    }

    /// Reads the event register and clears it, which is what `*ESR?` does.
    pub fn read_event(&mut self) -> (r: u8)
        ensures
            r == old(self)@.event,
            final(self)@ == (StatusView { event: 0, ..old(self)@ }),
    {
        let e = self.event;
        self.event = 0;
        e
    }

    pub fn event_enable(&self) -> (r: u8)
        ensures
            r == self@.event_enable,
    {
        self.event_enable
    }

    pub fn set_event_enable(&mut self, mask: u8)
        ensures
            final(self)@ == (StatusView { event_enable: mask, ..old(self)@ }),
    {
        self.event_enable = mask;
    }

    pub fn service_enable(&self) -> (r: u8)
        ensures
            r == self@.service_enable,
    {
        self.service_enable
    }

    pub fn set_service_enable(&mut self, mask: u8)
        ensures
            final(self)@ == (StatusView { service_enable: mask, ..old(self)@ }),
    {
        self.service_enable = mask;
    }

    /// The status byte, computed from the rest rather than stored.
    pub fn status_byte(&self, errors: bool, answer: bool) -> (r: u8)
        ensures
            r == status_byte_of(self@, errors, answer),
    {
        assert((1u8 << 2u8) == 4u8 && (1u8 << 4u8) == 16u8 && (1u8 << 5u8) == 32u8 && (1u8 << 6u8)
            == 64u8) by (bit_vector);
        let queue: u8 = if errors { 1u8 << stb::ERROR_QUEUE } else { 0 };
        let message: u8 = if answer { 1u8 << stb::MESSAGE_AVAILABLE } else { 0 };
        // Bit 5: some enabled event is active.
        let summary: u8 = if self.event & self.event_enable != 0 { 1u8 << stb::EVENT_SUMMARY } else { 0 };
        let low = queue | message | summary;
        // Bit 6: one of the bits above is also enabled to request service.
        let stb = if low & self.service_enable != 0 { low | (1u8 << stb::MASTER_SUMMARY) } else { low | 0 };
        stb
    }

    /// `*CLS`: clears the events, but not the enable masks.
    pub fn clear(&mut self)
        ensures
            final(self)@ == (StatusView { event: 0, ..old(self)@ }),
    {
        self.event = 0;
    }
}

/// The status byte written in terms of its three lower summaries.
proof fn lemma_byte_parts(v: StatusView, errors: bool, answer: bool) -> (parts: (u8, u8, u8))
    ensures
        parts.0 == 0u8 || parts.0 == 4u8,
        parts.1 == 0u8 || parts.1 == 16u8,
        parts.2 == 0u8 || parts.2 == 32u8,
        (parts.0 == 4u8) == errors,
        (parts.1 == 16u8) == answer,
        (parts.2 == 32u8) == (v.event & v.event_enable != 0),
        status_byte_of(v, errors, answer) == ((parts.0 | parts.1 | parts.2) | (if (parts.0 | parts.1
            | parts.2) & v.service_enable != 0 { 64u8 } else { 0u8 })),
{
    let x: u8 = if errors { 4u8 } else { 0u8 };
    let y: u8 = if answer { 16u8 } else { 0u8 };
    let z: u8 = if v.event & v.event_enable != 0 { 32u8 } else { 0u8 };
    (x, y, z)
}

/// The event summary (bit 5) is on exactly when an enabled event is active.
pub proof fn law_event_summary(v: StatusView, errors: bool, answer: bool)
    ensures
        (status_byte_of(v, errors, answer) & 32u8 != 0) <==> (v.event & v.event_enable != 0),
{
    let (x, y, z) = lemma_byte_parts(v, errors, answer);
    let s = v.service_enable;
    assert((((x | y | z) | (if (x | y | z) & s != 0 { 64u8 } else { 0u8 })) & 32u8 != 0) == (z == 32u8))
        by (bit_vector)
        requires
            x == 0u8 || x == 4u8,
            y == 0u8 || y == 16u8,
            z == 0u8 || z == 32u8,
    ;
}

/// The master summary (bit 6) is on exactly when one of the lower summaries
/// (error queue, message available, event summary) is on and enabled for
/// service: the summary of the summaries.
pub proof fn law_master_summary(v: StatusView, errors: bool, answer: bool)
    ensures
        (status_byte_of(v, errors, answer) & 64u8 != 0) <==> (
            (errors && v.service_enable & 4u8 != 0)
            || (answer && v.service_enable & 16u8 != 0)
            || (v.event & v.event_enable != 0 && v.service_enable & 32u8 != 0)),
{
    let (x, y, z) = lemma_byte_parts(v, errors, answer);
    let s = v.service_enable;
    assert((((x | y | z) | (if (x | y | z) & s != 0 { 64u8 } else { 0u8 })) & 64u8 != 0) == (
        (x == 4u8 && s & 4u8 != 0) || (y == 16u8 && s & 16u8 != 0) || (z == 32u8 && s & 32u8 != 0)))
        by (bit_vector)
        requires
            x == 0u8 || x == 4u8,
            y == 0u8 || y == 16u8,
            z == 0u8 || z == 32u8,
    ;
}

/// The error-queue and message-available bits mirror their conditions.
pub proof fn law_condition_bits(v: StatusView, errors: bool, answer: bool)
    ensures
        (status_byte_of(v, errors, answer) & 4u8 != 0) == errors,
        (status_byte_of(v, errors, answer) & 16u8 != 0) == answer,
{
    let (x, y, z) = lemma_byte_parts(v, errors, answer);
    let s = v.service_enable;
    assert((((x | y | z) | (if (x | y | z) & s != 0 { 64u8 } else { 0u8 })) & 4u8 != 0) == (x == 4u8)
        && (((x | y | z) | (if (x | y | z) & s != 0 { 64u8 } else { 0u8 })) & 16u8 != 0) == (y
        == 16u8)) by (bit_vector)
        requires
            x == 0u8 || x == 4u8,
            y == 0u8 || y == 16u8,
            z == 0u8 || z == 32u8,
    ;
}

/// Events accumulate: setting a bit keeps the ones already set and turns on
/// the new one.
pub proof fn law_events_accumulate(event: u8, bit: u8)
    requires
        bit < 8,
    ensures
        (event | bit_mask(bit)) & event == event,
        (event | bit_mask(bit)) & bit_mask(bit) == bit_mask(bit),
{
    assert((event | ((1u8 << bit) as u8)) & event == event && (event | ((1u8 << bit) as u8)) & ((1u8
        << bit) as u8) == ((1u8 << bit) as u8)) by (bit_vector)
        requires
            bit < 8,
    ;
}

} // verus!
