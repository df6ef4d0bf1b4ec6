use vstd::prelude::*;

use crate::packet::ReportBlock;

verus! {

/// Reception state of one remote source.
#[derive(Debug, Clone, Copy, PartialEq, Eq, Structural)]
pub struct SourceState {
    pub ssrc: u32,
    /// Sequence number of the first packet received.
    pub base_seq: u16,
    /// Highest sequence number received, within the current cycle.
    pub max_seq: u16,
    /// Number of times the sequence number wrapped around.
    pub cycles: u16,
    /// Packets received.
    pub received: u64,
    /// Packets expected when the last report block was built.
    pub expected_prior: u64,
    /// Packets received when the last report block was built.
    pub received_prior: u64,
    pub cumulative_lost: u32,
    /// Interarrival jitter estimate, in timestamp units.
    pub jitter: u32,
    /// Relative transit time of the last packet.
    pub transit: u32,
    /// Middle 32 bits of the NTP timestamp of the last Sender Report.
    pub lsr: u32,
    /// Local time at which the last Sender Report arrived.
    pub last_sr_arrival: u32,
    pub has_sr: bool,
    /// The source said goodbye; it is kept but no longer reported on.
    pub departed: bool,
}

/// `a - b` modulo 2^32.
pub open spec fn wrap_sub(a: u32, b: u32) -> u32 {
    ((a as int - b as int) % 0x1_0000_0000) as u32
}

/// Magnitude of the signed 32-bit difference `t2 - t1`.
pub open spec fn abs_delta(t2: u32, t1: u32) -> u32 {
    let d = wrap_sub(t2, t1);
    if d < 0x8000_0000 {
        d
    } else {
        wrap_sub(0, d)
    }
}

/// One smoothing step `J + (|D| - J) / 16`, the division truncating toward zero.
pub open spec fn jitter_step(j: u32, d: u32) -> u32 {
    if d >= j {
        (j + (d - j) / 16) as u32
    } else {
        (j - (j - d) / 16) as u32
    }
}

/// Cycle count and highest sequence number after a packet with sequence `s`.
/// A packet at most half the sequence space ahead advances them, a wrap
/// adding a cycle; duplicates and late packets leave them as they are.
pub open spec fn seq_advance(cycles: u16, max_seq: u16, s: u16) -> (u16, u16) {
    let udelta = (s as int - max_seq as int) % 65536;
    if udelta == 0 || udelta >= 32768 {
        (cycles, max_seq)
    } else if s < max_seq {
        if cycles == 65535 {
            (cycles, max_seq)
        } else {
            ((cycles + 1) as u16, s)
        }
    } else {
        (cycles, s)
    }
}

pub open spec fn min_int(a: int, b: int) -> int {
    if a < b {
        a
    } else {
        b
    }
}

/// Fraction of the interval's packets lost, in 1/256 units, rounded to nearest.
pub open spec fn fraction_lost(expected: int, received: int) -> u8 {
    if expected <= 0 || expected <= received {
        0
    } else {
        min_int(255, ((expected - received) * 256 + expected / 2) / expected) as u8
    }
}

/// A tracker that has seen nothing from `ssrc` yet.
pub open spec fn fresh_source(ssrc: u32) -> SourceState {
    SourceState {
        ssrc,
        base_seq: 0,
        max_seq: 0,
        cycles: 0,
        received: 0,
        expected_prior: 0,
        received_prior: 0,
        cumulative_lost: 0,
        jitter: 0,
        transit: 0,
        lsr: 0,
        last_sr_arrival: 0,
        has_sr: false,
        departed: false,
    }
}

impl SourceState {
    /// Extended highest sequence number: cycles in the high 16 bits.
    pub open spec fn ext_max(&self) -> int {
        self.cycles * 65536 + self.max_seq
    }

    /// Packets expected since the first one.
    pub open spec fn expected(&self) -> int {
        if self.received == 0 {
            0
        } else {
            self.ext_max() - self.base_seq + 1
        }
    }

    pub open spec fn lost_total(&self) -> int {
        if self.expected() > self.received {
            self.expected() - self.received
        } else {
            0
        }
    }

    /// Cumulative loss: never decreases, saturates at 24 bits.
    pub open spec fn next_cumulative(&self) -> u32 {
        min_int(
            0xffffff,
            if self.lost_total() > self.cumulative_lost {
                self.lost_total()
            } else {
                self.cumulative_lost as int
            },
        ) as u32
    }

    pub open spec fn report_of(&self, now: u32) -> ReportBlock {
        ReportBlock {
            ssrc: self.ssrc,
            fraction_lost: fraction_lost(
                self.expected() - self.expected_prior,
                self.received - self.received_prior,
            ),
            cumulative_lost: self.next_cumulative(),
            ext_highest_seq: self.ext_max() as u32,
            jitter: self.jitter,
            lsr: if self.has_sr { self.lsr } else { 0 },
            dlsr: if self.has_sr { wrap_sub(now, self.last_sr_arrival) } else { 0 },
        }
    }

    pub open spec fn after_report(&self) -> SourceState {
        SourceState {
            expected_prior: self.expected() as u64,
            received_prior: self.received,
            cumulative_lost: self.next_cumulative(),
            ..*self
        }
    }

    /// State after an RTP packet; the first packet fixes the base sequence
    /// number, later ones advance the sequence and update the jitter.
    pub open spec fn after_rtp(&self, seq: u16, rtp_ts: u32, arrival: u32) -> SourceState {
        if self.received == 0 {
            SourceState {
                base_seq: seq,
                max_seq: seq,
                cycles: 0,
                received: 1,
                transit: wrap_sub(arrival, rtp_ts),
                ..*self
            }
        } else {
            SourceState {
                cycles: seq_advance(self.cycles, self.max_seq, seq).0,
                max_seq: seq_advance(self.cycles, self.max_seq, seq).1,
                received: if self.received < u64::MAX {
                    (self.received + 1) as u64
                } else {
                    self.received
                },
                jitter: jitter_step(self.jitter, abs_delta(wrap_sub(arrival, rtp_ts), self.transit)),
                transit: wrap_sub(arrival, rtp_ts),
                ..*self
            }
        }
    }

    /// State after a Sender Report: its NTP middle bits and arrival time are kept.
    pub open spec fn after_sr(&self, ntp_timestamp: u64, arrival: u32) -> SourceState {
        SourceState {
            lsr: (ntp_timestamp >> 16u64) as u32,
            last_sr_arrival: arrival,
            has_sr: true,
            ..*self
        }
    }

    pub open spec fn wf(&self) -> bool {
        &&& self.ext_max() >= self.base_seq
        &&& self.expected_prior <= self.expected()
        &&& self.received_prior <= self.received
        &&& self.cumulative_lost <= 0xffffff
        &&& self.received == 0 ==> self.expected_prior == 0
    }

    /// A tracker that has seen nothing from `ssrc` yet.
    pub fn new(ssrc: u32) -> (r: SourceState)
        ensures
            r.wf(),
            r == fresh_source(ssrc),
    {
        SourceState {
            ssrc,
            base_seq: 0,
            max_seq: 0,
            cycles: 0,
            received: 0,
            expected_prior: 0,
            received_prior: 0,
            cumulative_lost: 0,
            jitter: 0,
            transit: 0,
            lsr: 0,
            last_sr_arrival: 0,
            has_sr: false,
            departed: false,
        }
    }

    /// Accounts for an RTP packet with sequence number `seq` and timestamp
    /// `rtp_ts` that arrived at local time `arrival` (in timestamp units).
    pub fn on_rtp(&mut self, seq: u16, rtp_ts: u32, arrival: u32)
        requires
            old(self).wf(),
        ensures
            final(self).wf(),
            *final(self) == old(self).after_rtp(seq, rtp_ts, arrival),
    {
        let transit = wrapping_sub_u32(arrival, rtp_ts);
        if self.received == 0 {
            self.base_seq = seq;
            self.max_seq = seq;
            self.cycles = 0;
            self.received = 1;
            self.transit = transit;
            return;
        }
        let udelta: u16 = if seq >= self.max_seq {
            seq - self.max_seq
        } else {
            (65536u32 - (self.max_seq - seq) as u32) as u16
        };
        if udelta != 0 && udelta < 32768 {
            if seq < self.max_seq {
                if self.cycles < 65535 {
                    self.cycles = self.cycles + 1;
                    self.max_seq = seq;
                }
            } else {
                self.max_seq = seq;
            }
        }
        if self.received < u64::MAX {
            self.received = self.received + 1;
        }
        let d = abs_delta_u32(transit, self.transit);
        self.jitter = if d >= self.jitter {
            self.jitter + (d - self.jitter) / 16
        } else {
            self.jitter - (self.jitter - d) / 16
        };
        self.transit = transit;
    }

    /// Records a Sender Report from this source that arrived at local time
    /// `arrival` (in 1/65536 s).
    pub fn on_sr(&mut self, ntp_timestamp: u64, arrival: u32)
        requires
            old(self).wf(),
        ensures
            final(self).wf(),
            *final(self) == old(self).after_sr(ntp_timestamp, arrival),
    {
        self.lsr = (ntp_timestamp >> 16u64) as u32;
        self.last_sr_arrival = arrival;
        self.has_sr = true;
    }

    /// Builds the report block for the interval since the previous call, at
    /// local time `now` (in 1/65536 s), and starts a new interval.
    pub fn build_report_block(&mut self, now: u32) -> (r: ReportBlock)
        requires
            old(self).wf(),
        ensures
            r == old(self).report_of(now),
            *final(self) == old(self).after_report(),
            final(self).wf(),
    {
        let ext: u32 = (self.cycles as u32) * 65536 + (self.max_seq as u32);
        let expected: u64 = if self.received == 0 {
            0
        } else {
            (ext as u64) - (self.base_seq as u64) + 1
        };
        let lost_total: u64 = if expected > self.received {
            expected - self.received
        } else {
            0
        };
        let kept: u64 = if lost_total > self.cumulative_lost as u64 {
            lost_total
        } else {
            self.cumulative_lost as u64
        };
        let cumulative: u32 = if kept > 0xffffff {
            0xffffff
        } else {
            kept as u32
        };
        let expected_interval: u64 = expected - self.expected_prior;
        let received_interval: u64 = self.received - self.received_prior;
        let fraction: u8 = if expected_interval == 0 || expected_interval <= received_interval {
            0
        } else {
            let lost = expected_interval - received_interval;
            assert(lost * 256 <= 0x1_0000_0000 * 256) by (nonlinear_arith)
                requires
                    lost <= expected_interval,
                    expected_interval <= 0x1_0000_0000,
            ;
            let q = (lost * 256 + expected_interval / 2) / expected_interval;
            if q > 255 {
                255
            } else {
                q as u8
            }
        };
        let r = ReportBlock {
            ssrc: self.ssrc,
            fraction_lost: fraction,
            cumulative_lost: cumulative,
            ext_highest_seq: ext,
            jitter: self.jitter,
            lsr: if self.has_sr { self.lsr } else { 0 },
            dlsr: if self.has_sr { wrapping_sub_u32(now, self.last_sr_arrival) } else { 0 },
        };
        self.expected_prior = expected;
        self.received_prior = self.received;
        self.cumulative_lost = cumulative;
        r
    }
}

/// `a - b` modulo 2^32.
fn wrapping_sub_u32(a: u32, b: u32) -> (r: u32)
    ensures
        r == wrap_sub(a, b),
{
    if a >= b {
        a - b
    } else {
        (0x1_0000_0000u64 - (b - a) as u64) as u32
    }
}

fn abs_delta_u32(t2: u32, t1: u32) -> (r: u32)
    ensures
        r == abs_delta(t2, t1),
{
    let d = wrapping_sub_u32(t2, t1);
    if d < 0x8000_0000 {
        d
    } else {
        wrapping_sub_u32(0, d)
    }
}

} // verus!
