//! The decisions of the packet-capture loop: counting, the memory budget
//! for forwarded packets, statistics and retries after capture errors. The
//! loop that reads the capture device and performs the actions is the
//! caller's.
use vstd::prelude::*;

use crate::network::{has_http_method, HttpParser, NetworkPacket};
use crate::packet::{
    be16, dotted_quad, frame_carries_tcp, ipv4_payload_of, is_segment_record, parse_packet_at,
    tcp_payload_of,
};
use crate::text::chars_of;

verus! {

/// Number of consecutive capture errors after which the loop stops.
pub const MAX_RETRIES: usize = 3;

/// What the capture loop observed.
pub enum CaptureEvent {
    /// The statistics interval has elapsed.
    StatsDue,
    /// The shutdown and release flags, as read at the top of an iteration.
    Flags { shutdown: bool, releasing: bool },
    /// A frame was captured at the given time (milliseconds since the epoch).
    Frame(Vec<u8>, i64),
    /// Reading the device timed out without a frame.
    Timeout,
    /// Reading the device failed.
    CaptureError,
    /// Reopening the device after an error failed.
    ReinitFailed,
}

/// What the capture loop does next.
pub enum CaptureAction {
    /// Go on with the next iteration.
    Continue,
    /// Report the packets captured since the last report, and how many of
    /// them looked like HTTP.
    Report { packets: usize, http: usize },
    /// Leave the loop.
    Stop,
    /// Wait a moment and try again: the sender is being released.
    Pause,
    /// Hand the packet to the processor.
    Forward(NetworkPacket),
    /// Drop the packet: the memory budget is spent.
    DropForMemory,
    /// Wait, reopen the device and go on.
    Retry,
}

/// The state of the capture loop.
pub struct CaptureLoop {
    pub packet_count: usize,
    pub current_retries: usize,
    pub current_memory_usage: usize,
    pub packets_since_stats: usize,
    pub http_since_stats: usize,
    /// Capture errors over the life of the loop.
    pub total_errors: usize,
    pub max_memory_usage: usize,
    /// Bytes counted for each forwarded packet on top of its payload and
    /// addresses.
    pub record_overhead: usize,
}

/// The TCP segment of a frame that carries one.
pub open spec fn frame_segment(d: Seq<u8>) -> Seq<u8> {
    ipv4_payload_of(d.subrange(14, d.len() as int))
}

/// Whether the segment of a frame looks like HTTP: it goes to port 80 or
/// 443, or its payload holds a method token.
pub open spec fn frame_is_potential_http(d: Seq<u8>) -> bool {
    let seg = frame_segment(d);
    be16(seg, 2) == 80 || be16(seg, 2) == 443 || has_http_method(tcp_payload_of(seg))
}

/// The bytes that a forwarded frame counts against the memory budget: its
/// payload, its two addresses as text, and the fixed overhead.
pub open spec fn frame_cost(d: Seq<u8>, overhead: int) -> int {
    let ip = d.subrange(14, d.len() as int);
    tcp_payload_of(frame_segment(d)).len() + dotted_quad(ip.subrange(12, 16)).len() + dotted_quad(
        ip.subrange(16, 20),
    ).len() + overhead
}

impl CaptureLoop {
    /// A loop that has seen nothing yet.
    pub fn new(max_memory_usage: usize, record_overhead: usize) -> (r: CaptureLoop)
        ensures
            r.packet_count == 0,
            r.current_retries == 0,
            r.current_memory_usage == 0,
            r.packets_since_stats == 0,
            r.http_since_stats == 0,
            r.total_errors == 0,
            r.max_memory_usage == max_memory_usage,
            r.record_overhead == record_overhead,
    {
        CaptureLoop {
            packet_count: 0,
            current_retries: 0,
            current_memory_usage: 0,
            packets_since_stats: 0,
            http_since_stats: 0,
            total_errors: 0,
            max_memory_usage,
            record_overhead,
        }
    }

    /// The forwarded packets fit in the memory budget.
    pub open spec fn within_memory_limit(&self) -> bool {
        self.current_memory_usage <= self.max_memory_usage
    }

    /// No counter is at its limit.
    pub open spec fn counters_fit(&self) -> bool {
        &&& self.packet_count < usize::MAX
        &&& self.packets_since_stats < usize::MAX
        &&& self.http_since_stats < usize::MAX
        &&& self.current_retries < usize::MAX
        &&& self.total_errors < usize::MAX
    }

    /// Whether no counter is at its limit.
    pub fn can_step(&self) -> (r: bool)
        ensures
            r == self.counters_fit(),
    {
        self.packet_count < usize::MAX && self.packets_since_stats < usize::MAX
            && self.http_since_stats < usize::MAX && self.current_retries < usize::MAX
            && self.total_errors < usize::MAX
    }

    /// Takes one event and says what to do.
    pub fn step(&mut self, event: CaptureEvent) -> (a: CaptureAction)
        requires
            old(self).counters_fit(),
        ensures
            final(self).max_memory_usage == old(self).max_memory_usage,
            final(self).record_overhead == old(self).record_overhead,
            final(self).current_memory_usage >= old(self).current_memory_usage,
            old(self).within_memory_limit() ==> final(self).within_memory_limit(),
            match event {
                CaptureEvent::StatsDue => {
                    &&& a == (if old(self).packets_since_stats > 0 {
                        CaptureAction::Report {
                            packets: old(self).packets_since_stats,
                            http: old(self).http_since_stats,
                        }
                    } else {
                        CaptureAction::Continue
                    })
                    &&& *final(self) == (CaptureLoop {
                        packets_since_stats: 0,
                        http_since_stats: 0,
                        ..*old(self)
                    })
                },
                CaptureEvent::Flags { shutdown, releasing } => {
                    &&& a == (if shutdown {
                        CaptureAction::Stop
                    } else if releasing {
                        CaptureAction::Pause
                    } else {
                        CaptureAction::Continue
                    })
                    &&& *final(self) == *old(self)
                },
                CaptureEvent::Frame(data, ts) => {
                    &&& final(self).packet_count == old(self).packet_count + 1
                    &&& final(self).packets_since_stats == old(self).packets_since_stats + 1
                    &&& final(self).total_errors == old(self).total_errors
                    &&& if !frame_carries_tcp(data@) {
                        &&& a is Continue
                        &&& final(self).current_retries == 0
                        &&& final(self).http_since_stats == old(self).http_since_stats
                        &&& final(self).current_memory_usage == old(self).current_memory_usage
                    } else {
                        &&& final(self).http_since_stats == old(self).http_since_stats + (
                        if frame_is_potential_http(data@) {
                            1int
                        } else {
                            0int
                        })
                        &&& if old(self).current_memory_usage + frame_cost(
                            data@,
                            old(self).record_overhead as int,
                        ) > old(self).max_memory_usage {
                            &&& a is DropForMemory
                            &&& final(self).current_retries == old(self).current_retries
                            &&& final(self).current_memory_usage
                                == old(self).current_memory_usage
                        } else {
                            &&& a matches CaptureAction::Forward(p) && is_segment_record(
                                data@,
                                ts,
                                p,
                            )
                            &&& final(self).current_retries == 0
                            &&& final(self).current_memory_usage == old(
                                self,
                            ).current_memory_usage + frame_cost(
                                data@,
                                old(self).record_overhead as int,
                            )
                        }
                    }
                },
                CaptureEvent::Timeout => {
                    &&& a is Continue
                    &&& *final(self) == *old(self)
                },
                CaptureEvent::CaptureError => {
                    &&& a == (if old(self).current_retries + 1 < MAX_RETRIES {
                        CaptureAction::Retry
                    } else {
                        CaptureAction::Stop
                    })
                    &&& *final(self) == (CaptureLoop {
                        current_retries: (old(self).current_retries + 1) as usize,
                        total_errors: (old(self).total_errors + 1) as usize,
                        ..*old(self)
                    })
                },
                CaptureEvent::ReinitFailed => {
                    &&& a == (if old(self).current_retries >= MAX_RETRIES - 1 {
                        CaptureAction::Stop
                    } else {
                        CaptureAction::Continue
                    })
                    &&& *final(self) == *old(self)
                },
            },
    {
        match event {
            CaptureEvent::StatsDue => {
                let packets = self.packets_since_stats;
                let http = self.http_since_stats;
                self.packets_since_stats = 0;
                self.http_since_stats = 0;
                if packets > 0 {
                    CaptureAction::Report { packets, http }
                } else {
                    CaptureAction::Continue
                }
            },
            CaptureEvent::Flags { shutdown, releasing } => {
                if shutdown {
                    CaptureAction::Stop
                } else if releasing {
                    CaptureAction::Pause
                } else {
                    CaptureAction::Continue
                }
            },
            CaptureEvent::Frame(data, ts) => {
                self.packet_count = self.packet_count + 1;
                self.packets_since_stats = self.packets_since_stats + 1;
                match parse_packet_at(&data, ts) {
                    None => {
                        self.current_retries = 0;
                        CaptureAction::Continue
                    },
                    Some(p) => {
                        let http = p.dst_port == 80 || p.dst_port == 443
                            || HttpParser::contains_http_method(&p.payload);
                        if http {
                            self.http_since_stats = self.http_since_stats + 1;
                        }
                        let src_len = chars_of(p.src_ip.as_str()).len();
                        let dst_len = chars_of(p.dst_ip.as_str()).len();
                        let size = p.payload.len().checked_add(src_len);
                        let size = match size {
                            Some(s) => s.checked_add(dst_len),
                            None => None,
                        };
                        let size = match size {
                            Some(s) => s.checked_add(self.record_overhead),
                            None => None,
                        };
                        let total = match size {
                            Some(s) => s.checked_add(self.current_memory_usage),
                            None => None,
                        };
                        match total {
                            Some(t) => {
                                if t > self.max_memory_usage {
                                    CaptureAction::DropForMemory
                                } else {
                                    self.current_memory_usage = t;
                                    self.current_retries = 0;
                                    CaptureAction::Forward(p)
                                }
                            },
                            None => CaptureAction::DropForMemory,
                        }
                    },
                }
            },
            CaptureEvent::Timeout => CaptureAction::Continue,
            CaptureEvent::CaptureError => {
                self.current_retries = self.current_retries + 1;
                self.total_errors = self.total_errors + 1;
                if self.current_retries < MAX_RETRIES {
                    CaptureAction::Retry
                } else {
                    CaptureAction::Stop
                }
            },
            CaptureEvent::ReinitFailed => {
                if self.current_retries >= MAX_RETRIES - 1 {
                    CaptureAction::Stop
                } else {
                    CaptureAction::Continue
                }
            },
        }
    }
}

/// A TCP segment to port 80 or 443, or one whose payload holds a request
/// method, is counted as potential HTTP; the method found in a payload
/// counts whatever the port.
pub proof fn web_ports_count_as_http(d: Seq<u8>)
    requires
        frame_carries_tcp(d),
    ensures
        be16(frame_segment(d), 2) == 80 ==> frame_is_potential_http(d),
        be16(frame_segment(d), 2) == 443 ==> frame_is_potential_http(d),
        has_http_method(tcp_payload_of(frame_segment(d))) ==> frame_is_potential_http(d),
        frame_is_potential_http(d) ==> be16(frame_segment(d), 2) == 80 || be16(frame_segment(d), 2)
            == 443 || has_http_method(tcp_payload_of(frame_segment(d))),
{
}

} // verus!
