//! The decisions of the monitoring session: when to stop, how many packets
//! to take from the capture per round, and which of them are HTTP requests
//! to log (and replay). Reading channels, logging and replaying are the
//! caller's.
use vstd::prelude::*;

use crate::network::{request_of_text, has_http_method, utf8_lossy, HttpParser, HttpRequest, NetworkPacket};

verus! {

/// Packets taken from the capture per round.
pub const MAX_BATCH_SIZE: usize = 10;

/// Why the session ended.
#[derive(PartialEq, Eq, Structural, Clone, Copy, Debug)]
pub enum ExitReason {
    ShutdownSignal,
    ShutdownChannelClosed,
    MonitorTaskFinished,
    PacketChannelClosed,
}

/// What polling a channel gave.
pub enum ChannelPoll<T> {
    Received(T),
    Empty,
    Closed,
}

/// What to do with what the packet channel gave.
pub enum PacketDecision {
    /// Log this request, and replay it when `replay` is set.
    Handle { request: HttpRequest, replay: bool },
    /// The packet holds no HTTP request; go on polling.
    NotHttp,
    /// The round is over: sleep a moment, then start the next.
    EndOfRound,
    /// Leave the session.
    Exit(ExitReason),
}

/// The state of a monitoring session.
pub struct MonitorSession {
    pub packet_count: usize,
    pub batch_processed: usize,
    pub replay: bool,
}

impl MonitorSession {
    /// A session that has seen no packet; `replay` says whether requests
    /// are replayed.
    pub fn new(replay: bool) -> (r: MonitorSession)
        ensures
            r.packet_count == 0,
            r.batch_processed == 0,
            r.replay == replay,
    {
        MonitorSession { packet_count: 0, batch_processed: 0, replay }
    }

    /// Starts a round: a shutdown message, a closed shutdown channel or a
    /// finished capture task ends the session, in that order; otherwise the
    /// round's count starts at zero.
    pub fn start_round(&mut self, shutdown: ChannelPoll<()>, monitor_finished: bool) -> (r: Option<
        ExitReason,
    >)
        ensures
            final(self).packet_count == old(self).packet_count,
            final(self).replay == old(self).replay,
            r == match shutdown {
                ChannelPoll::Received(_) => Some(ExitReason::ShutdownSignal),
                ChannelPoll::Closed => Some(ExitReason::ShutdownChannelClosed),
                ChannelPoll::Empty => if monitor_finished {
                    Some(ExitReason::MonitorTaskFinished)
                } else {
                    None
                },
            },
            r is None ==> final(self).batch_processed == 0,
    {
        match shutdown {
            ChannelPoll::Received(_) => Some(ExitReason::ShutdownSignal),
            ChannelPoll::Closed => Some(ExitReason::ShutdownChannelClosed),
            ChannelPoll::Empty => {
                if monitor_finished {
                    Some(ExitReason::MonitorTaskFinished)
                } else {
                    self.batch_processed = 0;
                    None
                }
            },
        }
    }

    /// Whether the round may take another packet.
    pub fn wants_packet(&self) -> (r: bool)
        ensures
            r == (self.batch_processed < MAX_BATCH_SIZE),
    {
        self.batch_processed < MAX_BATCH_SIZE
    }

    /// Takes what the packet channel gave: a packet is counted and, when it
    /// carries an HTTP request, handed back to be logged; an empty channel
    /// ends the round; a closed one ends the session.
    pub fn take_packet(&mut self, poll: ChannelPoll<NetworkPacket>) -> (r: PacketDecision)
        requires
            old(self).packet_count < usize::MAX,
            old(self).batch_processed < MAX_BATCH_SIZE,
        ensures
            final(self).replay == old(self).replay,
            match poll {
                ChannelPoll::Received(p) => {
                    &&& final(self).packet_count == old(self).packet_count + 1
                    &&& final(self).batch_processed == old(self).batch_processed + 1
                    &&& if p.payload@.len() >= 16 && has_http_method(p.payload@)
                        && request_of_text(utf8_lossy(p.payload@)) is Some {
                        r matches PacketDecision::Handle { request, replay } && replay
                            == old(self).replay && request_of_text(utf8_lossy(p.payload@))
                            == Some((request.method@, request.url@, request.headers@))
                            && request.body@.len() == 0 && request.source_ip@ == p.src_ip@
                            && request.source_port == p.src_port
                    } else {
                        r is NotHttp
                    }
                },
                ChannelPoll::Empty => {
                    &&& r is EndOfRound
                    &&& *final(self) == *old(self)
                },
                ChannelPoll::Closed => {
                    &&& r == PacketDecision::Exit(ExitReason::PacketChannelClosed)
                    &&& *final(self) == *old(self)
                },
            },
    {
        match poll {
            ChannelPoll::Received(p) => {
                self.packet_count = self.packet_count + 1;
                self.batch_processed = self.batch_processed + 1;
                match HttpParser::parse_http_request(&p) {
                    Some(request) => PacketDecision::Handle { request, replay: self.replay },
                    None => PacketDecision::NotHttp,
                }
            },
            ChannelPoll::Empty => PacketDecision::EndOfRound,
            ChannelPoll::Closed => PacketDecision::Exit(ExitReason::PacketChannelClosed),
        }
    }

    /// Whether the process ends at once after the session (only when a
    /// shutdown was asked for).
    pub fn exits_process(reason: ExitReason) -> (r: bool)
        ensures
            r == (reason == ExitReason::ShutdownSignal),
    {
        match reason {
            ExitReason::ShutdownSignal => true,
            _ => false,
        }
    }
}

} // verus!
