//! The periodic tick decisions: probe draining, ACK-only frames, sends and
//! resends, heartbeat.  The engine keeps its own timers as microsecond
//! timestamps; the caller passes the current time in.

use vstd::prelude::*;

use crate::cache::Cache;
use crate::cache::Probe;
use crate::cache::cache_model;
use crate::cache::spec_probe_drain;
use crate::connection::Connection;
use crate::connection::ConnectionState;
use crate::connection::ETHERNET_MAX;
use crate::connection::spec_batch;
use crate::connection::spec_grant_rel;
use crate::connection::spec_send_transition;
use crate::omnixtend::spec_frame_header;
use crate::operations::Operations;
use crate::sequence_number::seq_incremented;

verus! {

/// The tick engine's timers and configuration.
pub struct Tick {
    pub ack_required_since: Option<u64>,
    pub resend_cooldown: Option<u64>,
    pub heartbeat: Option<u64>,
    pub ack_only_timeout: u64,
    pub last_send: u64,
    pub resend_timeout: u64,
    pub cycle: u64,
    pub last_executed: u64,
}

/// Time elapsed between two timestamps, zero when they run backwards.
pub open spec fn spec_elapsed(now: u64, since: u64) -> u64 {
    if now >= since {
        (now - since) as u64
    } else {
        0u64
    }
}

/// Where the acknowledgement timer stands after one tick's bookkeeping: it
/// starts when an acknowledgement first becomes outstanding and clears when
/// none is.
pub open spec fn spec_ack_timer(prev: Option<u64>, ack_outstanding: bool, now: u64) -> Option<
    u64,
> {
    if prev is None && ack_outstanding {
        Some(now)
    } else if prev is Some && !ack_outstanding {
        Option::None
    } else {
        prev
    }
}

/// A heartbeat is due: one is configured and the last send has aged past it.
pub open spec fn spec_heartbeat_due(heartbeat: Option<u64>, now: u64, last_send: u64) -> bool {
    heartbeat matches Some(h) && spec_elapsed(now, last_send) > h
}

/// A frame is due: messages are pending, the connection owes the peer one,
/// grants wait to be advertised, or an acknowledgement has aged past the
/// ACK-only timeout.
pub open spec fn spec_send_due(
    pending: nat,
    send_flag: bool,
    grants_waiting: bool,
    ack_since: Option<u64>,
    ack_timeout: u64,
    now: u64,
) -> bool {
    pending > 0 || send_flag || grants_waiting || (ack_since matches Some(t) && spec_elapsed(
        now,
        t,
    ) >= ack_timeout)
}

/// A resend is called for: the peer has been silent past the resend timeout,
/// or a NAK arrived.
pub open spec fn spec_resend_due(now: u64, received_at: u64, resend_timeout: u64, nak: bool) -> bool {
    spec_elapsed(now, received_at) >= resend_timeout || nak
}

/// The resend cooldown after ageing: it clears once older than the timeout.
pub open spec fn spec_cooldown_after(prev: Option<u64>, now: u64, resend_timeout: u64) -> Option<
    u64,
> {
    if prev matches Some(t) && spec_elapsed(now, t) >= resend_timeout {
        Option::None
    } else {
        prev
    }
}

impl Tick {
    pub closed spec fn spec_ack_required_since(&self) -> Option<u64> {
        self.ack_required_since
    }

    pub closed spec fn spec_resend_cooldown(&self) -> Option<u64> {
        self.resend_cooldown
    }

    pub closed spec fn spec_heartbeat(&self) -> Option<u64> {
        self.heartbeat
    }

    pub closed spec fn spec_ack_only_timeout(&self) -> u64 {
        self.ack_only_timeout
    }

    pub closed spec fn spec_last_send(&self) -> u64 {
        self.last_send
    }

    pub closed spec fn spec_resend_timeout(&self) -> u64 {
        self.resend_timeout
    }

    pub closed spec fn spec_cycle(&self) -> u64 {
        self.cycle
    }

    pub closed spec fn spec_last_executed(&self) -> u64 {
        self.last_executed
    }

    /// A fresh engine with its timers anchored at `now_micros`.
    pub fn new(
        ack_only_timeout: u64,
        resend_timeout: u64,
        cycle: u64,
        heartbeat: Option<u64>,
        now_micros: u64,
    ) -> (r: Tick)
        ensures
            r.spec_ack_only_timeout() == ack_only_timeout,
            r.spec_resend_timeout() == resend_timeout,
            r.spec_cycle() == cycle,
            r.spec_heartbeat() == heartbeat,
            r.spec_ack_required_since() is None,
            r.spec_resend_cooldown() is None,
            r.spec_last_send() == now_micros,
            r.spec_last_executed() == now_micros,
    {
        Tick {
            ack_only_timeout,
            resend_timeout,
            heartbeat,
            ack_required_since: None,
            resend_cooldown: None,
            cycle,
            last_send: now_micros,
            last_executed: now_micros,
        }
    }

    /// The resend cooldown clears once it has aged past the resend timeout.
    pub fn check_resend_cooldown(&mut self, now_micros: u64)
        ensures
            final(self).spec_resend_cooldown() == spec_cooldown_after(
                old(self).spec_resend_cooldown(),
                now_micros,
                old(self).spec_resend_timeout(),
            ),
            *final(self) == (Tick { resend_cooldown: final(self).spec_resend_cooldown(), ..*old(self) }),
    {
        match self.resend_cooldown {
            Some(t) => {
                let elapsed = if now_micros >= t {
                    now_micros - t
                } else {
                    0
                };
                if elapsed >= self.resend_timeout {
                    self.resend_cooldown = None;
                }
            },
            Option::None => {},
        }
    }

    /// A heartbeat is due when one is configured and the last send has aged
    /// past it.
    pub fn heartbeat(&self, now_micros: u64) -> (r: bool)
        ensures
            r == spec_heartbeat_due(self.spec_heartbeat(), now_micros, self.spec_last_send()),
    {
        match self.heartbeat {
            Some(h) => {
                let elapsed = if now_micros >= self.last_send {
                    now_micros - self.last_send
                } else {
                    0
                };
                elapsed > h
            },
            Option::None => false,
        }
    }

    /// A frame must go out: messages are pending, the connection owes the
    /// peer one, or an acknowledgement has waited past the ACK-only timeout.
    fn send_required(&self, now_micros: u64, operations: &Operations, connection: &Connection) -> (r:
        bool)
        requires
            connection.wf(),
        ensures
            r == spec_send_due(
                operations.pending_view().len(),
                connection.send_outstanding_flag,
                exists|i: int| 0 <= i < 5 && connection.credits_receive@[i] > 0,
                self.spec_ack_required_since(),
                self.spec_ack_only_timeout(),
                now_micros,
            ),
    {
        if operations.num_pending() > 0 {
            return true;
        }
        if connection.send_outstanding() {
            return true;
        }
        match self.ack_required_since {
            Some(t) => {
                let elapsed = if now_micros >= t {
                    now_micros - t
                } else {
                    0
                };
                elapsed >= self.ack_only_timeout
            },
            Option::None => false,
        }
    }

    /// A resend is called for: the peer has been silent past the resend
    /// timeout, or a NAK arrived.
    fn reset_pending(&self, now_micros: u64, connection: &Connection) -> (r: bool)
        ensures
            r == spec_resend_due(
                now_micros,
                connection.last_message_received_at,
                self.spec_resend_timeout(),
                connection.resend_outstanding_flag,
            ),
    {
        let elapsed = if now_micros >= connection.last_message_received_at {
            now_micros - connection.last_message_received_at
        } else {
            0
        };
        elapsed >= self.resend_timeout || connection.resend_outstanding()
    }

    /// Track when an acknowledgement first became outstanding.
    fn set_ack_timeout(&mut self, now_micros: u64, connection: &Connection)
        ensures
            final(self).spec_ack_required_since() == spec_ack_timer(
                old(self).spec_ack_required_since(),
                connection.we_acked@ != connection.last_rx_seq@,
                now_micros,
            ),
            *final(self) == (Tick {
                ack_required_since: final(self).spec_ack_required_since(),
                ..*old(self)
            }),
    {
        if self.ack_required_since.is_none() && connection.ack_outstanding() {
            self.ack_required_since = Some(now_micros);
        } else if self.ack_required_since.is_some() && !connection.ack_outstanding() {
            self.ack_required_since = None;
        }
    }

    /// One tick: rate-limited to the cycle, it drains the probe queue per
    /// `spec_probe_drain`, assembles a frame when one is due (pending work,
    /// an owed or aged acknowledgement, a heartbeat), and queues a resend
    /// after a NAK or a silent peer, under a cooldown.
    #[verifier::rlimit(100)]
    pub fn tick(
        &mut self,
        now_micros: u64,
        operations: &mut Operations,
        connection: &mut Connection,
        cache: &mut Cache,
    )
        requires
            old(operations).wf(),
            old(connection).wf(),
            old(cache).wf(),
            forall|i: int|
                0 <= i < old(operations).pending_view().len()
                    ==> #[trigger] old(operations).pending_view()[i].len() + ETHERNET_MAX
                    <= usize::MAX,
        ensures
            final(operations).wf(),
            final(connection).wf(),
            final(cache).wf(),
            spec_elapsed(now_micros, old(self).spec_last_executed()) < old(self).spec_cycle()
                ==> *final(self) == *old(self) && *final(operations) == *old(operations)
                && *final(connection) == *old(connection) && *final(cache) == *old(cache),
            spec_elapsed(now_micros, old(self).spec_last_executed()) >= old(self).spec_cycle()
                ==> ({
                let drained = spec_probe_drain(
                    old(cache).probe_state(
                        old(connection).credits_send@,
                        old(operations).pending_view(),
                        Seq::<Probe>::empty(),
                    ),
                    old(cache).probes_view(),
                );
                let ack1 = spec_ack_timer(
                    old(self).spec_ack_required_since(),
                    old(connection).we_acked@ != old(connection).last_rx_seq@,
                    now_micros,
                );
                let due = spec_send_due(
                    drained.pending.len(),
                    old(connection).send_outstanding_flag,
                    exists|i: int| 0 <= i < 5 && old(connection).credits_receive@[i] > 0,
                    ack1,
                    old(self).spec_ack_only_timeout(),
                    now_micros,
                ) || spec_heartbeat_due(
                    old(self).spec_heartbeat(),
                    now_micros,
                    old(self).spec_last_send(),
                );
                let sends = due && old(connection).connection_state != ConnectionState::Idle
                    && old(connection).packet_data is None;
                let b = spec_batch(drained.pending, 30, 0, 0);
                let tr = spec_send_transition(
                    old(connection).compat_mode,
                    old(connection).connection_state,
                    old(operations).outstanding() != 0,
                );
                let rp = spec_resend_due(
                    now_micros,
                    old(connection).last_message_received_at,
                    old(self).spec_resend_timeout(),
                    old(connection).resend_outstanding_flag,
                );
                let cd1 = spec_cooldown_after(
                    old(self).spec_resend_cooldown(),
                    now_micros,
                    old(self).spec_resend_timeout(),
                );
                let resends = rp && cd1 is None && final(connection).resend_buffer@.len() > 0
                    && old(connection).resend_data@.len() == 0;
                // The probe queue is drained, answers joining the pending
                // messages, lines capped, credits paid.
                &&& cache_model(final(cache).entries_view()) == drained.entries
                &&& final(cache).probes_view() == drained.kept
                &&& final(connection).credits_send@ == drained.credits
                &&& final(operations).sources() == old(operations).sources()
                &&& final(operations).completions_view() == old(operations).completions_view()
                &&& final(operations).outstanding() == old(operations).outstanding()
                // A due frame is assembled: stamped with the next transmit
                // sequence, acknowledging the last received one, batching the
                // pending messages, mirrored into the resend buffer.
                &&& (!sends ==> {
                    &&& final(operations).pending_view() == drained.pending
                    &&& final(connection).packet_data == old(connection).packet_data
                    &&& final(connection).connection_state == old(connection).connection_state
                    &&& final(connection).next_tx_seq@ == old(connection).next_tx_seq@
                    &&& final(connection).resend_buffer@ == old(connection).resend_buffer@
                    &&& final(connection).credits_receive@ == old(connection).credits_receive@
                    &&& final(self).spec_last_send() == old(self).spec_last_send()
                    &&& final(self).spec_ack_required_since() == ack1
                })
                &&& (sends ==> {
                    let frame = final(connection).packet_data->0@;
                    let hdr = spec_frame_header(frame);
                    &&& final(connection).packet_data is Some
                    &&& hdr.sequence_number == old(connection).next_tx_seq@
                    &&& hdr.sequence_number_ack == old(connection).last_rx_seq@
                    &&& hdr.message_type == tr.0.spec_num()
                    &&& final(connection).connection_state == tr.1
                    &&& final(operations).pending_view() == drained.pending.skip(b.0)
                    &&& final(connection).next_tx_seq@ == seq_incremented(
                        old(connection).next_tx_seq@,
                    )
                    &&& final(connection).resend_buffer@.len() == old(connection).resend_buffer@.len() + 1
                    &&& final(connection).resend_buffer@.last()@ == frame
                    &&& spec_grant_rel(
                        old(connection).credits_receive@,
                        final(connection).credits_receive@,
                        hdr.chan,
                        hdr.credit,
                    )
                    &&& final(self).spec_last_send() == now_micros
                    &&& final(self).spec_ack_required_since() is None
                })
                // After a NAK or a silent peer, outside the cooldown, every
                // unacknowledged frame is queued again, byte for byte.
                &&& (!rp ==> final(connection).resend_data@ == old(connection).resend_data@
                    && final(connection).resend_outstanding_flag == old(connection).resend_outstanding_flag && final(self).spec_resend_cooldown() == old(self).spec_resend_cooldown())
                &&& (rp && cd1 is Some ==> final(connection).resend_data@ == old(connection).resend_data@ && final(connection).resend_outstanding_flag == old(connection).resend_outstanding_flag && final(self).spec_resend_cooldown() == cd1)
                &&& (resends ==> {
                    &&& final(connection).resend_data@.len() == final(connection).resend_buffer@.len()
                    &&& (forall|k: int|
                        0 <= k < final(connection).resend_buffer@.len() ==> #[trigger] final(connection).resend_data@[k]@ == final(connection).resend_buffer@[k]@)
                    &&& final(connection).resend_outstanding_flag == false
                    &&& final(self).spec_resend_cooldown() == Some(now_micros)
                })
                &&& (rp && cd1 is None && !resends ==> final(connection).resend_data@ == old(connection).resend_data@ && final(connection).resend_outstanding_flag == old(connection).resend_outstanding_flag && final(self).spec_resend_cooldown() is None)
                // Timer bookkeeping; the configuration never moves.
                &&& final(self).spec_last_executed() == now_micros
                &&& final(self).spec_cycle() == old(self).spec_cycle()
                &&& final(self).spec_ack_only_timeout() == old(self).spec_ack_only_timeout()
                &&& final(self).spec_resend_timeout() == old(self).spec_resend_timeout()
                &&& final(self).spec_heartbeat() == old(self).spec_heartbeat()
            }),
    {
        let elapsed = if now_micros >= self.last_executed {
            now_micros - self.last_executed
        } else {
            0
        };
        if elapsed < self.cycle {
            return ;
        }
        self.last_executed = now_micros;

        let ghost p_old = old(operations).pending_view();
        cache.process_probes(operations, &mut connection.credits_send);
        let ghost p_new = operations.pending_view();

        self.set_ack_timeout(now_micros, connection);

        if self.send_required(now_micros, operations, connection) || self.heartbeat(now_micros) {
            let mut msgs = operations.take_pending();
            proof {
                assert forall|i: int|
                    0 <= i < msgs@.len() implies #[trigger] msgs@[i]@.len() + ETHERNET_MAX
                    <= usize::MAX by {
                    assert(msgs@.map_values(|v: Vec<u8>| v@)[i] == msgs@[i]@);
                    assert(msgs@[i]@ == p_new[i]);
                    if i < p_old.len() {
                        assert(p_new.take(p_old.len() as int)[i] == p_new[i]);
                        assert(p_old[i].len() + ETHERNET_MAX <= usize::MAX);
                    } else {
                        assert(p_new[i].len() <= 24);
                    }
                }
            }
            let sent = connection.send_packet(&mut msgs, operations.num_outstanding() != 0);
            let ghost remainder = msgs@.map_values(|v: Vec<u8>| v@);
            operations.put_back_pending(msgs);
            proof {
                assert(operations.pending_view() =~= remainder);
            }
            if sent.is_ok() {
                self.last_send = now_micros;
                self.ack_required_since = None;
            }
        }

        if self.reset_pending(now_micros, connection) {
            self.check_resend_cooldown(now_micros);
            if self.resend_cooldown.is_none() {
                if connection.resend().is_ok() {
                    self.resend_cooldown = Some(now_micros);
                }
            }
        }
    }
}

} // verus!
