//! The per-peer connection: reliable, in-order delivery over an unreliable
//! link.
//!
//! A connection owns its sequence counters, its credit pools, the
//! pending-send slot, the resend buffer and the open/close state machine.
//! Assembling a frame and digesting a received one are single steps here;
//! the loops that move frames to and from the link, and the clock, live with
//! the caller, which passes timestamps in microseconds where one is needed.

use vstd::prelude::*;

use crate::credits::Credits;
use crate::credits::spec_grant_log2;
use crate::omnixtend::OMNIXTEND_ETHERTYPE;
use crate::omnixtend::OmnixtendHeader;
use crate::omnixtend::ParsedFrame;
use crate::omnixtend::parse_frame;
use crate::omnixtend::spec_eth_header_bytes;
use crate::omnixtend::spec_frame_header;
use crate::sequence_number::SEQ_MAX;
use crate::sequence_number::SEQ_MODULUS;
use crate::sequence_number::SequenceNumber;
use crate::sequence_number::lemma_seq_add_incr;
use crate::sequence_number::lemma_seq_add_zero;
use crate::sequence_number::seq_add;
use crate::sequence_number::seq_at_or_after;
use crate::sequence_number::seq_incremented;
use crate::tilelink_messages::OmnixtendChannel;
use crate::tilelink_messages::OmnixtendMessageType;
use crate::utils::pow2_u64;
use crate::wire::push_mac;
use crate::wire::push_u64_be;
use vstd::arithmetic::power2::pow2;

verus! {

/// What a connection operation can fail with.
#[derive(Debug, Clone, Copy, PartialEq, Eq, Structural)]
pub enum Error {
    /// Closing is not allowed in compat mode or before any traffic.
    CompatModeClose,
    /// The frame is addressed to another station.
    ParseMacError { mac: u64 },
    /// The frame carries a foreign EtherType.
    ParseEthType { t: u16 },
    /// The frame's sequence ran ahead of the expected one; a NAK goes out.
    OutOfOrder { got: usize, expected: usize },
    /// No frame may be assembled on an idle connection.
    SendOnIdle,
    /// The previously assembled frame has not been transmitted yet.
    PacketNotSent,
    /// There is nothing to resend.
    NoResendData,
    /// A resend is still being transmitted.
    ResendInProgress,
    /// The bytes are too short to be an OmniXtend frame.
    NotEthernetPacket,
    /// The connection did not reach Idle within the allowed time.
    ConnectionCloseTimeout { timeout_micros: u64 },
}

/// The connection's lifecycle.  The happy path runs Idle, Enabled, Opened,
/// Active, ClosedByHost, ClosedByHostIndicated and back to Idle; a close
/// started by the peer runs through ClosedByClient.
#[derive(Debug, Clone, Copy, PartialEq, Eq, Structural)]
pub enum ConnectionState {
    Idle,
    Active,
    Enabled,
    Opened,
    ClosedByHost,
    ClosedByHostIndicated,
    ClosedByClient,
}

/// A snapshot of the connection's counters.
pub struct ConnectionStatus {
    rx_seq: i32,
    tx_seq: i32,
    they_acked: i32,
    we_acked: i32,
    last_msg_in_micros: u64,
    last_msg_out_micros: u64,
}

impl ConnectionStatus {
    pub closed spec fn spec_rx_seq(&self) -> i32 {
        self.rx_seq
    }

    pub closed spec fn spec_tx_seq(&self) -> i32 {
        self.tx_seq
    }

    pub closed spec fn spec_they_acked(&self) -> i32 {
        self.they_acked
    }

    pub closed spec fn spec_we_acked(&self) -> i32 {
        self.we_acked
    }

    pub closed spec fn spec_last_msg_in_micros(&self) -> u64 {
        self.last_msg_in_micros
    }

    pub closed spec fn spec_last_msg_out_micros(&self) -> u64 {
        self.last_msg_out_micros
    }

    pub fn rx_seq(&self) -> (r: i32)
        ensures
            r == self.spec_rx_seq(),
    {
        self.rx_seq
    }

    pub fn tx_seq(&self) -> (r: i32)
        ensures
            r == self.spec_tx_seq(),
    {
        self.tx_seq
    }

    pub fn they_acked(&self) -> (r: i32)
        ensures
            r == self.spec_they_acked(),
    {
        self.they_acked
    }

    pub fn we_acked(&self) -> (r: i32)
        ensures
            r == self.spec_we_acked(),
    {
        self.we_acked
    }

    /// Time since the last frame arrived, in microseconds.
    pub fn last_msg_in_micros(&self) -> (r: u64)
        ensures
            r == self.spec_last_msg_in_micros(),
    {
        self.last_msg_in_micros
    }

    /// Time since the last frame left, in microseconds.
    pub fn last_msg_out_micros(&self) -> (r: u64)
        ensures
            r == self.spec_last_msg_out_micros(),
    {
        self.last_msg_out_micros
    }
}

/// The sequence number a frame carries in its packet header.
pub open spec fn spec_frame_seq(frame: Seq<u8>) -> u32 {
    spec_frame_header(frame).sequence_number
}

/// One peer's connection.
pub struct Connection {
    /// Skip the open/close handshake and start without send credits.
    pub compat_mode: bool,
    /// Tag used by the owner to tell peers apart.
    pub id: u8,
    pub connection_state: ConnectionState,
    /// At most one prepared frame awaiting transmit.
    pub packet_data: Option<Vec<u8>>,
    /// Frames queued for retransmission, front first.
    pub resend_data: Vec<Vec<u8>>,
    /// Sent frames not yet acknowledged, oldest first.
    pub resend_buffer: Vec<Vec<u8>>,
    pub next_rx_seq: SequenceNumber,
    pub last_rx_seq: SequenceNumber,
    pub next_tx_seq: SequenceNumber,
    pub they_acked: SequenceNumber,
    pub we_acked: SequenceNumber,
    /// The sequence just before the oldest frame still in the resend buffer.
    pub first_in_resend: SequenceNumber,
    /// Credits this side may spend.
    pub credits_send: Credits,
    /// Credits this side owes the peer as grants.
    pub credits_receive: Credits,
    pub my_mac: u64,
    pub other_mac: u64,
    pub last_message_received_at: u64,
    pub last_message_sent_at: u64,
    pub last_ack_status: bool,
    pub send_outstanding_flag: bool,
    pub resend_outstanding_flag: bool,
    pub naks: u64,
}

impl Connection {
    /// The resend window: the buffer holds the frames with the consecutive
    /// sequence numbers right after `first_in_resend`, ending just before
    /// `next_tx_seq`.
    pub open spec fn resend_window_wf(&self) -> bool {
        &&& seq_add(self.first_in_resend@, 1 + self.resend_buffer@.len()) == self.next_tx_seq@
        &&& forall|k: int|
            0 <= k < self.resend_buffer@.len() ==> spec_frame_seq(
                #[trigger] self.resend_buffer@[k]@,
            ) == seq_add(self.first_in_resend@, (k + 1) as nat)
    }

    pub open spec fn wf(&self) -> bool {
        &&& self.next_rx_seq.wf()
        &&& self.last_rx_seq.wf()
        &&& self.next_tx_seq.wf()
        &&& self.they_acked.wf()
        &&& self.we_acked.wf()
        &&& self.first_in_resend.wf()
        &&& self.credits_send.wf()
        &&& self.credits_receive.wf()
        &&& self.my_mac < 0x1000000000000
        &&& self.other_mac < 0x1000000000000
        &&& self.resend_window_wf()
    }

    /// A fresh connection: Idle, sequence counters at zero or at the
    /// sentinel, 128 send credits (none in compat mode), a receive pool of
    /// 2^28 to grant from, and one initial send owed to the peer.
    pub fn new(compat_mode: bool, id: u8, my_mac: u64, other_mac: u64) -> (r: Connection)
        requires
            my_mac < 0x1000000000000,
            other_mac < 0x1000000000000,
        ensures
            r.wf(),
            r.compat_mode == compat_mode,
            r.id == id,
            r.connection_state == ConnectionState::Idle,
            r.packet_data is None,
            r.resend_data@.len() == 0,
            r.resend_buffer@.len() == 0,
            r.next_rx_seq@ == 0,
            r.next_tx_seq@ == 0,
            r.last_rx_seq@ == SEQ_MAX,
            r.they_acked@ == SEQ_MAX,
            r.we_acked@ == SEQ_MAX,
            r.first_in_resend@ == SEQ_MAX,
            forall|i: int|
                0 <= i < 5 ==> #[trigger] r.credits_send@[i] == if compat_mode {
                    0nat
                } else {
                    128nat
                },
            forall|i: int| 0 <= i < 5 ==> #[trigger] r.credits_receive@[i] == 0x10000000nat,
            r.my_mac == my_mac,
            r.other_mac == other_mac,
            r.last_ack_status == false,
            r.send_outstanding_flag == true,
            r.resend_outstanding_flag == false,
            r.naks == 0,
            r.last_message_received_at == 0,
            r.last_message_sent_at == 0,
    {
        let default_credits: usize = if compat_mode {
            0
        } else {
            128
        };
        let r = Connection {
            compat_mode,
            id,
            connection_state: ConnectionState::Idle,
            packet_data: None,
            resend_data: Vec::new(),
            resend_buffer: Vec::new(),
            next_rx_seq: SequenceNumber::new(0),
            last_rx_seq: SequenceNumber::new(SEQ_MAX),
            next_tx_seq: SequenceNumber::new(0),
            they_acked: SequenceNumber::new(SEQ_MAX),
            we_acked: SequenceNumber::new(SEQ_MAX),
            first_in_resend: SequenceNumber::new(SEQ_MAX),
            credits_send: Credits::new(default_credits),
            credits_receive: Credits::new(0x10000000),
            my_mac,
            other_mac,
            last_message_received_at: 0,
            last_message_sent_at: 0,
            last_ack_status: false,
            send_outstanding_flag: true,
            resend_outstanding_flag: false,
            naks: 0,
        };
        proof {
            vstd::arithmetic::div_mod::lemma_mod_self_0(SEQ_MODULUS as int);
            assert(seq_add(SEQ_MAX, 1) == 0);
        }
        r
    }

    pub fn connection_state(&self) -> (r: ConnectionState)
        ensures
            r == self.connection_state,
    {
        self.connection_state
    }

    pub fn is_active(&self) -> (r: bool)
        ensures
            r == (self.connection_state == ConnectionState::Active),
    {
        self.connection_state == ConnectionState::Active
    }

    /// Leave Idle: compat mode jumps straight to Active, otherwise the open
    /// handshake starts in Enabled.  On any other state nothing changes.
    pub fn establish_connection(&mut self)
        requires
            old(self).wf(),
        ensures
            final(self).wf(),
            old(self).connection_state == ConnectionState::Idle ==> final(self).connection_state
                == if old(self).compat_mode {
                ConnectionState::Active
            } else {
                ConnectionState::Enabled
            },
            old(self).connection_state != ConnectionState::Idle ==> final(self).connection_state
                == old(self).connection_state,
            *final(self) == (Connection {
                connection_state: final(self).connection_state,
                ..*old(self)
            }),
    {
        if self.connection_state == ConnectionState::Idle {
            if self.compat_mode {
                self.connection_state = ConnectionState::Active;
            } else {
                self.connection_state = ConnectionState::Enabled;
            }
        }
    }

    /// Move an Active or Opened connection to ClosedByHost and owe the peer
    /// a frame; the next assembled frame with no pending operations carries
    /// the CloseConnection message.
    pub fn initiate_close_connection(&mut self) -> (r: Result<(), Error>)
        requires
            old(self).wf(),
        ensures
            final(self).wf(),
            r is Ok,
            (old(self).connection_state == ConnectionState::Active || old(self).connection_state
                == ConnectionState::Opened) ==> *final(self) == (Connection {
                connection_state: ConnectionState::ClosedByHost,
                send_outstanding_flag: true,
                ..*old(self)
            }),
            !(old(self).connection_state == ConnectionState::Active || old(self).connection_state
                == ConnectionState::Opened) ==> *final(self) == *old(self),
    {
        if self.connection_state == ConnectionState::Active || self.connection_state
            == ConnectionState::Opened {
            self.connection_state = ConnectionState::ClosedByHost;
            self.send_outstanding_flag = true;
        }
        Ok(())
    }

    /// Gate of a close request, raising the error a rejected close carries.
    pub fn close_precheck(&self) -> (r: Result<(), Error>)
        ensures
            r is Ok <==> !(self.compat_mode || self.connection_state == ConnectionState::Idle || (
            self.connection_state == ConnectionState::Opened && self.last_rx_seq@ == SEQ_MAX)
                || self.connection_state == ConnectionState::Enabled),
            r is Err ==> r->Err_0 == Error::CompatModeClose,
    {
        if self.close_rejected() {
            Err(Error::CompatModeClose)
        } else {
            Ok(())
        }
    }

    /// Whether a close request must be rejected: compat mode, an idle or
    /// merely enabled connection, or an opened one that never saw traffic.
    pub fn close_rejected(&self) -> (r: bool)
        ensures
            r == (self.compat_mode || self.connection_state == ConnectionState::Idle || (
            self.connection_state == ConnectionState::Opened && self.last_rx_seq@ == SEQ_MAX)
                || self.connection_state == ConnectionState::Enabled),
    {
        self.compat_mode || self.connection_state == ConnectionState::Idle || (
        self.connection_state == ConnectionState::Opened && self.last_rx_seq.val() == SEQ_MAX)
            || self.connection_state == ConnectionState::Enabled
    }

    /// The open frame is known acknowledged once the resend window has moved
    /// past the initial sequence; a close may proceed then without risking a
    /// resend that carries the open flag again.
    pub fn open_frame_acknowledged(&self) -> (r: bool)
        ensures
            r == (self.first_in_resend@ != SEQ_MAX),
    {
        self.first_in_resend.val() != SEQ_MAX
    }

    /// The credits this side may spend.
    pub fn credits(&self) -> (r: &Credits)
        ensures
            r == &self.credits_send,
    {
        &self.credits_send
    }

    /// Book credits that will be granted to the peer in packet headers.
    pub fn add_receive_credits(&mut self, chan: OmnixtendChannel, credits: usize)
        requires
            old(self).wf(),
        ensures
            final(self).wf(),
            chan == OmnixtendChannel::INVALID ==> final(self).credits_receive@ == old(self).credits_receive@,
            chan != OmnixtendChannel::INVALID ==> final(self).credits_receive@ == old(self).credits_receive@.update(
                crate::credits::spec_chan_index(chan),
                if old(self).credits_receive@[crate::credits::spec_chan_index(chan)] + credits
                    <= usize::MAX {
                    (old(self).credits_receive@[crate::credits::spec_chan_index(chan)]
                        + credits) as nat
                } else {
                    usize::MAX as nat
                },
            ),
            *final(self) == (Connection { credits_receive: final(self).credits_receive, ..*old(self) }),
    {
        self.credits_receive.add(chan, credits);
    }

    /// Application messages are pending, or a state change owes the peer a
    /// frame, or the receive pool holds grants to advertise.
    pub fn send_outstanding(&self) -> (r: bool)
        requires
            self.wf(),
        ensures
            r == (self.send_outstanding_flag || exists|i: int|
                0 <= i < 5 && self.credits_receive@[i] > 0),
    {
        self.send_outstanding_flag || self.credits_receive.any()
    }

    /// The last acknowledged sequence differs from the last received one.
    pub fn ack_outstanding(&self) -> (r: bool)
        ensures
            r == (self.we_acked@ != self.last_rx_seq@),
    {
        self.we_acked.val() != self.last_rx_seq.val()
    }

    /// A NAK arrived or the resend timer fired.
    pub fn resend_outstanding(&self) -> (r: bool)
        ensures
            r == self.resend_outstanding_flag,
    {
        self.resend_outstanding_flag
    }

    /// When the last frame arrived, in microseconds.
    pub fn last_message_received_at(&self) -> (r: u64)
        ensures
            r == self.last_message_received_at,
    {
        self.last_message_received_at
    }

    /// The connection's counters, with ages relative to `now_micros`.
    pub fn status(&self, now_micros: u64) -> (r: ConnectionStatus)
        ensures
            r.spec_rx_seq() == self.next_rx_seq@ as i32,
            r.spec_tx_seq() == self.next_tx_seq@ as i32,
            r.spec_they_acked() == self.they_acked@ as i32,
            r.spec_we_acked() == self.we_acked@ as i32,
            r.spec_last_msg_in_micros() == if now_micros >= self.last_message_received_at {
                (now_micros - self.last_message_received_at) as u64
            } else {
                0u64
            },
            r.spec_last_msg_out_micros() == if now_micros >= self.last_message_sent_at {
                (now_micros - self.last_message_sent_at) as u64
            } else {
                0u64
            },
    {
        ConnectionStatus {
            rx_seq: self.next_rx_seq.val() as i32,
            tx_seq: self.next_tx_seq.val() as i32,
            they_acked: self.they_acked.val() as i32,
            we_acked: self.we_acked.val() as i32,
            last_msg_in_micros: if now_micros >= self.last_message_received_at {
                now_micros - self.last_message_received_at
            } else {
                0
            },
            last_msg_out_micros: if now_micros >= self.last_message_sent_at {
                now_micros - self.last_message_sent_at
            } else {
                0
            },
        }
    }

    /// Hand the transmitter the next frame: a queued resend first, else the
    /// prepared frame.
    pub fn get_packet(&mut self, now_micros: u64) -> (r: Option<Vec<u8>>)
        requires
            old(self).wf(),
        ensures
            final(self).wf(),
            old(self).resend_data@.len() > 0 ==> {
                &&& r is Some && r->0 == old(self).resend_data@[0]
                &&& *final(self) == (Connection {
                    resend_data: final(self).resend_data,
                    last_message_sent_at: now_micros,
                    ..*old(self)
                })
                &&& final(self).resend_data@ == old(self).resend_data@.skip(1)
            },
            old(self).resend_data@.len() == 0 && old(self).packet_data is Some ==> {
                &&& r == old(self).packet_data
                &&& *final(self) == (Connection {
                    packet_data: Option::None,
                    last_message_sent_at: now_micros,
                    ..*old(self)
                })
            },
            old(self).resend_data@.len() == 0 && old(self).packet_data is None ==> r is None
                && *final(self) == *old(self),
    {
        if self.resend_data.len() > 0 {
            let p = self.resend_data.remove(0);
            self.last_message_sent_at = now_micros;
            Some(p)
        } else if self.packet_data.is_some() {
            let mut taken: Option<Vec<u8>> = None;
            core::mem::swap(&mut taken, &mut self.packet_data);
            self.last_message_sent_at = now_micros;
            taken
        } else {
            None
        }
    }

    /// Queue every unacknowledged frame for retransmission, byte for byte as
    /// first sent.  Refused while nothing awaits an acknowledgement or while
    /// a resend is still draining.
    pub fn resend(&mut self) -> (r: Result<(), Error>)
        requires
            old(self).wf(),
        ensures
            final(self).wf(),
            old(self).resend_buffer@.len() == 0 ==> r == Result::<(), Error>::Err(
                Error::NoResendData,
            ) && *final(self) == *old(self),
            old(self).resend_buffer@.len() > 0 && old(self).resend_data@.len() != 0 ==> r
                == Result::<(), Error>::Err(Error::ResendInProgress) && *final(self) == *old(self),
            old(self).resend_buffer@.len() > 0 && old(self).resend_data@.len() == 0 ==> {
                &&& r is Ok
                &&& final(self).resend_data@.len() == old(self).resend_buffer@.len()
                &&& forall|k: int|
                    0 <= k < old(self).resend_buffer@.len() ==> #[trigger] final(self).resend_data@[k]@ == old(self).resend_buffer@[k]@
                &&& *final(self) == (Connection {
                    resend_data: final(self).resend_data,
                    resend_outstanding_flag: false,
                    ..*old(self)
                })
            },
    {
        if self.resend_buffer.len() == 0 {
            return Err(Error::NoResendData);
        }
        if self.resend_data.len() != 0 {
            return Err(Error::ResendInProgress);
        }
        let n = self.resend_buffer.len();
        let mut queued: Vec<Vec<u8>> = Vec::new();
        let mut i: usize = 0;
        while i < n
            invariant
                n == self.resend_buffer@.len(),
                i <= n,
                queued@.len() == i,
                forall|k: int| 0 <= k < i ==> #[trigger] queued@[k]@ == self.resend_buffer@[k]@,
            decreases n - i,
        {
            let copy = clone_bytes(&self.resend_buffer[i]);
            queued.push(copy);
            i = i + 1;
        }
        self.resend_data = queued;
        self.resend_outstanding_flag = false;
        Ok(())
    }
}

/// Copy a byte string.
fn clone_bytes(v: &Vec<u8>) -> (r: Vec<u8>)
    ensures
        r@ == v@,
{
    let len = v.len();
    let mut r: Vec<u8> = Vec::new();
    let mut i: usize = 0;
    while i < len
        invariant
            len == v@.len(),
            i <= len,
            r@ =~= v@.subrange(0, i as int),
        decreases len - i,
    {
        r.push(v[i]);
        i = i + 1;
        proof {
            assert(r@ =~= v@.subrange(0, i as int));
        }
    }
    proof {
        assert(r@ =~= v@);
    }
    r
}

/// Raise the close-timeout error once the elapsed time passes the limit, if
/// one was set.
pub fn check_timeout(timeout_micros: Option<u64>, elapsed_micros: u64) -> (r: Result<(), Error>)
    ensures
        r is Ok <==> (timeout_micros is None || elapsed_micros < timeout_micros->0),
        r is Err ==> r->Err_0 == (Error::ConnectionCloseTimeout {
            timeout_micros: timeout_micros->0,
        }),
{
    match timeout_micros {
        Some(t) => {
            if elapsed_micros >= t {
                Err(Error::ConnectionCloseTimeout { timeout_micros: t })
            } else {
                Ok(())
            }
        },
        Option::None => Ok(()),
    }
}


/// On-wire limits: jumbo maximum and zero-padded minimum frame size.
pub const ETHERNET_MAX: usize = 9000;

pub const ETHERNET_MIN: usize = 70;

/// The greedy batching of pending messages into one frame.  Starting from a
/// frame length and a mask counter, it yields how many messages fit, the
/// final frame length and mask counter, and the start-of-message mask: a
/// message fits while the mask counter is below 64 and the frame stays under
/// the jumbo limit; each taken message sets the mask bit at the counter and
/// advances it by the message's flit count.
pub open spec fn spec_batch(msgs: Seq<Seq<u8>>, len: int, cntr: int, mask: u64) -> (
    int,
    int,
    int,
    u64,
)
    decreases msgs.len(),
{
    if msgs.len() == 0 {
        (0int, len, cntr, mask)
    } else if cntr < 64 && len + msgs[0].len() < ETHERNET_MAX {
        let rec = spec_batch(
            msgs.skip(1),
            len + msgs[0].len(),
            cntr + msgs[0].len() / 8,
            mask | (1u64 << cntr),
        );
        (1 + rec.0, rec.1, rec.2, rec.3)
    } else {
        (0int, len, cntr, mask)
    }
}

/// All the bytes of a message row, in order.
pub open spec fn spec_concat(msgs: Seq<Seq<u8>>) -> Seq<u8>
    decreases msgs.len(),
{
    if msgs.len() == 0 {
        Seq::empty()
    } else {
        msgs[0] + spec_concat(msgs.skip(1))
    }
}

/// The batch never takes more messages than there are.
pub proof fn lemma_batch_count_bounds(msgs: Seq<Seq<u8>>, len: int, cntr: int, mask: u64)
    ensures
        0 <= spec_batch(msgs, len, cntr, mask).0 <= msgs.len(),
        spec_batch(msgs, len, cntr, mask).1 >= len,
    decreases msgs.len(),
{
    if msgs.len() == 0 {
    } else if cntr < 64 && len + msgs[0].len() < ETHERNET_MAX {
        lemma_batch_count_bounds(
            msgs.skip(1),
            len + msgs[0].len(),
            cntr + msgs[0].len() / 8,
            mask | (1u64 << cntr),
        );
    }
}

/// Whether a message may be appended to the frame being assembled, and the
/// bookkeeping when it may: the frame length grows by the message, the mask
/// gains the bit at the counter, and the counter moves past the message's
/// flits.
pub fn space_in_packet(
    packet_len: &mut usize,
    p: &[u8],
    mask_cntr: &mut usize,
    ethernet_max: usize,
    mask: &mut u64,
) -> (r: bool)
    requires
        *old(packet_len) + p@.len() <= usize::MAX,
    ensures
        r == (*old(mask_cntr) < 64 && *old(packet_len) + p@.len() < ethernet_max),
        r ==> {
            &&& *final(packet_len) == *old(packet_len) + p@.len()
            &&& *final(mask) == (*old(mask) | (1u64 << (*old(mask_cntr) as u64)))
            &&& *final(mask_cntr) == *old(mask_cntr) + p@.len() / 8
        },
        !r ==> *final(packet_len) == *old(packet_len) && *final(mask) == *old(mask)
            && *final(mask_cntr) == *old(mask_cntr),
{
    let packet_len_new = *packet_len + p.len();
    if *mask_cntr < 64 && packet_len_new < ethernet_max {
        *packet_len = packet_len_new;
        *mask = *mask | (1u64 << (*mask_cntr as u64));
        *mask_cntr = *mask_cntr + p.len() / 8;
        true
    } else {
        false
    }
}

impl Connection {
    /// Append pending messages greedily, pad the frame to the minimum wire
    /// size, and close it with the start-of-message mask trailer.  Returns
    /// whether any message went in.
    fn put_messages(payload: &mut Vec<u8>, operations: &mut Vec<Vec<u8>>) -> (r: bool)
        requires
            old(payload)@.len() == 22,
            forall|i: int|
                0 <= i < old(operations)@.len() ==> #[trigger] old(operations)@[i]@.len()
                    + ETHERNET_MAX <= usize::MAX,
        ensures
            ({
                let msgs = old(operations)@.map_values(|v: Vec<u8>| v@);
                let b = spec_batch(msgs, 30, 0, 0);
                let total = b.1;
                let pad = if total < 70 {
                    70 - total
                } else {
                    0int
                };
                &&& r == (b.0 > 0)
                &&& final(operations)@.map_values(|v: Vec<u8>| v@) == msgs.skip(b.0)
                &&& final(payload)@ == old(payload)@ + spec_concat(msgs.take(b.0)) + Seq::new(
                    pad as nat,
                    |i: int| 0u8,
                ) + crate::wire::spec_u64_be_bytes(b.3)
                &&& final(payload)@.len() == if total < 70 {
                    70int
                } else {
                    total
                }
            }),
    {
        let ghost msgs = operations@.map_values(|v: Vec<u8>| v@);
        let _pending_count = operations.len();
        let mut mask: u64 = 0;
        let mut mask_cntr: usize = 0;
        let mut packet_len: usize = payload.len() + 8;
        let mut taken: usize = 0;
        let ghost payload0 = payload@;
        proof {
            assert(msgs.skip(0) =~= msgs);
            assert(spec_concat(msgs.take(0)) =~= Seq::<u8>::empty());
            assert(payload@ =~= payload0 + spec_concat(msgs.take(0)));
        }
        let mut some_data = false;
        loop
            invariant
                taken <= msgs.len(),
                msgs.len() <= usize::MAX,
                operations@.map_values(|v: Vec<u8>| v@) == msgs.skip(taken as int),
                msgs == old(operations)@.map_values(|v: Vec<u8>| v@),
                forall|i: int|
                    0 <= i < operations@.len() ==> #[trigger] operations@[i]@.len() + ETHERNET_MAX
                        <= usize::MAX,
                payload@ == payload0 + spec_concat(msgs.take(taken as int)),
                payload0.len() == 22,
                packet_len == payload@.len() + 8,
                packet_len < ETHERNET_MAX || packet_len == 30,
                some_data == (taken > 0),
                spec_batch(msgs, 30, 0, 0) == {
                    let rec = spec_batch(
                        msgs.skip(taken as int),
                        packet_len as int,
                        mask_cntr as int,
                        mask,
                    );
                    ((taken + rec.0) as int, rec.1, rec.2, rec.3)
                },
            ensures
                taken <= msgs.len(),
                operations@.map_values(|v: Vec<u8>| v@) == msgs.skip(taken as int),
                payload@ == payload0 + spec_concat(msgs.take(taken as int)),
                packet_len == payload@.len() + 8,
                some_data == (taken > 0),
                spec_batch(msgs, 30, 0, 0) == (
                    taken as int,
                    packet_len as int,
                    mask_cntr as int,
                    mask,
                ),
            decreases msgs.len() - taken,
        {
            proof {
                if taken < msgs.len() {
                    assert(operations@.map_values(|v: Vec<u8>| v@)[0] == msgs.skip(taken as int)[0]);
                    assert(operations@[0]@ == msgs[taken as int]);
                }
            }
            if operations.len() == 0 {
                proof {
                    assert(msgs.skip(taken as int).len() == 0);
                }
                break ;
            }
            let fits = space_in_packet(
                &mut packet_len,
                operations[0].as_slice(),
                &mut mask_cntr,
                ETHERNET_MAX,
                &mut mask,
            );
            if !fits {
                break ;
            }
            let ghost prev_taken = taken as int;
            let ghost ops_before = operations@;
            let msg = operations.remove(0);
            push_bytes_conn(payload, &msg);
            taken = taken + 1;
            some_data = true;
            proof {
                assert(msg@ == msgs[prev_taken]);
                let mapped = operations@.map_values(|v: Vec<u8>| v@);
                assert forall|i: int|
                    0 <= i < operations@.len() implies #[trigger] mapped[i] == msgs.skip(
                    taken as int,
                )[i] by {
                    assert(operations@[i] == ops_before[i + 1]);
                    assert(ops_before.map_values(|v: Vec<u8>| v@)[i + 1] == ops_before[i + 1]@);
                }
                assert(operations@.map_values(|v: Vec<u8>| v@) =~= msgs.skip(taken as int));
                assert(msgs.take(taken as int) =~= msgs.take(prev_taken).push(msgs[prev_taken]));
                lemma_concat_push(msgs.take(prev_taken), msgs[prev_taken]);
                assert(payload@ =~= payload0 + spec_concat(msgs.take(taken as int)));
                assert(msgs.skip(prev_taken).skip(1) =~= msgs.skip(taken as int));
                assert(msgs.skip(prev_taken)[0] == msgs[prev_taken]);
            }
        }
        // Zero-pad up to the minimum on-wire size, mask trailer included.
        let ghost pre_pad = payload@;
        let ghost pre_len = packet_len as int;
        while packet_len < ETHERNET_MIN
            invariant
                packet_len == payload@.len() + 8,
                pre_len <= packet_len,
                packet_len <= if pre_len < 70 {
                    70int
                } else {
                    pre_len
                },
                payload@ == pre_pad + Seq::new((packet_len - pre_len) as nat, |i: int| 0u8),
            decreases ETHERNET_MIN - packet_len,
        {
            payload.push(0);
            packet_len = packet_len + 1;
            proof {
                assert(payload@ =~= pre_pad + Seq::new((packet_len - pre_len) as nat, |i: int| 0u8));
            }
        }
        proof {
            if pre_len >= 70 {
                assert(payload@ =~= pre_pad);
            }
        }
        push_u64_be(payload, mask);
        proof {
            let b = spec_batch(msgs, 30, 0, 0);
            let pad = if b.1 < 70 {
                70 - b.1
            } else {
                0int
            };
            assert(payload@ =~= payload0 + spec_concat(msgs.take(b.0)) + Seq::new(
                pad as nat,
                |i: int| 0u8,
            ) + crate::wire::spec_u64_be_bytes(b.3));
        }
        some_data
    }
}

/// Concatenating one more message appends its bytes.
proof fn lemma_concat_push(msgs: Seq<Seq<u8>>, m: Seq<u8>)
    ensures
        spec_concat(msgs.push(m)) == spec_concat(msgs) + m,
    decreases msgs.len(),
{
    if msgs.len() == 0 {
        assert(msgs.push(m)[0] == m);
        assert(msgs.push(m).skip(1) =~= Seq::<Seq<u8>>::empty());
        assert(spec_concat(msgs.push(m)) == m + spec_concat(Seq::<Seq<u8>>::empty()));
        assert(m + Seq::<u8>::empty() =~= Seq::<u8>::empty() + m);
    } else {
        assert(msgs.push(m)[0] == msgs[0]);
        assert(msgs.push(m).skip(1) =~= msgs.skip(1).push(m));
        lemma_concat_push(msgs.skip(1), m);
        assert(spec_concat(msgs.push(m)) == msgs[0] + (spec_concat(msgs.skip(1)) + m));
        assert(msgs[0] + (spec_concat(msgs.skip(1)) + m) =~= (msgs[0] + spec_concat(msgs.skip(1)))
            + m);
    }
}

/// Append raw bytes to the frame being assembled.
fn push_bytes_conn(buf: &mut Vec<u8>, data: &Vec<u8>)
    ensures
        final(buf)@ == old(buf)@ + data@,
{
    let len = data.len();
    let mut i: usize = 0;
    while i < len
        invariant
            len == data@.len(),
            i <= len,
            buf@ =~= old(buf)@ + data@.subrange(0, i as int),
        decreases len - i,
    {
        buf.push(data[i]);
        i = i + 1;
        proof {
            assert(buf@ =~= old(buf)@ + data@.subrange(0, i as int));
        }
    }
    proof {
        assert(buf@ =~= old(buf)@ + data@);
    }
}


/// The message type a frame carries and the state the connection moves to
/// when it is assembled: leaving Enabled announces the open, leaving
/// ClosedByHost with no pending operations announces the close, a close
/// started by the peer is answered and the connection returns to Idle.
/// Compat mode skips the handshake entirely.
pub open spec fn spec_send_transition(
    compat: bool,
    state: ConnectionState,
    outstanding: bool,
) -> (OmnixtendMessageType, ConnectionState) {
    if compat {
        (OmnixtendMessageType::NORMAL, state)
    } else if state == ConnectionState::Enabled {
        (OmnixtendMessageType::OpenConnection, ConnectionState::Opened)
    } else if state == ConnectionState::ClosedByHost && !outstanding {
        (OmnixtendMessageType::CloseConnection, ConnectionState::ClosedByHostIndicated)
    } else if state == ConnectionState::ClosedByClient && !outstanding {
        (OmnixtendMessageType::CloseConnection, ConnectionState::Idle)
    } else {
        (OmnixtendMessageType::NORMAL, state)
    }
}

/// How one grant extraction relates the receive pools before and after a
/// send, and the channel/credit fields it puts in the header.
pub open spec fn spec_grant_rel(olds: Seq<nat>, news: Seq<nat>, chan: u8, credit: u8) -> bool {
    if forall|i: int| 0 <= i < 5 ==> olds[i] == 0 {
        chan == 0 && credit == 0 && news == olds
    } else {
        &&& 1 <= chan <= 5
        &&& olds[chan - 1] > 0
        &&& (forall|i: int| 0 <= i < 5 ==> #[trigger] olds[i] <= olds[chan - 1])
        &&& credit == spec_grant_log2(olds[chan - 1])
        &&& news == olds.update(chan - 1, (olds[chan - 1] - pow2(credit as nat)) as nat)
    }
}

/// A frame assembled from an Ethernet header, a packet header and a body
/// parses back to that packet header.
proof fn lemma_assembled_header(dst: u64, src: u64, hdr: OmnixtendHeader, rest: Seq<u8>)
    requires
        hdr.wf(),
    ensures
        spec_frame_header(spec_eth_header_bytes(dst, src) + hdr.spec_bytes() + rest) == hdr,
{
    let frame = spec_eth_header_bytes(dst, src) + hdr.spec_bytes() + rest;
    assert(frame.subrange(14, 22) =~= hdr.spec_bytes());
    crate::wire::lemma_u64_be_roundtrip(hdr.spec_to_u64());
    crate::omnixtend::lemma_ox_header_roundtrip(hdr);
}

impl Connection {
    /// Build exactly one frame: batch pending messages behind the headers,
    /// stamp the next transmit sequence, acknowledge the last received one,
    /// piggyback a credit grant, mirror the frame into the resend buffer and
    /// leave it in the pending-send slot.  Fails without effect on an idle
    /// connection or while the previous frame has not been transmitted.
    pub fn send_packet(&mut self, operations: &mut Vec<Vec<u8>>, outstanding_requests: bool) -> (r:
        Result<(), Error>)
        requires
            old(self).wf(),
            forall|i: int|
                0 <= i < old(operations)@.len() ==> #[trigger] old(operations)@[i]@.len()
                    + ETHERNET_MAX <= usize::MAX,
        ensures
            final(self).wf(),
            old(self).connection_state == ConnectionState::Idle ==> r == Result::<(), Error>::Err(
                Error::SendOnIdle,
            ) && *final(self) == *old(self) && *final(operations) == *old(operations),
            old(self).connection_state != ConnectionState::Idle && old(self).packet_data is Some
                ==> r == Result::<(), Error>::Err(Error::PacketNotSent) && *final(self) == *old(
                self,
            ) && *final(operations) == *old(operations),
            old(self).connection_state != ConnectionState::Idle && old(self).packet_data is None
                ==> {
                let msgs = old(operations)@.map_values(|v: Vec<u8>| v@);
                let b = spec_batch(msgs, 30, 0, 0);
                let tr = spec_send_transition(
                    old(self).compat_mode,
                    old(self).connection_state,
                    outstanding_requests,
                );
                let frame = final(self).packet_data->0@;
                let hdr = spec_frame_header(frame);
                &&& r is Ok
                &&& final(self).packet_data is Some
                &&& hdr.vc == 0
                &&& hdr.message_type == tr.0.spec_num()
                &&& hdr.sequence_number == old(self).next_tx_seq@
                &&& hdr.sequence_number_ack == old(self).last_rx_seq@
                &&& hdr.ack == (if old(self).last_ack_status {
                    1u8
                } else {
                    0u8
                })
                &&& spec_grant_rel(
                    old(self).credits_receive@,
                    final(self).credits_receive@,
                    hdr.chan,
                    hdr.credit,
                )
                &&& frame == spec_eth_header_bytes(old(self).other_mac, old(self).my_mac)
                    + hdr.spec_bytes() + spec_concat(msgs.take(b.0)) + Seq::new(
                    (if b.1 < 70 {
                        70 - b.1
                    } else {
                        0int
                    }) as nat,
                    |i: int| 0u8,
                ) + crate::wire::spec_u64_be_bytes(b.3)
                &&& final(operations)@.map_values(|v: Vec<u8>| v@) == msgs.skip(b.0)
                &&& final(self).connection_state == tr.1
                &&& final(self).resend_buffer@.len() == old(self).resend_buffer@.len() + 1
                &&& final(self).resend_buffer@ == old(self).resend_buffer@.push(
                    final(self).resend_buffer@.last(),
                )
                &&& final(self).resend_buffer@.last()@ == frame
                &&& final(self).next_tx_seq@ == seq_incremented(old(self).next_tx_seq@)
                &&& final(self).we_acked@ == old(self).last_rx_seq@
                &&& final(self).send_outstanding_flag == false
                &&& *final(self) == (Connection {
                    connection_state: final(self).connection_state,
                    packet_data: final(self).packet_data,
                    resend_buffer: final(self).resend_buffer,
                    next_tx_seq: final(self).next_tx_seq,
                    we_acked: final(self).we_acked,
                    credits_receive: final(self).credits_receive,
                    send_outstanding_flag: false,
                    ..*old(self)
                })
            },
    {
        if self.connection_state == ConnectionState::Idle {
            return Err(Error::SendOnIdle);
        }
        if self.packet_data.is_some() {
            return Err(Error::PacketNotSent);
        }
        self.send_outstanding_flag = false;
        let mut buf: Vec<u8> = Vec::new();
        push_mac(&mut buf, self.other_mac);
        push_mac(&mut buf, self.my_mac);
        buf.push(0xAA);
        buf.push(0xAA);
        let cstate = self.connection_state;
        let compat = self.compat_mode;
        let (mt, new_state) = if compat {
            (OmnixtendMessageType::NORMAL, cstate)
        } else if cstate == ConnectionState::Enabled {
            (OmnixtendMessageType::OpenConnection, ConnectionState::Opened)
        } else if cstate == ConnectionState::ClosedByHost && !outstanding_requests {
            (OmnixtendMessageType::CloseConnection, ConnectionState::ClosedByHostIndicated)
        } else if cstate == ConnectionState::ClosedByClient && !outstanding_requests {
            (OmnixtendMessageType::CloseConnection, ConnectionState::Idle)
        } else {
            (OmnixtendMessageType::NORMAL, cstate)
        };
        self.connection_state = new_state;
        let (gchan, gcredit) = self.credits_receive.get_highest();
        let (hchan, hcredit) = if gchan != 0 {
            (gchan as u8, gcredit as u8)
        } else {
            (0u8, 0u8)
        };
        let header = OmnixtendHeader {
            vc: 0,
            message_type: mt.to_num(),
            sequence_number: self.next_tx_seq.val(),
            sequence_number_ack: self.last_rx_seq.val(),
            ack: if self.last_ack_status {
                1
            } else {
                0
            },
            chan: hchan,
            credit: hcredit,
        };
        push_u64_be(&mut buf, header.to_u64());
        proof {
            assert(buf@ =~= spec_eth_header_bytes(old(self).other_mac, old(self).my_mac)
                + header.spec_bytes());
        }
        Connection::put_messages(&mut buf, operations);
        let frame_copy = clone_bytes(&buf);
        let ghost frame = buf@;
        self.packet_data = Some(buf);
        let ack_seq = self.last_rx_seq.val();
        self.we_acked.set(ack_seq);
        self.resend_buffer.push(frame_copy);
        proof {
            let msgs = old(operations)@.map_values(|v: Vec<u8>| v@);
            let b = spec_batch(msgs, 30, 0, 0);
            assert(frame =~= spec_eth_header_bytes(old(self).other_mac, old(self).my_mac)
                + header.spec_bytes() + spec_concat(msgs.take(b.0)) + Seq::new(
                (if b.1 < 70 {
                    70 - b.1
                } else {
                    0int
                }) as nat,
                |i: int| 0u8,
            ) + crate::wire::spec_u64_be_bytes(b.3));
            lemma_assembled_header(
                old(self).other_mac,
                old(self).my_mac,
                header,
                spec_concat(msgs.take(b.0)) + Seq::new(
                    (if b.1 < 70 {
                        70 - b.1
                    } else {
                        0int
                    }) as nat,
                    |i: int| 0u8,
                ) + crate::wire::spec_u64_be_bytes(b.3),
            );
            assert(spec_eth_header_bytes(old(self).other_mac, old(self).my_mac)
                + header.spec_bytes() + (spec_concat(msgs.take(b.0)) + Seq::new(
                (if b.1 < 70 {
                    70 - b.1
                } else {
                    0int
                }) as nat,
                |i: int| 0u8,
            ) + crate::wire::spec_u64_be_bytes(b.3)) =~= frame);
            assert(spec_frame_header(frame) == header);
        }
        self.next_tx_seq.incr();
        proof {
            let n = old(self).resend_buffer@.len();
            lemma_seq_add_incr(old(self).first_in_resend@, (1 + n) as nat);
            assert(self.resend_buffer@ =~= old(self).resend_buffer@.push(
                self.resend_buffer@.last(),
            ));
            assert forall|k: int|
                0 <= k < self.resend_buffer@.len() implies spec_frame_seq(
                #[trigger] self.resend_buffer@[k]@,
            ) == seq_add(self.first_in_resend@, (k + 1) as nat) by {
                if k < n {
                    assert(self.resend_buffer@[k] == old(self).resend_buffer@[k]);
                } else {
                    assert(self.resend_buffer@[k]@ == frame);
                }
            }
        }
        Ok(())
    }
}


/// How many frames an acknowledgement drains from the resend buffer: the
/// window front advances until it meets the acknowledged sequence or the
/// buffer runs out.
pub open spec fn spec_drain_count(first: u32, they: u32, len: nat) -> nat
    decreases len,
{
    if first == they || len == 0 {
        0
    } else {
        1 + spec_drain_count(seq_incremented(first), they, (len - 1) as nat)
    }
}

/// The state a received frame's message type moves the connection to: an
/// opened connection turns active on any traffic, an open request answers an
/// idle connection, a close acknowledges our own close or starts the peer's.
pub open spec fn spec_recv_state(compat: bool, state: ConnectionState, mt: u8) -> ConnectionState {
    if compat {
        state
    } else if mt == 2 && state == ConnectionState::Idle {
        ConnectionState::Active
    } else if mt == 3 && state == ConnectionState::ClosedByHostIndicated {
        ConnectionState::Idle
    } else if mt == 3 {
        ConnectionState::ClosedByClient
    } else if state == ConnectionState::Opened {
        ConnectionState::Active
    } else {
        state
    }
}

/// A close started by the peer owes it an answering frame.
pub open spec fn spec_recv_send_flag(compat: bool, state: ConnectionState, mt: u8, flag: bool) -> bool {
    if !compat && mt == 3 && state != ConnectionState::ClosedByHostIndicated {
        true
    } else {
        flag
    }
}

/// The send-credit pools after a header's piggybacked grant was booked.
pub open spec fn spec_recv_credits(pools: Seq<nat>, chan: u8, credit: u8) -> Seq<nat> {
    let c = OmnixtendChannel::spec_from_num(chan as u64);
    if chan > 0 && c != OmnixtendChannel::INVALID {
        let i = crate::credits::spec_chan_index(c);
        pools.update(
            i,
            if pools[i] + pow2(credit as nat) <= usize::MAX {
                (pools[i] + pow2(credit as nat)) as nat
            } else {
                usize::MAX as nat
            },
        )
    } else {
        pools
    }
}

impl Connection {
    /// Drop acknowledged frames from the front of the resend buffer,
    /// advancing the window edge with each one.
    #[verifier::rlimit(100)]
    fn remove_from_resend(&mut self)
        requires
            old(self).wf(),
        ensures
            final(self).wf(),
            ({
                let d = spec_drain_count(
                    old(self).first_in_resend@,
                    old(self).they_acked@,
                    old(self).resend_buffer@.len(),
                );
                &&& final(self).first_in_resend@ == seq_add(old(self).first_in_resend@, d)
                &&& final(self).resend_buffer@ == old(self).resend_buffer@.skip(d as int)
                &&& *final(self) == (Connection {
                    first_in_resend: final(self).first_in_resend,
                    resend_buffer: final(self).resend_buffer,
                    ..*old(self)
                })
            }),
    {
        let ghost first0 = self.first_in_resend@;
        let ghost they0 = self.they_acked@;
        let ghost len0 = self.resend_buffer@.len();
        let ghost popped: nat = 0nat;
        proof {
            lemma_seq_add_zero(first0);
        }
        while self.first_in_resend.val() != self.they_acked.val() && self.resend_buffer.len() > 0
            invariant
                self.wf(),
                self.they_acked@ == they0,
                first0 < SEQ_MODULUS,
                popped <= len0,
                self.first_in_resend@ == seq_add(first0, popped),
                self.resend_buffer@ == old(self).resend_buffer@.skip(popped as int),
                len0 == old(self).resend_buffer@.len(),
                spec_drain_count(first0, they0, len0) == popped + spec_drain_count(
                    self.first_in_resend@,
                    they0,
                    self.resend_buffer@.len(),
                ),
                *self == (Connection {
                    first_in_resend: self.first_in_resend,
                    resend_buffer: self.resend_buffer,
                    ..*old(self)
                }),
            decreases self.resend_buffer@.len(),
        {
            let ghost cur_first = self.first_in_resend@;
            let ghost cur_len = self.resend_buffer@.len();
            self.first_in_resend.incr();
            self.resend_buffer.remove(0);
            proof {
                popped = popped + 1;
                lemma_seq_add_incr(first0, (popped - 1) as nat);
                assert(self.resend_buffer@ =~= old(self).resend_buffer@.skip(popped as int));
                assert(spec_drain_count(cur_first, they0, cur_len) == 1 + spec_drain_count(
                    seq_incremented(cur_first),
                    they0,
                    (cur_len - 1) as nat,
                ));
                // The window invariant survives: the front moved one up and
                // every remaining frame keeps its place in the window.
                assert forall|k: int|
                    0 <= k < self.resend_buffer@.len() implies spec_frame_seq(
                    #[trigger] self.resend_buffer@[k]@,
                ) == seq_add(self.first_in_resend@, (k + 1) as nat) by {
                    assert(self.resend_buffer@[k] == old(self).resend_buffer@[popped + k]);
                    assert(spec_frame_seq(old(self).resend_buffer@[popped + k]@) == seq_add(
                        first0,
                        (popped + k + 1) as nat,
                    ));
                    lemma_seq_add_assoc(first0, popped, (k + 1) as nat);
                }
                lemma_seq_add_assoc(first0, popped, (1 + self.resend_buffer@.len()) as nat);
            }
        }
        proof {
            if self.first_in_resend@ == they0 || self.resend_buffer@.len() == 0 {
                assert(spec_drain_count(self.first_in_resend@, they0, self.resend_buffer@.len())
                    == 0);
            }
        }
    }
}

/// Advancing by two counts in a row is advancing by their sum.
pub proof fn lemma_seq_add_assoc(v: u32, a: nat, b: nat)
    requires
        v < SEQ_MODULUS,
    ensures
        seq_add(seq_add(v, a), b) == seq_add(v, a + b),
{
    let m = SEQ_MODULUS as int;
    vstd::arithmetic::div_mod::lemma_mod_bound(v + a, m);
    vstd::arithmetic::div_mod::lemma_add_mod_noop(v + a, b as int, m);
    vstd::arithmetic::div_mod::lemma_mod_bound(b as int, m);
    if b < SEQ_MODULUS {
        vstd::arithmetic::div_mod::lemma_small_mod(b, SEQ_MODULUS as nat);
    } else {
        vstd::arithmetic::div_mod::lemma_add_mod_noop((v + a) % m, b as int, m);
    }
}


impl Connection {
    /// Digest one received frame.  A frame for another station or with a
    /// foreign EtherType is rejected.  The expected sequence is accepted:
    /// acknowledgements are booked, the resend window advances, credits are
    /// added, and the payload comes back for demultiplexing.  An older
    /// sequence draws a NAK; a newer one is dropped silently.
    pub fn process_packets(&mut self, v: &[u8], now_micros: u64) -> (r: Result<Vec<u8>, Error>)
        requires
            old(self).wf(),
        ensures
            final(self).wf(),
            v@.len() < 22 ==> r == Result::<Vec<u8>, Error>::Err(Error::NotEthernetPacket)
                && *final(self) == *old(self),
            v@.len() >= 22 ==> ({
                let dst = crate::omnixtend::spec_frame_dst(v@);
                let ethertype = crate::omnixtend::spec_frame_ethertype(v@);
                let hdr = spec_frame_header(v@);
                let ack_only = hdr.message_type == 1;
                let drain = spec_drain_count(
                    old(self).first_in_resend@,
                    hdr.sequence_number_ack,
                    old(self).resend_buffer@.len(),
                );
                &&& (dst != old(self).my_mac ==> r == Result::<Vec<u8>, Error>::Err(
                    Error::ParseMacError { mac: dst },
                ) && *final(self) == *old(self))
                &&& (dst == old(self).my_mac && ethertype != OMNIXTEND_ETHERTYPE ==> r == Result::<
                    Vec<u8>,
                    Error,
                >::Err(Error::ParseEthType { t: ethertype }) && *final(self) == *old(self))
                &&& (dst == old(self).my_mac && ethertype == OMNIXTEND_ETHERTYPE
                    && hdr.sequence_number == old(self).next_rx_seq@ ==> {
                    &&& final(self).last_message_received_at == now_micros
                    &&& final(self).last_rx_seq@ == hdr.sequence_number
                    &&& final(self).they_acked@ == hdr.sequence_number_ack
                    &&& final(self).first_in_resend@ == seq_add(old(self).first_in_resend@, drain)
                    &&& final(self).resend_buffer@ == old(self).resend_buffer@.skip(drain as int)
                    &&& final(self).resend_outstanding_flag == (hdr.ack == 0 || old(
                        self,
                    ).resend_outstanding_flag)
                    &&& (ack_only ==> {
                        &&& r is Ok && r->Ok_0@ == Seq::<u8>::empty()
                        &&& *final(self) == (Connection {
                            last_message_received_at: now_micros,
                            last_rx_seq: final(self).last_rx_seq,
                            they_acked: final(self).they_acked,
                            first_in_resend: final(self).first_in_resend,
                            resend_buffer: final(self).resend_buffer,
                            resend_outstanding_flag: final(self).resend_outstanding_flag,
                            ..*old(self)
                        })
                    })
                    &&& (!ack_only ==> {
                        &&& r is Ok && r->Ok_0@ == crate::omnixtend::spec_frame_payload(v@)
                        &&& final(self).credits_send@ == spec_recv_credits(
                            old(self).credits_send@,
                            hdr.chan,
                            hdr.credit,
                        )
                        &&& final(self).last_ack_status == true
                        &&& final(self).next_rx_seq@ == seq_incremented(old(self).next_rx_seq@)
                        &&& final(self).connection_state == spec_recv_state(
                            old(self).compat_mode,
                            old(self).connection_state,
                            hdr.message_type,
                        )
                        &&& final(self).send_outstanding_flag == spec_recv_send_flag(
                            old(self).compat_mode,
                            old(self).connection_state,
                            hdr.message_type,
                            old(self).send_outstanding_flag,
                        )
                        &&& *final(self) == (Connection {
                            last_message_received_at: now_micros,
                            last_rx_seq: final(self).last_rx_seq,
                            they_acked: final(self).they_acked,
                            first_in_resend: final(self).first_in_resend,
                            resend_buffer: final(self).resend_buffer,
                            resend_outstanding_flag: final(self).resend_outstanding_flag,
                            credits_send: final(self).credits_send,
                            last_ack_status: true,
                            next_rx_seq: final(self).next_rx_seq,
                            connection_state: final(self).connection_state,
                            send_outstanding_flag: final(self).send_outstanding_flag,
                            ..*old(self)
                        })
                    })
                })
                &&& (dst == old(self).my_mac && ethertype == OMNIXTEND_ETHERTYPE
                    && hdr.sequence_number != old(self).next_rx_seq@ && !seq_at_or_after(
                    old(self).next_rx_seq@,
                    hdr.sequence_number,
                ) ==> {
                    &&& (!ack_only ==> {
                        &&& r == Result::<Vec<u8>, Error>::Err(
                            Error::OutOfOrder {
                                got: hdr.sequence_number as usize,
                                expected: old(self).next_rx_seq@ as usize,
                            },
                        )
                        &&& final(self).last_ack_status == false
                        &&& final(self).send_outstanding_flag == true
                        &&& final(self).naks == (if old(self).naks < u64::MAX {
                            (old(self).naks + 1) as u64
                        } else {
                            u64::MAX
                        })
                        &&& *final(self) == (Connection {
                            naks: final(self).naks,
                            last_ack_status: false,
                            send_outstanding_flag: true,
                            ..*old(self)
                        })
                    })
                    &&& (ack_only ==> r is Ok && r->Ok_0@ == Seq::<u8>::empty() && *final(self)
                        == *old(self))
                })
                &&& (dst == old(self).my_mac && ethertype == OMNIXTEND_ETHERTYPE
                    && hdr.sequence_number != old(self).next_rx_seq@ && seq_at_or_after(
                    old(self).next_rx_seq@,
                    hdr.sequence_number,
                ) ==> r is Ok && r->Ok_0@ == Seq::<u8>::empty() && *final(self) == *old(self))
            }),
    {
        let parsed = match parse_frame(v) {
            Some(p) => p,
            Option::None => {
                return Err(Error::NotEthernetPacket);
            },
        };
        if parsed.dst_mac != self.my_mac {
            return Err(Error::ParseMacError { mac: parsed.dst_mac });
        }
        if parsed.ethertype != OMNIXTEND_ETHERTYPE {
            return Err(Error::ParseEthType { t: parsed.ethertype });
        }
        let hdr = parsed.header;
        let ack_only = hdr.message_type == 1;
        if hdr.sequence_number == self.next_rx_seq.val() {
            self.last_message_received_at = now_micros;
            self.last_rx_seq.set(hdr.sequence_number);
            self.they_acked.set(hdr.sequence_number_ack);
            self.remove_from_resend();
            if hdr.ack == 0 {
                self.resend_outstanding_flag = true;
            }
            if !ack_only {
                if hdr.chan > 0 {
                    let grant = pow2_u64(hdr.credit as u32);
                    let grant_usize = if grant <= usize::MAX as u64 {
                        grant as usize
                    } else {
                        usize::MAX
                    };
                    proof {
                        vstd::arithmetic::power2::lemma2_to64();
                        if (hdr.credit as nat) < 31 {
                            vstd::arithmetic::power2::lemma_pow2_strictly_increases(
                                hdr.credit as nat,
                                31nat,
                            );
                        }
                    }
                    self.credits_send.add(OmnixtendChannel::from_num(hdr.chan as u64), grant_usize);
                }
                self.last_ack_status = true;
                self.next_rx_seq.incr();
                if !self.compat_mode {
                    let cstate = self.connection_state;
                    if cstate == ConnectionState::Opened {
                        self.connection_state = ConnectionState::Active;
                    }
                    let is_open_connection = hdr.message_type == 2;
                    let is_close_connection = hdr.message_type == 3;
                    if is_open_connection && cstate == ConnectionState::Idle {
                        self.connection_state = ConnectionState::Active;
                    } else if is_close_connection && cstate
                        == ConnectionState::ClosedByHostIndicated {
                        self.connection_state = ConnectionState::Idle;
                    } else if is_close_connection {
                        self.connection_state = ConnectionState::ClosedByClient;
                        self.send_outstanding_flag = true;
                    }
                }
                Ok(parsed.payload)
            } else {
                Ok(Vec::new())
            }
        } else {
            let at_or_after = self.next_rx_seq.cmp(hdr.sequence_number);
            if !at_or_after {
                if !ack_only {
                    if self.naks < u64::MAX {
                        self.naks = self.naks + 1;
                    }
                    self.last_ack_status = false;
                    self.send_outstanding_flag = true;
                    Err(
                        Error::OutOfOrder {
                            got: hdr.sequence_number as usize,
                            expected: self.next_rx_seq.val() as usize,
                        },
                    )
                } else {
                    Ok(Vec::new())
                }
            } else {
                Ok(Vec::new())
            }
        }
    }

}


/// Sequence monotonicity: the frames retained since the last
/// acknowledgement carry strictly consecutive sequence numbers, so the
/// stream this connection emits has no gaps.
pub proof fn lemma_resend_window_consecutive(c: &Connection, k: int)
    requires
        c.wf(),
        0 <= k,
        k + 1 < c.resend_buffer@.len(),
    ensures
        spec_frame_seq(c.resend_buffer@[k + 1]@) == seq_incremented(
            spec_frame_seq(c.resend_buffer@[k]@),
        ),
{
    lemma_seq_add_incr(c.first_in_resend@, (k + 1) as nat);
}

/// The next frame to be assembled continues the stream right after the
/// youngest frame in the resend buffer.
pub proof fn lemma_next_frame_continues(c: &Connection)
    requires
        c.wf(),
        c.resend_buffer@.len() > 0,
    ensures
        c.next_tx_seq@ == seq_incremented(spec_frame_seq(c.resend_buffer@.last()@)),
{
    lemma_seq_add_incr(c.first_in_resend@, c.resend_buffer@.len());
}

} // verus!
