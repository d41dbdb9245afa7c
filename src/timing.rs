use vstd::prelude::*;
use crate::reason_codes::ReasonMode;
use crate::vbi::VBI_MAX;

verus! {

/// The first reconnect delay, in milliseconds.
pub const BACKOFF_BASE_MS: u64 = 1000;

/// The longest reconnect delay, in milliseconds.
pub const BACKOFF_CAP_MS: u64 = 30000;

/// The packet size a peer accepts when it announces no maximum.
pub const DEFAULT_MAXIMUM_PACKET_SIZE: u32 = VBI_MAX;

/// Whether a peer silent for `idle_ms` has let a keep-alive of
/// `keep_alive_s` seconds lapse: one and a half times the interval has
/// passed. A keep-alive of 0 never lapses.
pub fn keep_alive_expired(idle_ms: u64, keep_alive_s: u16) -> (r: bool)
    ensures
        r == (keep_alive_s > 0 && 2 * (idle_ms as int) >= 3000 * (keep_alive_s as int)),
{
    if keep_alive_s == 0 {
        return false;
    }
    let limit: u64 = 1500 * keep_alive_s as u64;
    idle_ms >= limit
}

/// What a client's keep-alive timer asks for.
#[derive(Clone, Copy, Debug, PartialEq, Eq, Structural)]
pub enum KeepAliveAction {
    Wait,
    SendPingReq,
    Close(ReasonMode),
}

/// The client's keep-alive decision: after `keep_alive_s` seconds without
/// sending, a PINGREQ; when a PINGREQ has waited that long for its
/// PINGRESP, closing with `KeepAliveTimeout`. A keep-alive of 0 asks for
/// nothing.
pub fn client_keep_alive(idle_send_ms: u64, ping_wait_ms: Option<u64>, keep_alive_s: u16) -> (r: KeepAliveAction)
    ensures
        keep_alive_s == 0 ==> r == KeepAliveAction::Wait,
        keep_alive_s > 0 ==> r == match ping_wait_ms {
            Some(w) => if w >= 1000 * keep_alive_s {
                KeepAliveAction::Close(ReasonMode::KeepAliveTimeout)
            } else {
                KeepAliveAction::Wait
            },
            None => if idle_send_ms >= 1000 * keep_alive_s {
                KeepAliveAction::SendPingReq
            } else {
                KeepAliveAction::Wait
            },
        },
{
    if keep_alive_s == 0 {
        return KeepAliveAction::Wait;
    }
    let interval: u64 = 1000 * keep_alive_s as u64;
    match ping_wait_ms {
        Some(w) => if w >= interval {
            KeepAliveAction::Close(ReasonMode::KeepAliveTimeout)
        } else {
            KeepAliveAction::Wait
        },
        None => if idle_send_ms >= interval {
            KeepAliveAction::SendPingReq
        } else {
            KeepAliveAction::Wait
        },
    }
}

/// The delay before reconnect attempt `attempt` (from 0): the base,
/// doubled at each attempt, never above the cap.
pub open spec fn backoff_spec(attempt: nat) -> nat
    decreases attempt,
{
    if attempt == 0 {
        BACKOFF_BASE_MS as nat
    } else {
        let d = 2 * backoff_spec((attempt - 1) as nat);
        if d < BACKOFF_CAP_MS {
            d
        } else {
            BACKOFF_CAP_MS as nat
        }
    }
}

proof fn lemma_backoff_bounded(attempt: nat)
    ensures
        backoff_spec(attempt) <= BACKOFF_CAP_MS,
    decreases attempt,
{
    if attempt > 0 {
        lemma_backoff_bounded((attempt - 1) as nat);
    }
}

pub fn reconnect_delay_ms(attempt: u32) -> (r: u64)
    ensures
        r == backoff_spec(attempt as nat),
{
    let mut d: u64 = BACKOFF_BASE_MS;
    let mut i: u32 = 0;
    while i < attempt
        invariant
            i <= attempt,
            d == backoff_spec(i as nat),
        decreases attempt - i,
    {
        proof {
            lemma_backoff_bounded(i as nat);
        }
        let next = 2 * d;
        d = if next < BACKOFF_CAP_MS {
            next
        } else {
            BACKOFF_CAP_MS
        };
        i = i + 1;
    }
    d
}

/// `delay_ms` spread by a jitter of -20% to +20%: `jitter` runs from 0
/// (-20%) to 40 (+20%) and is drawn by the caller.
pub fn with_jitter(delay_ms: u64, jitter: u64) -> (r: u64)
    requires
        jitter <= 40,
        delay_ms <= BACKOFF_CAP_MS,
    ensures
        r == (delay_ms as int) * (80 + jitter as int) / 100,
{
    assert((delay_ms as int) * (80 + jitter as int) <= 30000 * 120) by (nonlinear_arith)
        requires
            jitter <= 40,
            delay_ms <= 30000,
    ;
    delay_ms * (80 + jitter) / 100
}

/// The maximum packet size to hold a peer to: the one it announced, or the
/// default where it announced none. An announced 0 is `ProtocolError`.
pub fn negotiate_maximum_packet_size(announced: Option<u32>) -> (r: Result<u32, ReasonMode>)
    ensures
        r == match announced {
            None => Ok::<u32, ReasonMode>(DEFAULT_MAXIMUM_PACKET_SIZE),
            Some(0) => Err::<u32, ReasonMode>(ReasonMode::ProtocolError),
            Some(m) => Ok::<u32, ReasonMode>(if m < DEFAULT_MAXIMUM_PACKET_SIZE {
                m
            } else {
                DEFAULT_MAXIMUM_PACKET_SIZE
            }),
        },
{
    match announced {
        None => Ok(DEFAULT_MAXIMUM_PACKET_SIZE),
        Some(m) => if m == 0 {
            Err(ReasonMode::ProtocolError)
        } else if m < DEFAULT_MAXIMUM_PACKET_SIZE {
            Ok(m)
        } else {
            Ok(DEFAULT_MAXIMUM_PACKET_SIZE)
        },
    }
}

/// A packet of `size` bytes against the peer's `maximum`: above it is
/// `PacketTooLarge`.
pub fn check_packet_size(size: usize, maximum: u32) -> (r: Result<(), ReasonMode>)
    ensures
        r == if size > maximum {
            Err::<(), ReasonMode>(ReasonMode::PacketTooLarge)
        } else {
            Ok::<(), ReasonMode>(())
        },
{
    if size as u64 > maximum as u64 {
        Err(ReasonMode::PacketTooLarge)
    } else {
        Ok(())
    }
}

} // verus!
