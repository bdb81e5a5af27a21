//! Network probes: throughput, losses and simulated conditions.

use crate::random::{gen_range, gen_ratio};
use vstd::prelude::*;

verus! {

/// What a probe gives.
#[derive(Clone, Copy, Debug, PartialEq, Eq, Structural)]
pub struct ProbeResult {
    /// Bits, or what the probe counts in their place.
    pub throughput: u64,
    /// The share that was lost, in thousandths, rounded down; nothing where nothing was
    /// tried.
    pub loss_permille: Option<u64>,
}

/// The share of `part` in `whole`, in thousandths, rounded down.
pub open spec fn permille(part: int, whole: int) -> Option<int> {
    if whole == 0 {
        None
    } else {
        Some(part * 1000 / whole)
    }
}

/// The share of `part` in `whole`, in thousandths, rounded down.
pub fn permille_of(part: u64, whole: u64) -> (r: Option<u64>)
    requires
        part <= whole,
    ensures
        match r {
            Some(v) => permille(part as int, whole as int) == Some(v as int) && v <= 1000,
            None => permille(part as int, whole as int) is None,
        },
{
    if whole == 0 {
        return None;
    }
    let v: u128 = part as u128 * 1000 / whole as u128;
    assert(v <= 1000) by (nonlinear_arith)
        requires
            v == part * 1000 / (whole as int),
            0 <= part <= whole,
            whole > 0,
    ;
    Some(v as u64)
}

/// Whether the probe's loss is this share.
pub open spec fn has_loss(r: ProbeResult, lost: int, all: int) -> bool {
    match permille(lost, all) {
        Some(v) => r.loss_permille is Some && r.loss_permille->0 == v,
        None => r.loss_permille is None,
    }
}

/// How many attempts of a probe succeeded and failed.
#[derive(Clone, Copy, Debug, PartialEq, Eq, Structural)]
pub struct Attempts {
    pub successes: u32,
    pub failures: u32,
}

impl Attempts {
    /// Nothing tried yet.
    pub fn new() -> (r: Attempts)
        ensures
            r == (Attempts { successes: 0, failures: 0 }),
    {
        Attempts { successes: 0, failures: 0 }
    }

    /// How often something was tried.
    pub open spec fn total(self) -> int {
        self.successes + self.failures
    }

    /// Counts an attempt.
    pub fn record(&mut self, success: bool)
        requires
            old(self).total() < u32::MAX,
        ensures
            final(self).total() == old(self).total() + 1,
            final(self).successes == old(self).successes + if success {
                1int
            } else {
                0
            },
    {
        if success {
            self.successes = self.successes + 1;
        } else {
            self.failures = self.failures + 1;
        }
    }

    /// Counts five names that were looked up. Nine of ten count as found, at random.
    pub fn record_lookups(&mut self)
        requires
            old(self).total() <= u32::MAX - 5,
        ensures
            final(self).total() == old(self).total() + 5,
            final(self).successes >= old(self).successes,
            final(self).failures >= old(self).failures,
    {
        let mut i: u32 = 0;
        while i < 5
            invariant
                i <= 5,
                self.total() == old(self).total() + i,
                old(self).total() <= u32::MAX - 5,
                self.successes >= old(self).successes,
                self.failures >= old(self).failures,
            decreases 5 - i,
        {
            self.record(gen_ratio(9, 10));
            i = i + 1;
        }
    }

    fn loss(&self) -> (r: Option<u64>)
        ensures
            match r {
                Some(v) => permille(self.failures as int, self.total()) == Some(v as int),
                None => permille(self.failures as int, self.total()) is None,
            },
    {
        permille_of(self.failures as u64, self.successes as u64 + self.failures as u64)
    }

    /// Whether the result counts `unit` for each success, and the failures as the loss.
    pub open spec fn counts(self, unit: int, r: ProbeResult) -> bool {
        r.throughput == self.successes * unit && has_loss(r, self.failures as int, self.total())
    }

    fn counted(&self, unit: u32) -> (r: ProbeResult)
        ensures
            self.counts(unit as int, r),
    {
        let ghost a = self.successes as int;
        let ghost b = unit as int;
        assert(0 <= a * b <= u32::MAX * u32::MAX) by (nonlinear_arith)
            requires
                0 <= a <= u32::MAX,
                0 <= b <= u32::MAX,
        ;
        ProbeResult {
            throughput: self.successes as u64 * unit as u64,
            loss_permille: self.loss(),
        }
    }

    /// The result of connecting to a server: each connection counts as a kilobyte.
    pub fn test_http_throughput(&self) -> (r: ProbeResult)
        ensures
            self.counts(1024int * 8, r),
    {
        self.counted(8192)
    }

    /// The result of looking names up: each name that was found counts a hundred.
    pub fn test_dns_performance(&self) -> (r: ProbeResult)
        ensures
            self.counts(100, r),
    {
        self.counted(100)
    }

    /// The result of echo requests: each answer counts 64 bytes.
    pub fn test_icmp_latency(&self) -> (r: ProbeResult)
        ensures
            self.counts(64int * 8, r),
    {
        self.counted(512)
    }
}

/// The bits per second of some bytes in some time, rounded down. What does not fit in 64
/// bits, and bytes that took no time, give the largest number.
pub open spec fn bits_per_second(bytes: int, duration_ns: int) -> int {
    let exact = bytes * 8 * 1_000_000_000 / duration_ns;
    if bytes == 0 {
        0
    } else if duration_ns == 0 || exact > u64::MAX {
        u64::MAX as int
    } else {
        exact
    }
}

/// The bits per second of some bytes in some time.
pub fn throughput_of(bytes: u64, duration_ns: u64) -> (r: u64)
    ensures
        r == bits_per_second(bytes as int, duration_ns as int),
{
    if bytes == 0 {
        return 0;
    }
    if duration_ns == 0 {
        return u64::MAX;
    }
    let exact: u128 = bytes as u128 * 8 * 1_000_000_000 / duration_ns as u128;
    if exact > u64::MAX as u128 {
        u64::MAX
    } else {
        exact as u64
    }
}

/// The difference of two numbers, whichever is greater.
pub open spec fn distance(a: int, b: int) -> int {
    if a > b {
        a - b
    } else {
        b - a
    }
}

/// The result of sending over a connection: the loss is the difference between what was
/// sent and what arrived, as a share of what was sent.
pub fn test_tcp_throughput(sent: u64, received: u64, duration_ns: u64) -> (r: (u64, Option<u128>))
    ensures
        r.0 == bits_per_second(sent as int, duration_ns as int),
        match r.1 {
            Some(v) => permille(distance(sent as int, received as int), sent as int) == Some(
                v as int,
            ),
            None => sent == 0,
        },
        r.1 matches Some(v) ==> v * sent <= 1000 * distance(sent as int, received as int) < (v + 1)
            * sent,
        duration_ns > 0 ==> r.0 * duration_ns <= 8 * sent * 1_000_000_000,
        duration_ns > 0 && r.0 < u64::MAX ==> 8 * sent * 1_000_000_000 < (r.0 + 1) * duration_ns,
{
    proof {
        crate::probe_laws::shares_are_exact(distance(sent as int, received as int), sent as int);
        if duration_ns > 0 {
            crate::probe_laws::throughput_is_bits_over_time(sent as int, duration_ns as int);
        }
    }
    let lost: u64 = if sent > received {
        sent - received
    } else {
        received - sent
    };
    let loss: Option<u128> = if sent == 0 {
        None
    } else {
        Some(lost as u128 * 1000 / sent as u128)
    };
    (throughput_of(sent, duration_ns), loss)
}

/// The share of packets that did not arrive. Nothing is lost where none was sent, and
/// there is no share where more arrived than were sent.
pub open spec fn packet_loss(sent_packets: int, received: int) -> Option<int> {
    if sent_packets == 0 {
        Some(0)
    } else if received > sent_packets {
        None
    } else {
        Some((sent_packets - received) * 1000 / sent_packets)
    }
}

/// The result of sending packets of 1400 bytes, of which some arrived.
pub fn test_udp_throughput(sent: u64, packets_received: u64, duration_ns: u64) -> (r: ProbeResult)
    ensures
        r.throughput == bits_per_second(sent as int, duration_ns as int),
        match packet_loss(sent as int / 1400, packets_received as int) {
            Some(v) => r.loss_permille is Some && r.loss_permille->0 == v,
            None => r.loss_permille is None,
        },
        duration_ns > 0 ==> r.throughput * duration_ns <= 8 * sent * 1_000_000_000,
        duration_ns > 0 && r.throughput < u64::MAX ==> 8 * sent * 1_000_000_000 < (r.throughput + 1)
            * duration_ns,
        r.loss_permille matches Some(v) ==> v <= 1000,
        packets_received * 1400 == sent && sent > 0 ==> r.loss_permille == Some(0u64),
        sent >= 1400 && packets_received == 0 ==> r.loss_permille == Some(1000u64),
{
    proof {
        let n = sent as int / 1400;
        crate::probe_laws::losses_are_what_did_not_arrive(n, packets_received as int);
        loss_is_a_share(n, packets_received as int);
        if duration_ns > 0 {
            crate::probe_laws::throughput_is_bits_over_time(sent as int, duration_ns as int);
        }
    }
    let packets: u64 = sent / 1400;
    let loss_permille: Option<u64> = if packets == 0 {
        Some(0)
    } else if packets_received > packets {
        None
    } else {
        permille_of(packets - packets_received, packets)
    };
    ProbeResult { throughput: throughput_of(sent, duration_ns), loss_permille }
}

/// A loss is at most everything.
pub proof fn loss_is_a_share(sent_packets: int, received: int)
    requires
        sent_packets >= 0,
        received >= 0,
    ensures
        packet_loss(sent_packets, received) matches Some(v) ==> 0 <= v <= 1000,
{
    if sent_packets > 0 && received <= sent_packets {
        let lost = sent_packets - received;
        assert(0 <= lost * 1000 / sent_packets <= 1000) by (nonlinear_arith)
            requires
                0 <= lost <= sent_packets,
                sent_packets > 0,
        ;
    }
}

/// A network to be simulated.
#[derive(Clone, Copy, Debug, PartialEq, Eq, Structural)]
pub struct NetworkCondition {
    /// Milliseconds.
    pub latency_ms: u64,
    /// Thousandths of a millisecond.
    pub jitter_us: u64,
    /// The share that is lost, in thousandths.
    pub loss_permille: u32,
}

/// The networks that are simulated, from the best to the worst.
#[derive(Clone, Copy, Debug, PartialEq, Eq, Structural)]
pub enum NetworkKind {
    Ideal,
    Wifi,
    FourG,
    ThreeG,
    TwoG,
    Lossy,
}

impl NetworkKind {
    /// The name of the network.
    pub fn name(&self) -> (r: &'static str)
        ensures
            r@ == (match *self {
                NetworkKind::Ideal => "ideal"@,
                NetworkKind::Wifi => "wifi"@,
                NetworkKind::FourG => "4g"@,
                NetworkKind::ThreeG => "3g"@,
                NetworkKind::TwoG => "2g"@,
                NetworkKind::Lossy => "lossy"@,
            }),
    {
        match self {
            NetworkKind::Ideal => "ideal",
            NetworkKind::Wifi => "wifi",
            NetworkKind::FourG => "4g",
            NetworkKind::ThreeG => "3g",
            NetworkKind::TwoG => "2g",
            NetworkKind::Lossy => "lossy",
        }
    }

    /// What the network is like.
    pub open spec fn described(self) -> NetworkCondition {
        match self {
            NetworkKind::Ideal => NetworkCondition {
                latency_ms: 0,
                jitter_us: 0,
                loss_permille: 0,
            },
            NetworkKind::Wifi => NetworkCondition {
                latency_ms: 10,
                jitter_us: 100,
                loss_permille: 10,
            },
            NetworkKind::FourG => NetworkCondition {
                latency_ms: 50,
                jitter_us: 1_000,
                loss_permille: 50,
            },
            NetworkKind::ThreeG => NetworkCondition {
                latency_ms: 150,
                jitter_us: 5_000,
                loss_permille: 100,
            },
            NetworkKind::TwoG => NetworkCondition {
                latency_ms: 500,
                jitter_us: 20_000,
                loss_permille: 200,
            },
            NetworkKind::Lossy => NetworkCondition {
                latency_ms: 100,
                jitter_us: 10_000,
                loss_permille: 300,
            },
        }
    }

    /// What the network is like.
    pub fn condition(&self) -> (r: NetworkCondition)
        ensures
            r == self.described(),
            r.loss_permille <= 1000,
    {
        match self {
            NetworkKind::Ideal => NetworkCondition {
                latency_ms: 0,
                jitter_us: 0,
                loss_permille: 0,
            },
            NetworkKind::Wifi => NetworkCondition {
                latency_ms: 10,
                jitter_us: 100,
                loss_permille: 10,
            },
            NetworkKind::FourG => NetworkCondition {
                latency_ms: 50,
                jitter_us: 1_000,
                loss_permille: 50,
            },
            NetworkKind::ThreeG => NetworkCondition {
                latency_ms: 150,
                jitter_us: 5_000,
                loss_permille: 100,
            },
            NetworkKind::TwoG => NetworkCondition {
                latency_ms: 500,
                jitter_us: 20_000,
                loss_permille: 200,
            },
            NetworkKind::Lossy => NetworkCondition {
                latency_ms: 100,
                jitter_us: 10_000,
                loss_permille: 300,
            },
        }
    }
}

/// The pauses that simulate a network, in milliseconds: for the latency, for a loss, and
/// for the jitter.
#[derive(Clone, Copy, Debug, PartialEq, Eq, Structural)]
pub struct Pauses {
    pub latency_ms: u64,
    pub loss_ms: u64,
    pub jitter_ms: u64,
}

/// The pauses that simulate a network, where a loss and a part of the jitter were drawn.
pub open spec fn pauses(c: NetworkCondition, lost: bool, jitter_us: int) -> Pauses {
    Pauses {
        latency_ms: c.latency_ms,
        loss_ms: if lost {
            1000
        } else {
            0
        },
        jitter_ms: (jitter_us / 1000) as u64,
    }
}

/// The pauses that simulate a network, where a loss and a part of the jitter were drawn.
pub fn pauses_of(c: &NetworkCondition, lost: bool, jitter_us: u64) -> (r: Pauses)
    ensures
        r == pauses(*c, lost, jitter_us as int),
{
    Pauses {
        latency_ms: c.latency_ms,
        loss_ms: if lost {
            1000
        } else {
            0
        },
        jitter_ms: jitter_us / 1000,
    }
}

/// The pauses that simulate a network. A loss costs a second, and the jitter is drawn up
/// to its limit, in whole milliseconds.
pub fn simulate_network_condition(c: &NetworkCondition) -> (r: Pauses)
    requires
        c.loss_permille <= 1000,
    ensures
        r.latency_ms == c.latency_ms,
        r.loss_ms == 0 || r.loss_ms == 1000,
        c.loss_permille == 0 ==> r.loss_ms == 0,
        c.loss_permille == 1000 ==> r.loss_ms == 1000,
        c.jitter_us == 0 ==> r.jitter_ms == 0,
        c.jitter_us > 0 ==> r.jitter_ms * 1000 < c.jitter_us,
{
    let lost: bool = gen_ratio(c.loss_permille, 1000);
    let jitter_us: u64 = if c.jitter_us > 0 {
        gen_range(0, c.jitter_us)
    } else {
        0
    };
    pauses_of(c, lost, jitter_us)
}

} // verus!
