//! Network traffic: byte counters summed over the interfaces, and the traffic
//! between two samples.

use vstd::prelude::*;

verus! {

/// The byte counters of one network interface since it came up.
pub struct InterfaceTraffic {
    pub name: String,
    pub rx_bytes: u64,
    pub tx_bytes: u64,
}

/// Bytes received and transmitted.
#[derive(Clone, Copy, Debug, PartialEq, Eq, Structural)]
pub struct Traffic {
    pub rx: u64,
    pub tx: u64,
}

/// Bytes received over all the interfaces.
pub open spec fn received_sum(interfaces: Seq<InterfaceTraffic>) -> int
    decreases interfaces.len(),
{
    if interfaces.len() == 0 {
        0
    } else {
        received_sum(interfaces.drop_last()) + interfaces.last().rx_bytes
    }
}

/// Bytes transmitted over all the interfaces.
pub open spec fn transmitted_sum(interfaces: Seq<InterfaceTraffic>) -> int
    decreases interfaces.len(),
{
    if interfaces.len() == 0 {
        0
    } else {
        transmitted_sum(interfaces.drop_last()) + interfaces.last().tx_bytes
    }
}

/// `now - before`, or 0 where the counter went back (an interface that
/// vanished or restarted).
pub open spec fn counter_delta(now: u64, before: u64) -> u64 {
    if now >= before {
        (now - before) as u64
    } else {
        0
    }
}

proof fn lemma_sums_grow(interfaces: Seq<InterfaceTraffic>, i: int)
    requires
        0 <= i <= interfaces.len(),
    ensures
        received_sum(interfaces.take(i)) <= received_sum(interfaces),
        transmitted_sum(interfaces.take(i)) <= transmitted_sum(interfaces),
    decreases interfaces.len() - i,
{
    if i < interfaces.len() {
        lemma_sums_grow(interfaces, i + 1);
        assert(interfaces.take(i + 1).drop_last() =~= interfaces.take(i));
    } else {
        assert(interfaces.take(i) =~= interfaces);
    }
}

/// The byte counters summed over all interfaces; `None` exactly where a sum
/// does not fit in 64 bits.
pub fn total_traffic(interfaces: &Vec<InterfaceTraffic>) -> (total: Option<Traffic>)
    ensures
        match total {
            Some(t) => t.rx == received_sum(interfaces@) && t.tx == transmitted_sum(interfaces@),
            None => received_sum(interfaces@) > u64::MAX || transmitted_sum(interfaces@) > u64::MAX,
        },
{
    let mut rx: u64 = 0;
    let mut tx: u64 = 0;
    let mut i: usize = 0;
    while i < interfaces.len()
        invariant
            i <= interfaces@.len(),
            rx == received_sum(interfaces@.take(i as int)),
            tx == transmitted_sum(interfaces@.take(i as int)),
        decreases interfaces@.len() - i,
    {
        proof {
            assert(interfaces@.take(i + 1).drop_last() =~= interfaces@.take(i as int));
            lemma_sums_grow(interfaces@, i + 1);
        }
        let iface = &interfaces[i];
        match rx.checked_add(iface.rx_bytes) {
            Some(r) => rx = r,
            None => return None,
        }
        match tx.checked_add(iface.tx_bytes) {
            Some(t) => tx = t,
            None => return None,
        }
        i = i + 1;
    }
    assert(interfaces@.take(interfaces@.len() as int) =~= interfaces@);
    Some(Traffic { rx, tx })
}

/// Remembers the counters of the previous sample and yields the traffic since.
pub struct TrafficMeter {
    previous: Traffic,
}

impl View for TrafficMeter {
    type V = Traffic;

    closed spec fn view(&self) -> Traffic {
        self.previous
    }
}

impl TrafficMeter {
    /// A meter whose previous sample is `start`.
    pub fn new(start: Traffic) -> (meter: Self)
        ensures
            meter@ == start,
    {
        TrafficMeter { previous: start }
    }

    /// The counters of the previous sample.
    pub fn previous(&self) -> (previous: Traffic)
        ensures
            previous == self@,
    {
        self.previous
    }

    /// The traffic since the previous sample; `now` becomes the previous sample.
    pub fn advance(&mut self, now: Traffic) -> (delta: Traffic)
        ensures
            delta.rx == counter_delta(now.rx, old(self)@.rx),
            delta.tx == counter_delta(now.tx, old(self)@.tx),
            final(self)@ == now,
    {
        let delta = Traffic {
            rx: now.rx.saturating_sub(self.previous.rx),
            tx: now.tx.saturating_sub(self.previous.tx),
        };
        self.previous = now;
        delta
    }
}

/// The sum of `counter_delta` over consecutive readings.
pub open spec fn summed_deltas(readings: Seq<u64>) -> int
    decreases readings.len(),
{
    if readings.len() < 2 {
        0
    } else {
        summed_deltas(readings.drop_last()) + counter_delta(
            readings.last(),
            readings[readings.len() - 2],
        )
    }
}

/// While a counter never goes back, the traffic measured over consecutive
/// samples adds up to the difference between the last and the first reading:
/// no byte is lost or counted twice.
pub proof fn lemma_deltas_add_up(readings: Seq<u64>)
    requires
        readings.len() >= 1,
        forall|i: int, j: int| 0 <= i <= j < readings.len() ==> readings[i] <= readings[j],
    ensures
        summed_deltas(readings) == readings.last() - readings[0],
    decreases readings.len(),
{
    if readings.len() >= 2 {
        lemma_deltas_add_up(readings.drop_last());
    }
}

/// The summed counters count every interface exactly once: no interface adds
/// nothing, and appending an interface raises the sums by its own counters.
pub proof fn lemma_sums_count_each_interface(interfaces: Seq<InterfaceTraffic>, next: InterfaceTraffic)
    ensures
        received_sum(Seq::<InterfaceTraffic>::empty()) == 0,
        transmitted_sum(Seq::<InterfaceTraffic>::empty()) == 0,
        received_sum(interfaces.push(next)) == received_sum(interfaces) + next.rx_bytes,
        transmitted_sum(interfaces.push(next)) == transmitted_sum(interfaces) + next.tx_bytes,
{
    assert(interfaces.push(next).drop_last() =~= interfaces);
}

/// The counters of two lists of interfaces, summed together, are the counters
/// of the lists summed one after the other.
pub proof fn lemma_sums_split(first: Seq<InterfaceTraffic>, second: Seq<InterfaceTraffic>)
    ensures
        received_sum(first + second) == received_sum(first) + received_sum(second),
        transmitted_sum(first + second) == transmitted_sum(first) + transmitted_sum(second),
    decreases second.len(),
{
    if second.len() == 0 {
        assert(first + second =~= first);
    } else {
        lemma_sums_split(first, second.drop_last());
        assert((first + second).drop_last() =~= first + second.drop_last());
    }
}

/// Each interface contributes its own counters: the sums are at least the
/// counters of any one interface listed.
pub proof fn lemma_sums_include_every_interface(interfaces: Seq<InterfaceTraffic>, k: int)
    requires
        0 <= k < interfaces.len(),
    ensures
        received_sum(interfaces) >= interfaces[k].rx_bytes,
        transmitted_sum(interfaces) >= interfaces[k].tx_bytes,
    decreases interfaces.len(),
{
    lemma_sums_nonnegative(interfaces.drop_last());
    if k < interfaces.len() - 1 {
        lemma_sums_include_every_interface(interfaces.drop_last(), k);
    }
}

proof fn lemma_sums_nonnegative(interfaces: Seq<InterfaceTraffic>)
    ensures
        received_sum(interfaces) >= 0,
        transmitted_sum(interfaces) >= 0,
    decreases interfaces.len(),
{
    if interfaces.len() > 0 {
        lemma_sums_nonnegative(interfaces.drop_last());
    }
}

/// The traffic between two readings of a counter is what the counter grew by,
/// and nothing where it went back: the earlier reading plus the traffic is the
/// later reading whenever the counter did not go back.
pub proof fn lemma_delta_is_growth(now: u64, before: u64)
    ensures
        before <= now ==> before + counter_delta(now, before) == now,
        now < before ==> counter_delta(now, before) == 0,
{
}

} // verus!
