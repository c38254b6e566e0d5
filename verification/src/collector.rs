//! The decisions of one collection cycle.
//!
//! The caller reads the system every two seconds, hands the readings over as
//! a `RawSample`, and gets back what to publish; the floating-point
//! arithmetic of rates and percentages stays with the caller.

use vstd::prelude::*;

use crate::disk::{root_disk_usage, root_usage, DiskSpace, RootDiskUsage};
use crate::network::{
    counter_delta, received_sum, total_traffic, transmitted_sum, InterfaceTraffic, Traffic,
    TrafficMeter,
};
use crate::processes::{
    cpu_load_keys, is_top_ranking, load_keys, top_process_indices, TOP_PROCESS_COUNT,
};
use crate::sensors::{choose_cpu_sensor, is_sensor_choice, lowered_labels};

verus! {

/// The readings of one cycle.
pub struct RawSample {
    /// The mounted file systems.
    pub disks: Vec<DiskSpace>,
    /// The byte counters of every network interface.
    pub interfaces: Vec<InterfaceTraffic>,
    /// The labels of the thermal sensors, in the order listed.
    pub sensor_labels: Vec<String>,
    /// The CPU usage of each process, in the order listed, as the bits of its
    /// `f32` reading.
    pub process_cpu: Vec<u32>,
}

/// What one cycle publishes.
pub struct Observation {
    /// Space on the root file system.
    pub disk: RootDiskUsage,
    /// Bytes received and transmitted since the previous cycle.
    pub traffic: Traffic,
    /// The sensor whose temperature is the CPU temperature.
    pub cpu_sensor: Option<usize>,
    /// The busiest processes, busiest first.
    pub top_processes: Vec<usize>,
}

/// The state kept from one cycle to the next: the network counters of the
/// previous cycle.
pub struct Collector {
    meter: TrafficMeter,
}

impl View for Collector {
    type V = Traffic;

    closed spec fn view(&self) -> Traffic {
        self.meter@
    }
}

/// `t` holds the byte counters summed over `interfaces`.
pub open spec fn totals_of(interfaces: Seq<InterfaceTraffic>, t: Traffic) -> bool {
    t.rx == received_sum(interfaces) && t.tx == transmitted_sum(interfaces)
}

/// The counters of `interfaces` overflow 64 bits when summed.
pub open spec fn totals_overflow(interfaces: Seq<InterfaceTraffic>) -> bool {
    received_sum(interfaces) > u64::MAX || transmitted_sum(interfaces) > u64::MAX
}

impl Collector {
    /// Starts from the counters of the interfaces at start-up; `None` exactly
    /// where they overflow when summed.
    pub fn start(interfaces: &Vec<InterfaceTraffic>) -> (collector: Option<Self>)
        ensures
            match collector {
                Some(c) => totals_of(interfaces@, c@),
                None => totals_overflow(interfaces@),
            },
    {
        match total_traffic(interfaces) {
            Some(t) => Some(Collector { meter: TrafficMeter::new(t) }),
            None => None,
        }
    }

    /// The summed counters of the previous cycle.
    pub fn previous_traffic(&self) -> (previous: Traffic)
        ensures
            previous == self@,
    {
        self.meter.previous()
    }

    /// The decisions of one cycle: the root disk, the traffic since the
    /// previous cycle, the CPU sensor and the busiest processes. `None`, with
    /// the state unchanged, exactly where the interface counters overflow when
    /// summed.
    pub fn observe(&mut self, sample: &RawSample) -> (observation: Option<Observation>)
        ensures
            match observation {
                Some(o) => {
                    &&& totals_of(sample.interfaces@, final(self)@)
                    &&& o.traffic.rx == counter_delta(final(self)@.rx, old(self)@.rx)
                    &&& o.traffic.tx == counter_delta(final(self)@.tx, old(self)@.tx)
                    &&& o.disk == root_usage(sample.disks@)
                    &&& is_sensor_choice(lowered_labels(sample.sensor_labels@), o.cpu_sensor)
                    &&& is_top_ranking(
                        load_keys(sample.process_cpu@),
                        TOP_PROCESS_COUNT as nat,
                        o.top_processes@,
                    )
                },
                None => totals_overflow(sample.interfaces@) && final(self)@ == old(self)@,
            },
    {
        let now = match total_traffic(&sample.interfaces) {
            Some(t) => t,
            None => return None,
        };
        let traffic = self.meter.advance(now);
        let disk = root_disk_usage(&sample.disks);
        let cpu_sensor = choose_cpu_sensor(&sample.sensor_labels);
        let loads = cpu_load_keys(&sample.process_cpu);
        let top_processes = top_process_indices(&loads, TOP_PROCESS_COUNT);
        Some(Observation { disk, traffic, cpu_sensor, top_processes })
    }
}

} // verus!
