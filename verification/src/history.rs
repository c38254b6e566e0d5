//! The rolling history of samples and its column view.
//!
//! Floating-point readings are carried as their IEEE-754 bit patterns
//! (`f32::to_bits` / `f64::to_bits`): the history only stores, orders and
//! transposes them, and never computes with them.

use std::collections::VecDeque;
use vstd::prelude::*;

verus! {

broadcast use vstd::std_specs::vecdeque::group_vec_dequeue_axioms;

/// How many samples the history keeps: at one sample every two seconds,
/// two minutes of charts.
pub const HISTORY_LENGTH: usize = 60;

/// One sample of the history.
#[derive(Clone, Copy, Debug, PartialEq, Eq, Structural)]
pub struct HistoryPoint {
    /// Seconds since the dashboard started.
    pub offset_secs: u64,
    /// CPU load in percent, the bits of an `f32`.
    pub cpu_percent: u32,
    /// Memory in use in GiB, the bits of an `f64`.
    pub ram_gb: u64,
    /// Swap in use in GiB, the bits of an `f64`.
    pub swap_gb: u64,
    /// Download rate in MB/s, the bits of an `f64`.
    pub net_rx_mbps: u64,
    /// Upload rate in MB/s, the bits of an `f64`.
    pub net_tx_mbps: u64,
    /// CPU temperature in degrees Celsius, the bits of an `f32`, where a sensor exists.
    pub cpu_temp: Option<u32>,
}

/// What one recorded sample does to the retained samples: once the history is
/// full, the oldest sample leaves before the new one is appended.
pub open spec fn record_step(kept: Seq<HistoryPoint>, point: HistoryPoint) -> Seq<HistoryPoint> {
    if kept.len() >= HISTORY_LENGTH {
        kept.drop_first().push(point)
    } else {
        kept.push(point)
    }
}

/// The samples retained after recording `points`, in order, into an empty history.
pub open spec fn replay(points: Seq<HistoryPoint>) -> Seq<HistoryPoint>
    decreases points.len(),
{
    if points.len() == 0 {
        Seq::empty()
    } else {
        record_step(replay(points.drop_last()), points.last())
    }
}

/// The last `HISTORY_LENGTH` of `points`, or all of them where there are fewer.
pub open spec fn latest_window(points: Seq<HistoryPoint>) -> Seq<HistoryPoint> {
    if points.len() <= HISTORY_LENGTH {
        points
    } else {
        points.subrange(points.len() - HISTORY_LENGTH, points.len() as int)
    }
}

/// A bounded first-in first-out store of the most recent samples.
pub struct HistoryBuffer {
    points: VecDeque<HistoryPoint>,
}

impl View for HistoryBuffer {
    type V = Seq<HistoryPoint>;

    closed spec fn view(&self) -> Seq<HistoryPoint> {
        self.points@
    }
}

impl HistoryBuffer {
    #[verifier::type_invariant]
    closed spec fn bounded(self) -> bool {
        self.points@.len() <= HISTORY_LENGTH
    }

    /// An empty history, with room reserved for `HISTORY_LENGTH` samples (the
    /// capacity that the allocator grants is not part of the contract).
    pub fn new() -> (history: Self)
        ensures
            history@ == Seq::<HistoryPoint>::empty(),
    {
        HistoryBuffer { points: VecDeque::with_capacity(HISTORY_LENGTH) }
    }

    /// Appends a sample, dropping the oldest one when the history is full.
    pub fn record(&mut self, point: HistoryPoint)
        ensures
            final(self)@ == record_step(old(self)@, point),
            final(self)@.len() <= HISTORY_LENGTH,
    {
        proof {
            use_type_invariant(&*self);
        }
        let mut points: VecDeque<HistoryPoint> = VecDeque::new();
        std::mem::swap(&mut points, &mut self.points);
        if points.len() >= HISTORY_LENGTH {
            points.pop_front();
        }
        points.push_back(point);
        self.points = points;
    }

    /// The number of samples kept.
    pub fn len(&self) -> (n: usize)
        ensures
            n == self@.len(),
            n <= HISTORY_LENGTH,
    {
        proof {
            use_type_invariant(self);
        }
        self.points.len()
    }

    /// The samples kept, oldest first.
    pub fn points(&self) -> (points: &VecDeque<HistoryPoint>)
        ensures
            points@ == self@,
    {
        &self.points
    }
}

/// Recording samples one by one into an empty history keeps exactly the most
/// recent `HISTORY_LENGTH` of them, oldest first.
pub proof fn lemma_history_keeps_latest_window(points: Seq<HistoryPoint>)
    ensures
        replay(points) == latest_window(points),
        replay(points).len() <= HISTORY_LENGTH,
    decreases points.len(),
{
    if points.len() > 0 {
        let init = points.drop_last();
        lemma_history_keeps_latest_window(init);
        if init.len() >= HISTORY_LENGTH {
            assert(latest_window(init).drop_first().push(points.last()) =~= latest_window(points));
        } else {
            assert(init.push(points.last()) =~= points);
        }
    }
}

/// The history as parallel columns, one entry per sample, oldest first.
pub struct History {
    pub timestamps: Vec<u64>,
    pub cpu: Vec<u32>,
    pub ram: Vec<u64>,
    pub swap: Vec<u64>,
    pub net_rx: Vec<u64>,
    pub net_tx: Vec<u64>,
    pub cpu_temp: Vec<Option<u32>>,
}

impl History {
    /// Column `c` of every row holds field `c` of the sample at that row.
    pub open spec fn columns_of(self, points: Seq<HistoryPoint>) -> bool {
        &&& self.timestamps@.len() == points.len()
        &&& self.cpu@.len() == points.len()
        &&& self.ram@.len() == points.len()
        &&& self.swap@.len() == points.len()
        &&& self.net_rx@.len() == points.len()
        &&& self.net_tx@.len() == points.len()
        &&& self.cpu_temp@.len() == points.len()
        &&& forall|i: int| 0 <= i < points.len() ==> self.row(i) == #[trigger] points[i]
    }

    /// The sample that row `i` of the columns stands for.
    pub open spec fn row(self, i: int) -> HistoryPoint {
        HistoryPoint {
            offset_secs: self.timestamps@[i],
            cpu_percent: self.cpu@[i],
            ram_gb: self.ram@[i],
            swap_gb: self.swap@[i],
            net_rx_mbps: self.net_rx@[i],
            net_tx_mbps: self.net_tx@[i],
            cpu_temp: self.cpu_temp@[i],
        }
    }

    /// Splits the samples into columns.
    pub fn from(points: &VecDeque<HistoryPoint>) -> (history: History)
        ensures
            history.columns_of(points@),
    {
        let len = points.len();
        let mut timestamps: Vec<u64> = Vec::with_capacity(len);
        let mut cpu: Vec<u32> = Vec::with_capacity(len);
        let mut ram: Vec<u64> = Vec::with_capacity(len);
        let mut swap: Vec<u64> = Vec::with_capacity(len);
        let mut net_rx: Vec<u64> = Vec::with_capacity(len);
        let mut net_tx: Vec<u64> = Vec::with_capacity(len);
        let mut cpu_temp: Vec<Option<u32>> = Vec::with_capacity(len);
        let mut i: usize = 0;
        while i < len
            invariant
                len == points@.len(),
                i <= len,
                timestamps@.len() == i,
                cpu@.len() == i,
                ram@.len() == i,
                swap@.len() == i,
                net_rx@.len() == i,
                net_tx@.len() == i,
                cpu_temp@.len() == i,
                forall|k: int|
                    0 <= k < i ==> {
                        let p = #[trigger] points@[k];
                        &&& timestamps@[k] == p.offset_secs
                        &&& cpu@[k] == p.cpu_percent
                        &&& ram@[k] == p.ram_gb
                        &&& swap@[k] == p.swap_gb
                        &&& net_rx@[k] == p.net_rx_mbps
                        &&& net_tx@[k] == p.net_tx_mbps
                        &&& cpu_temp@[k] == p.cpu_temp
                    },
            decreases len - i,
        {
            let point = points[i];
            timestamps.push(point.offset_secs);
            cpu.push(point.cpu_percent);
            ram.push(point.ram_gb);
            swap.push(point.swap_gb);
            net_rx.push(point.net_rx_mbps);
            net_tx.push(point.net_tx_mbps);
            cpu_temp.push(point.cpu_temp);
            i = i + 1;
        }
        let history = History { timestamps, cpu, ram, swap, net_rx, net_tx, cpu_temp };
        assert forall|k: int| 0 <= k < points@.len() implies history.row(k) == #[trigger] points@[k] by {
        }
        history
    }
}

/// What is served after a sample is recorded ends with that sample: the last
/// row of the columns of the history is the sample just recorded, and the
/// rows before it are the samples kept before, less the oldest once full.
pub proof fn lemma_recorded_sample_is_served_last(
    kept: Seq<HistoryPoint>,
    point: HistoryPoint,
    served: History,
)
    requires
        served.columns_of(record_step(kept, point)),
    ensures
        served.timestamps@.len() >= 1,
        served.row(served.timestamps@.len() - 1) == point,
        forall|i: int|
            0 <= i < served.timestamps@.len() - 1 ==> served.row(i) == (if kept.len()
                >= HISTORY_LENGTH {
                kept[i + 1]
            } else {
                kept[i]
            }),
{
    let after = record_step(kept, point);
    assert(served.row(after.len() - 1) == after[after.len() - 1]);
    assert forall|i: int| 0 <= i < served.timestamps@.len() - 1 implies served.row(i) == (if kept.len()
        >= HISTORY_LENGTH {
        kept[i + 1]
    } else {
        kept[i]
    }) by {
        assert(served.row(i) == after[i]);
    }
}

/// Each column of the history holds one field of the samples, in sample
/// order: timestamps the offsets, `cpu` the CPU readings, `ram` the memory,
/// `swap` the swap, `net_rx` and `net_tx` the rates, `cpu_temp` the
/// temperatures.
pub proof fn lemma_columns_hold_fields(history: History, points: Seq<HistoryPoint>)
    requires
        history.columns_of(points),
    ensures
        forall|i: int|
            0 <= i < points.len() ==> {
                &&& history.timestamps@[i] == (#[trigger] points[i]).offset_secs
                &&& history.cpu@[i] == points[i].cpu_percent
                &&& history.ram@[i] == points[i].ram_gb
                &&& history.swap@[i] == points[i].swap_gb
                &&& history.net_rx@[i] == points[i].net_rx_mbps
                &&& history.net_tx@[i] == points[i].net_tx_mbps
                &&& history.cpu_temp@[i] == points[i].cpu_temp
            },
        history.timestamps@.len() == points.len(),
        history.cpu@.len() == points.len(),
        history.ram@.len() == points.len(),
        history.swap@.len() == points.len(),
        history.net_rx@.len() == points.len(),
        history.net_tx@.len() == points.len(),
        history.cpu_temp@.len() == points.len(),
{
    assert forall|i: int| 0 <= i < points.len() implies {
        &&& history.timestamps@[i] == (#[trigger] points[i]).offset_secs
        &&& history.cpu@[i] == points[i].cpu_percent
        &&& history.ram@[i] == points[i].ram_gb
        &&& history.swap@[i] == points[i].swap_gb
        &&& history.net_rx@[i] == points[i].net_rx_mbps
        &&& history.net_tx@[i] == points[i].net_tx_mbps
        &&& history.cpu_temp@[i] == points[i].cpu_temp
    } by {
        assert(history.row(i) == points[i]);
    }
}

} // verus!
