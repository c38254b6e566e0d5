use system_estv::history::{History, HistoryBuffer, HistoryPoint, HISTORY_LENGTH};

fn point(offset_secs: u64) -> HistoryPoint {
    HistoryPoint {
        offset_secs,
        cpu_percent: (offset_secs as f32 * 0.5).to_bits(),
        ram_gb: 1.25f64.to_bits(),
        swap_gb: 0.5f64.to_bits(),
        net_rx_mbps: (offset_secs as f64).to_bits(),
        net_tx_mbps: 0.23f64.to_bits(),
        cpu_temp: if offset_secs % 2 == 0 { Some(45.0f32.to_bits()) } else { None },
    }
}

#[test]
fn history_starts_empty() {
    let history = HistoryBuffer::new();
    assert_eq!(history.len(), 0);
    assert!(history.points().is_empty());
}

#[test]
fn history_keeps_every_sample_until_full() {
    let mut history = HistoryBuffer::new();
    for i in 0..HISTORY_LENGTH as u64 {
        history.record(point(2 * (i + 1)));
    }
    assert_eq!(history.len(), 60);
    assert_eq!(history.points()[0].offset_secs, 2);
    assert_eq!(history.points()[59].offset_secs, 120);
}

#[test]
fn history_drops_the_oldest_once_full() {
    let mut history = HistoryBuffer::new();
    for i in 0..65u64 {
        history.record(point(i));
    }
    assert_eq!(history.len(), HISTORY_LENGTH);
    let offsets: Vec<u64> = history.points().iter().map(|p| p.offset_secs).collect();
    let expected: Vec<u64> = (5..65).collect();
    assert_eq!(offsets, expected);
}

#[test]
fn columns_hold_the_fields_of_each_sample() {
    let mut history = HistoryBuffer::new();
    history.record(point(2));
    history.record(point(4));
    history.record(point(7));
    let columns = History::from(history.points());
    assert_eq!(columns.timestamps, vec![2, 4, 7]);
    let cpu: Vec<f32> = columns.cpu.iter().map(|b| f32::from_bits(*b)).collect();
    assert_eq!(cpu, vec![1.0, 2.0, 3.5]);
    let ram: Vec<f64> = columns.ram.iter().map(|b| f64::from_bits(*b)).collect();
    assert_eq!(ram, vec![1.25, 1.25, 1.25]);
    assert_eq!(columns.swap, vec![0.5f64.to_bits(); 3]);
    let rx: Vec<f64> = columns.net_rx.iter().map(|b| f64::from_bits(*b)).collect();
    assert_eq!(rx, vec![2.0, 4.0, 7.0]);
    assert_eq!(columns.net_tx, vec![0.23f64.to_bits(); 3]);
    assert_eq!(
        columns.cpu_temp,
        vec![Some(45.0f32.to_bits()), Some(45.0f32.to_bits()), None]
    );
}

#[test]
fn columns_of_an_empty_history_are_empty() {
    let history = HistoryBuffer::new();
    let columns = History::from(history.points());
    assert!(columns.timestamps.is_empty());
    assert!(columns.cpu.is_empty());
    assert!(columns.cpu_temp.is_empty());
}

#[test]
fn recorded_sample_is_served_last() {
    let mut history = HistoryBuffer::new();
    for i in 0..70u64 {
        history.record(point(i));
        let columns = History::from(history.points());
        let last = columns.timestamps.len() - 1;
        assert_eq!(columns.timestamps[last], i);
        assert_eq!(columns.cpu[last], point(i).cpu_percent);
        assert_eq!(columns.cpu_temp[last], point(i).cpu_temp);
    }
}
