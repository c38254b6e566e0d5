use system_estv::processes::{cpu_load_key, cpu_load_keys, top_process_indices, TOP_PROCESS_COUNT};

#[test]
fn busiest_processes_come_first_and_ties_keep_listing_order() {
    let loads = vec![10, 50, 50, 5, 70, 20, 1];
    assert_eq!(top_process_indices(&loads, TOP_PROCESS_COUNT), vec![4, 1, 2, 5, 0]);
}

#[test]
fn fewer_processes_than_requested_are_all_listed() {
    assert_eq!(top_process_indices(&vec![3, 3], 5), vec![0, 1]);
    assert_eq!(top_process_indices(&vec![1, 9], 5), vec![1, 0]);
}

#[test]
fn no_process_gives_an_empty_ranking() {
    assert_eq!(top_process_indices(&vec![], 5), Vec::<usize>::new());
    assert_eq!(top_process_indices(&vec![4, 8], 0), Vec::<usize>::new());
}

#[test]
fn ranking_is_the_prefix_of_a_stable_descending_sort() {
    let loads: Vec<u64> = vec![7, 3, 9, 9, 1, 7, 7, 0, 12, 3];
    let mut order: Vec<usize> = (0..loads.len()).collect();
    order.sort_by(|a, b| loads[*b].cmp(&loads[*a]));
    order.truncate(5);
    assert_eq!(top_process_indices(&loads, 5), order);
}

#[test]
fn load_keys_order_readings_as_numbers() {
    let readings = [
        f32::NEG_INFINITY, -1e30, -2.5, -1.0, -1e-40, -0.0, 0.0, 1e-40, 0.5, 1.0, 99.9, 1e30,
        f32::INFINITY,
    ];
    for a in readings {
        for b in readings {
            let (ka, kb) = (cpu_load_key(a.to_bits()), cpu_load_key(b.to_bits()));
            assert_eq!(ka < kb, a < b, "{a} {b}");
            assert_eq!(ka == kb, a == b, "{a} {b}");
        }
    }
}

#[test]
fn nan_reading_counts_as_zero() {
    assert_eq!(cpu_load_key(f32::NAN.to_bits()), cpu_load_key(0.0f32.to_bits()));
    assert_eq!(cpu_load_key((-f32::NAN).to_bits()), cpu_load_key(0.0f32.to_bits()));
}

#[test]
fn processes_are_ranked_by_cpu_reading() {
    let cpu = [3.5f32, 0.0, 12.25, 3.5, 100.0, 0.1, 7.0];
    let keys = cpu_load_keys(&cpu.iter().map(|c| c.to_bits()).collect());
    assert_eq!(top_process_indices(&keys, 5), vec![4, 2, 6, 0, 3]);
}
