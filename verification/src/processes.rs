//! Ranking of processes by load.

use vstd::prelude::*;

verus! {

/// How many processes the dashboard lists, busiest first.
pub const TOP_PROCESS_COUNT: usize = 5;

/// The bits of an `f32` are a NaN: all exponent bits set and a nonzero fraction.
pub open spec fn is_nan_bits(bits: u32) -> bool {
    bits & 0x7f80_0000u32 == 0x7f80_0000u32 && bits & 0x007f_ffffu32 != 0
}

/// For the bits of two `f32` readings that are not NaN: the first is the
/// smaller number. IEEE-754 orders such values by sign, then by magnitude
/// (larger magnitudes are smaller among negatives), and both zeros are equal.
pub open spec fn reading_less(a: u32, b: u32) -> bool {
    let (sa, ma) = (a >> 31u32, a & 0x7fff_ffffu32);
    let (sb, mb) = (b >> 31u32, b & 0x7fff_ffffu32);
    if ma == 0 && mb == 0 {
        false
    } else if sa == 0 && sb == 0 {
        ma < mb
    } else if sa == 1 && sb == 1 {
        ma > mb
    } else {
        sa == 1
    }
}

/// For the bits of two `f32` readings that are not NaN: they are the same number.
pub open spec fn reading_equal(a: u32, b: u32) -> bool {
    a == b || (a & 0x7fff_ffffu32 == 0 && b & 0x7fff_ffffu32 == 0)
}

/// The load key of a CPU reading given by the bits of its `f32`: keys order
/// as the readings do, both zeros share a key, and a NaN reading counts as zero.
pub open spec fn load_key(bits: u32) -> u64 {
    if is_nan_bits(bits) || bits & 0x7fff_ffffu32 == 0 {
        0x8000_0000u64
    } else if bits >> 31u32 == 1 {
        (!bits) as u64
    } else {
        (bits | 0x8000_0000u32) as u64
    }
}

/// Load keys order CPU readings exactly as their numeric values do.
pub proof fn lemma_load_keys_order_readings(a: u32, b: u32)
    requires
        !is_nan_bits(a),
        !is_nan_bits(b),
    ensures
        load_key(a) < load_key(b) <==> reading_less(a, b),
        load_key(a) == load_key(b) <==> reading_equal(a, b),
{
    assert(load_key(a) < load_key(b) <==> reading_less(a, b)) by (bit_vector)
        requires
            !is_nan_bits(a),
            !is_nan_bits(b),
    ;
    assert(load_key(a) == load_key(b) <==> reading_equal(a, b)) by (bit_vector)
        requires
            !is_nan_bits(a),
            !is_nan_bits(b),
    ;
}

/// Computes `load_key` of the bits of a CPU reading.
pub fn cpu_load_key(bits: u32) -> (key: u64)
    ensures
        key == load_key(bits),
{
    if (bits & 0x7f80_0000u32 == 0x7f80_0000u32 && bits & 0x007f_ffffu32 != 0) || bits
        & 0x7fff_ffffu32 == 0 {
        0x8000_0000u64
    } else if bits >> 31u32 == 1 {
        (!bits) as u64
    } else {
        (bits | 0x8000_0000u32) as u64
    }
}

/// The load keys of CPU readings given by their bits, in the order given.
pub open spec fn load_keys(readings: Seq<u32>) -> Seq<u64> {
    readings.map_values(|bits: u32| load_key(bits))
}

/// Computes `load_keys`.
pub fn cpu_load_keys(readings: &Vec<u32>) -> (keys: Vec<u64>)
    ensures
        keys@ == load_keys(readings@),
{
    let mut keys: Vec<u64> = Vec::with_capacity(readings.len());
    let mut i: usize = 0;
    while i < readings.len()
        invariant
            i <= readings@.len(),
            keys@.len() == i,
            forall|k: int| 0 <= k < i ==> keys@[k] == load_key(#[trigger] readings@[k]),
        decreases readings@.len() - i,
    {
        keys.push(cpu_load_key(readings[i]));
        i = i + 1;
    }
    assert(keys@ =~= load_keys(readings@));
    keys
}

/// Process `i` ranks before process `j` when it carries the larger load key,
/// or the same key and was listed first (the ranking is a stable sort).
pub open spec fn ranks_before(loads: Seq<u64>, i: int, j: int) -> bool {
    loads[i] > loads[j] || (loads[i] == loads[j] && i < j)
}

/// `picked` lists, in ranking order, the first `min(n, loads.len())` processes of
/// the ranking of `loads`.
pub open spec fn is_top_ranking(loads: Seq<u64>, n: nat, picked: Seq<usize>) -> bool {
    &&& picked.len() == (if n < loads.len() { n } else { loads.len() })
    &&& forall|a: int| 0 <= a < picked.len() ==> (#[trigger] picked[a]) < loads.len()
    &&& forall|a: int, b: int|
        0 <= a < b < picked.len() ==> ranks_before(
            loads,
            #[trigger] picked[a] as int,
            #[trigger] picked[b] as int,
        )
    &&& forall|a: int, j: int|
        0 <= a < picked.len() && 0 <= j < loads.len() && !picked.contains(j as usize)
            ==> #[trigger] ranks_before(loads, picked[a] as int, j)
}

proof fn lemma_unpicked_exists(picked: Seq<usize>, n: usize)
    requires
        picked.no_duplicates(),
        forall|a: int| 0 <= a < picked.len() ==> (#[trigger] picked[a]) < n,
        picked.len() < n,
    ensures
        exists|j: usize| j < n && !picked.contains(j),
{
    if forall|j: usize| j < n ==> picked.contains(j) {
        picked.unique_seq_to_set();
        vstd::set_lib::range_set_properties::<usize>(0, n);
        let range = Set::<usize>::range(0, n);
        assert(range.subset_of(picked.to_set())) by {
            assert forall|j: usize| range.contains(j) implies picked.to_set().contains(j) by {
                assert(picked.contains(j));
            }
        }
        vstd::set_lib::lemma_len_subset(range, picked.to_set());
    }
}

proof fn lemma_top_rankings_agree_below(loads: Seq<u64>, n: nat, p: Seq<usize>, q: Seq<usize>, k: int)
    requires
        is_top_ranking(loads, n, p),
        is_top_ranking(loads, n, q),
        0 <= k <= p.len(),
    ensures
        forall|i: int| 0 <= i < k ==> p[i] == q[i],
    decreases k,
{
    if k > 0 {
        let c = k - 1;
        lemma_top_rankings_agree_below(loads, n, p, q, c);
        let x = p[c];
        let y = q[c];
        if x != y {
            // `y` ranks after `x` in `p`, and `x` ranks after `y` in `q`.
            assert(ranks_before(loads, x as int, y as int)) by {
                if p.contains(y) {
                    let m = choose|m: int| 0 <= m < p.len() && p[m] == y;
                    if m < c {
                        assert(q[m] == y);
                        assert(ranks_before(loads, q[m] as int, q[c] as int));
                    }
                    assert(ranks_before(loads, p[c] as int, p[m] as int));
                } else {
                    assert(ranks_before(loads, p[c] as int, y as int));
                }
            }
            assert(ranks_before(loads, y as int, x as int)) by {
                if q.contains(x) {
                    let m = choose|m: int| 0 <= m < q.len() && q[m] == x;
                    if m < c {
                        assert(p[m] == x);
                        assert(ranks_before(loads, p[m] as int, p[c] as int));
                    }
                    assert(ranks_before(loads, q[c] as int, q[m] as int));
                } else {
                    assert(ranks_before(loads, q[c] as int, x as int));
                }
            }
        }
    }
}

/// The ranking that `top_process_indices` returns is fully determined by the loads
/// and `n`: any two lists that both meet `is_top_ranking` are the same list.
pub proof fn lemma_top_ranking_is_unique(loads: Seq<u64>, n: nat, p: Seq<usize>, q: Seq<usize>)
    requires
        is_top_ranking(loads, n, p),
        is_top_ranking(loads, n, q),
    ensures
        p == q,
{
    lemma_top_rankings_agree_below(loads, n, p, q, p.len() as int);
    assert(p =~= q);
}

fn contains_index(picked: &Vec<usize>, j: usize) -> (found: bool)
    ensures
        found == picked@.contains(j),
{
    let mut a: usize = 0;
    while a < picked.len()
        invariant
            a <= picked.len(),
            forall|b: int| 0 <= b < a ==> picked@[b] != j,
        decreases picked.len() - a,
    {
        if picked[a] == j {
            return true;
        }
        a = a + 1;
    }
    false
}

/// The indices of the `n` processes with the greatest load keys, busiest first;
/// processes with equal keys keep the order in which they were listed. Fewer
/// than `n` come back only when fewer were listed.
pub fn top_process_indices(loads: &Vec<u64>, n: usize) -> (picked: Vec<usize>)
    ensures
        is_top_ranking(loads@, n as nat, picked@),
{
    let len = loads.len();
    let m = if n < len { n } else { len };
    let mut picked: Vec<usize> = Vec::new();
    while picked.len() < m
        invariant
            len == loads@.len(),
            m == (if n < len { n } else { len }),
            picked@.len() <= m,
            forall|a: int| 0 <= a < picked@.len() ==> (#[trigger] picked@[a]) < len,
            forall|a: int, b: int|
                0 <= a < b < picked@.len() ==> ranks_before(
                    loads@,
                    #[trigger] picked@[a] as int,
                    #[trigger] picked@[b] as int,
                ),
            forall|a: int, j: int|
                0 <= a < picked@.len() && 0 <= j < len && !picked@.contains(j as usize)
                    ==> #[trigger] ranks_before(loads@, picked@[a] as int, j),
        decreases m - picked@.len(),
    {
        let mut best: usize = len;
        let mut i: usize = 0;
        while i < len
            invariant
                len == loads@.len(),
                i <= len,
                best == len || (best < i && !picked@.contains(best)),
                best == len ==> forall|j: usize| j < i ==> picked@.contains(j),
                best < len ==> forall|j: int|
                    0 <= j < i && j != best && !picked@.contains(j as usize)
                        ==> #[trigger] ranks_before(loads@, best as int, j),
            decreases len - i,
        {
            let ghost old_best = best;
            if !contains_index(&picked, i) {
                if best == len || loads[i] > loads[best] {
                    best = i;
                }
            }
            proof {
                if best < len {
                    assert forall|j: int|
                        0 <= j < i + 1 && j != best && !picked@.contains(
                            j as usize,
                        ) implies #[trigger] ranks_before(loads@, best as int, j) by {
                        if j < i && old_best < len && j != old_best {
                            assert(ranks_before(loads@, old_best as int, j));
                        }
                        if j < i && old_best == len {
                            assert(picked@.contains(j as usize));
                        }
                    }
                }
            }
            i = i + 1;
        }
        proof {
            if best == len {
                assert(picked@.no_duplicates()) by {
                    assert forall|a: int, b: int|
                        0 <= a < picked@.len() && 0 <= b < picked@.len() && a != b implies picked@[a]
                        != picked@[b] by {
                        if a < b {
                            assert(ranks_before(loads@, picked@[a] as int, picked@[b] as int));
                        } else {
                            assert(ranks_before(loads@, picked@[b] as int, picked@[a] as int));
                        }
                    }
                }
                lemma_unpicked_exists(picked@, len);
            }
        }
        let ghost old_picked = picked@;
        picked.push(best);
        proof {
            assert forall|a: int, b: int| 0 <= a < b < picked@.len() implies ranks_before(
                loads@,
                #[trigger] picked@[a] as int,
                #[trigger] picked@[b] as int,
            ) by {
                if b == old_picked.len() {
                    assert(old_picked[a] == picked@[a]);
                }
            }
            assert forall|a: int, j: int|
                0 <= a < picked@.len() && 0 <= j < len && !picked@.contains(j as usize)
                implies #[trigger] ranks_before(loads@, picked@[a] as int, j) by {
                assert(!old_picked.contains(j as usize)) by {
                    if old_picked.contains(j as usize) {
                        let k = choose|k: int| 0 <= k < old_picked.len() && old_picked[k] == j as usize;
                        assert(picked@[k] == j as usize);
                    }
                }
                assert(j != best) by {
                    assert(picked@[old_picked.len() as int] == best);
                }
                if a < old_picked.len() {
                    assert(old_picked[a] == picked@[a]);
                }
            }
        }
    }
    picked
}

/// Each process keeps the load key of its own reading: the keys of a sample
/// are, one for one and in order, the keys of its readings.
pub proof fn lemma_load_keys_follow_readings(readings: Seq<u32>)
    ensures
        load_keys(readings).len() == readings.len(),
        forall|k: int| 0 <= k < readings.len() ==> #[trigger] load_keys(readings)[k] == load_key(readings[k]),
{
}

/// In the ranking of a sample's CPU readings, a process whose reading is
/// numerically larger (neither being NaN) is never left out or placed after a
/// process with a smaller reading that is listed.
pub proof fn lemma_busier_process_ranks_first(
    readings: Seq<u32>,
    n: nat,
    picked: Seq<usize>,
    busier: usize,
    idler: usize,
)
    requires
        is_top_ranking(load_keys(readings), n, picked),
        0 <= busier < readings.len(),
        0 <= idler < readings.len(),
        !is_nan_bits(readings[busier as int]),
        !is_nan_bits(readings[idler as int]),
        reading_less(readings[idler as int], readings[busier as int]),
        picked.contains(idler),
    ensures
        exists|a: int, b: int|
            0 <= a < b < picked.len() && picked[a] == busier && picked[b] == idler,
{
    let keys = load_keys(readings);
    lemma_load_keys_order_readings(readings[idler as int], readings[busier as int]);
    assert(keys[idler as int] < keys[busier as int]);
    let b = choose|b: int| 0 <= b < picked.len() && picked[b] == idler;
    if !picked.contains(busier) {
        assert(ranks_before(keys, picked[b] as int, busier as int));
        assert(false);
    }
    let a = choose|a: int| 0 <= a < picked.len() && picked[a] == busier;
    if a > b {
        assert(ranks_before(keys, picked[b] as int, picked[a] as int));
        assert(false);
    }
    if a == b {
        assert(false);
    }
    assert(0 <= a < b < picked.len() && picked[a] == busier && picked[b] == idler);
}

/// The ranking lists `n` distinct processes, or every process where fewer
/// than `n` are listed, each one a listed process.
pub proof fn lemma_top_ranking_size(loads: Seq<u64>, n: nat, picked: Seq<usize>)
    requires
        is_top_ranking(loads, n, picked),
    ensures
        picked.len() <= n,
        picked.len() <= loads.len(),
        loads.len() >= n ==> picked.len() == n,
        loads.len() < n ==> picked.len() == loads.len(),
        picked.no_duplicates(),
        forall|a: int| 0 <= a < picked.len() ==> (#[trigger] picked[a]) < loads.len(),
{
    assert forall|a: int, b: int|
        0 <= a < picked.len() && 0 <= b < picked.len() && a != b implies picked[a] != picked[b] by {
        if a < b {
            assert(ranks_before(loads, picked[a] as int, picked[b] as int));
        } else {
            assert(ranks_before(loads, picked[b] as int, picked[a] as int));
        }
    }
}

} // verus!
