use sleepbench::stats::{reduce, sort_samples};

#[test]
fn sort_samples_sorts_ascending() {
    let v = vec![3u64, 1, 2, 2, 10, 0];
    assert_eq!(sort_samples(&v), vec![0u64, 1, 2, 2, 3, 10]);
    assert_eq!(sort_samples(&vec![7u64]), vec![7u64]);
    assert_eq!(sort_samples(&Vec::new()), Vec::<u64>::new());
}

#[test]
fn percentile_of_ten_thousand_ascending_samples_is_entry_9900() {
    // synthetic ascending sample set 0..L-1 with L = 10000: the percentile
    // read at floor(L * 99 / 100) = 9900 is the value 9900 itself
    let samples: Vec<u64> = (0..10000u64).collect();
    let r = reduce(&samples);
    assert_eq!(r.count, 10000);
    assert_eq!(r.p99, 9900);
    assert_eq!(r.sum, (0..10000u128).sum::<u128>());
}

#[test]
fn percentile_index_floors() {
    // 3 samples: index 3 * 99 / 100 = 2, the largest entry
    let r = reduce(&vec![3u64, 1, 2]);
    assert_eq!(r.p99, 3);
    assert_eq!(r.sum, 6);
    assert_eq!(r.count, 3);
    // 1 sample: index 0
    let r = reduce(&vec![42u64]);
    assert_eq!(r.p99, 42);
}

#[test]
fn reduction_scales_linearly() {
    // scaling every sample by k scales the sum and the percentile by k
    let samples = vec![5u64, 1, 3, 9, 4];
    let scaled: Vec<u64> = samples.iter().map(|x| x * 4).collect();
    let r = reduce(&samples);
    let rs = reduce(&scaled);
    assert_eq!(rs.sum, 4 * r.sum);
    assert_eq!(rs.p99, 4 * r.p99);
    assert_eq!(rs.count, r.count);
}

#[test]
fn reduce_ignores_input_order() {
    let a = reduce(&vec![9u64, 2, 5, 7, 1]);
    let b = reduce(&vec![1u64, 5, 9, 2, 7]);
    assert_eq!(a.sum, b.sum);
    assert_eq!(a.p99, b.p99);
}
