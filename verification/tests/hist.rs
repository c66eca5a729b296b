use correctness_bench::hist::{
    deserialize_v2, is_countable, merge_snapshot, new_corrected_target, serialize_v2,
    value_at_quantile, Histos, SnapshotMerge, Summary,
};
use correctness_bench::v2::{is_decodable, to_plain, V2_COMPRESSED_COOKIE, V2_COOKIE};
use std::io::Write;

#[test]
fn recorded_latencies_show_in_the_summary() {
    let mut h = Histos::new();
    for us in 1..=100u64 {
        h.record(us * 10, us);
    }
    let c = Summary::from(&h.corrected);
    assert_eq!(c.count, 100);
    assert_eq!(c.p50_us, 500);
    assert_eq!(c.p95_us, 950);
    assert_eq!(c.p99_us, 990);
    assert_eq!(c.p999_us, 1000);
    assert_eq!(c.max_us, 1000);
    let u = Summary::from(&h.uncorrected);
    assert_eq!((u.count, u.p50_us, u.max_us), (100, 50, 100));
}

#[test]
fn corrected_percentiles_are_at_least_the_uncorrected() {
    let mut h = Histos::default();
    for i in 0..1000u64 {
        h.record(500 + 3 * i, 500 + i);
    }
    let c = Summary::from(&h.corrected);
    let u = Summary::from(&h.uncorrected);
    assert!(c.p50_us >= u.p50_us && c.p95_us >= u.p95_us);
    assert!(c.p99_us >= u.p99_us && c.p999_us >= u.p999_us);
}

#[test]
fn an_empty_histogram_has_no_percentiles() {
    let h = new_corrected_target();
    let s = Summary::from(&h);
    assert_eq!(
        s,
        Summary { count: 0, p50_us: 0, p95_us: 0, p99_us: 0, p999_us: 0, max_us: 0 }
    );
    assert!(is_countable(&h));
}

#[test]
fn latencies_out_of_range_count_as_the_nearest_in_range() {
    let mut h = Histos::new();
    h.record(0, 0);
    h.record(u64::MAX, 60_000_001);
    let s = Summary::from(&h.corrected);
    assert_eq!(s.count, 2);
    assert_eq!(s.p50_us, 1);
    // 60 s falls into the slot that ends at 60030975 us.
    assert_eq!(s.max_us, 60_030_975);
    assert_eq!(Summary::from(&h.uncorrected).max_us, 60_030_975);
}

#[test]
fn slots_widen_with_the_value() {
    let mut h = Histos::new();
    h.record(2047, 2048);
    // 2047 has a slot of its own; 2048 shares one with 2049.
    assert_eq!(Summary::from(&h.corrected).max_us, 2047);
    assert_eq!(Summary::from(&h.uncorrected).max_us, 2049);
}

#[test]
fn half_plus_half_equals_full() {
    let mut full = Histos::new();
    let mut a = Histos::new();
    let mut b = Histos::new();
    for i in 0..2000u64 {
        let us = (i * 7919) % 50_000 + 1;
        full.record(us, us / 2 + 1);
        if i % 2 == 0 {
            a.record(us, us / 2 + 1);
        } else {
            b.record(us, us / 2 + 1);
        }
    }
    a.merge(&b);
    assert_eq!(Summary::from(&a.corrected), Summary::from(&full.corrected));
    assert_eq!(Summary::from(&a.uncorrected), Summary::from(&full.uncorrected));
    assert_eq!(serialize_v2(&a.corrected), serialize_v2(&full.corrected));
}

#[test]
fn merging_does_not_depend_on_the_order() {
    let mut ab = Histos::new();
    let mut ba = Histos::new();
    let mut a = Histos::new();
    let mut b = Histos::new();
    for i in 1..500u64 {
        a.record(i, i);
        b.record(i * 100, i);
    }
    ab.merge(&a);
    ab.merge(&b);
    ba.merge(&b);
    ba.merge(&a);
    assert_eq!(serialize_v2(&ab.corrected), serialize_v2(&ba.corrected));
}

#[test]
fn snapshots_read_back() {
    let mut h = Histos::new();
    for i in 0..300u64 {
        h.record(i * i + 1, i + 1);
    }
    let bytes = serialize_v2(&h.corrected);
    assert!(!bytes.is_empty());
    let back = deserialize_v2(&bytes).expect("a snapshot reads back");
    assert_eq!(Summary::from(&back), Summary::from(&h.corrected));
    assert_eq!(serialize_v2(&back), bytes);
}

#[test]
fn empty_and_malformed_snapshots_are_refused() {
    assert!(deserialize_v2(&[]).is_none());
    assert!(deserialize_v2(&[1, 2, 3]).is_none());
    let mut h = Histos::new();
    h.record(10, 10);
    let mut bytes = serialize_v2(&h.corrected);
    bytes.truncate(bytes.len() / 2);
    assert!(deserialize_v2(&bytes).is_none());
    let mut target = new_corrected_target();
    assert!(!merge_snapshot(&mut target, &bytes));
    assert!(!merge_snapshot(&mut target, &[]));
    assert_eq!(Summary::from(&target).count, 0);
}

#[test]
fn snapshots_of_other_settings_are_recorded_anew() {
    // One value, 40, in a histogram of two significant digits up to 1000.
    let mut other = hdrhistogram::Histogram::<u64>::new_with_bounds(1, 1000, 2).unwrap();
    other.record(40).unwrap();
    let mut bytes = Vec::new();
    hdrhistogram::serialization::Serializer::serialize(
        &mut hdrhistogram::serialization::V2DeflateSerializer::new(),
        &other,
        &mut bytes,
    )
    .unwrap();
    let mut target = new_corrected_target();
    assert!(merge_snapshot(&mut target, &bytes));
    let s = Summary::from(&target);
    assert_eq!((s.count, s.p50_us, s.max_us), (1, 40, 40));
    // A value beyond the last slot is refused.
    let mut far = hdrhistogram::Histogram::<u64>::new_with_bounds(1, u64::MAX / 2, 2).unwrap();
    far.record(1 << 40).unwrap();
    let mut bytes = Vec::new();
    hdrhistogram::serialization::Serializer::serialize(
        &mut hdrhistogram::serialization::V2DeflateSerializer::new(),
        &far,
        &mut bytes,
    )
    .unwrap();
    assert!(!merge_snapshot(&mut target, &bytes));
    assert_eq!(Summary::from(&target).count, 1);
}

#[test]
fn merged_snapshots_are_the_sum() {
    let mut full = Histos::new();
    let mut m = SnapshotMerge::new();
    assert_eq!(m.percentile(500), 0);
    assert!(m.snapshot().is_empty());
    for w in 0..3u64 {
        let mut one = Histos::new();
        for i in 0..100u64 {
            one.record(w * 1000 + i + 1, 1);
            full.record(w * 1000 + i + 1, 1);
        }
        m.merge(&serialize_v2(&one.corrected));
        m.merge(&[]);
    }
    assert_eq!(m.snapshot(), serialize_v2(&full.corrected));
    assert_eq!(m.percentile(500), value_at_quantile(&full.corrected, 500));
    assert_eq!(m.percentile(990), value_at_quantile(&full.corrected, 990));
}

/// The plain form of an encoding: the header with these settings, then `numbers`.
fn plain(low: u64, high: u64, digits: u32, numbers: &[u64]) -> Vec<u8> {
    let mut payload = Vec::new();
    for n in numbers {
        let mut rest = *n;
        for _ in 0..8 {
            if rest < 128 {
                break;
            }
            payload.push((rest % 128) as u8 + 128);
            rest /= 128;
        }
        payload.push(rest as u8);
    }
    let mut bytes = V2_COOKIE.to_be_bytes().to_vec();
    bytes.extend((payload.len() as u32).to_be_bytes());
    bytes.extend(0u32.to_be_bytes());
    bytes.extend(digits.to_be_bytes());
    bytes.extend(low.to_be_bytes());
    bytes.extend(high.to_be_bytes());
    bytes.extend(1f64.to_be_bytes());
    bytes.extend(payload);
    bytes
}

/// The compressed form of `plain`.
fn compressed(plain: &[u8]) -> Vec<u8> {
    let mut z = flate2::write::ZlibEncoder::new(Vec::new(), flate2::Compression::default());
    z.write_all(plain).unwrap();
    let stream = z.finish().unwrap();
    let mut bytes = V2_COMPRESSED_COOKIE.to_be_bytes().to_vec();
    bytes.extend((stream.len() as u32).to_be_bytes());
    bytes.extend(stream);
    bytes
}

/// The number that stands for a count.
fn count(n: u64) -> u64 {
    2 * n
}

/// The number that stands for a run of empty slots.
fn run(len: u64) -> u64 {
    2 * (len - 1) + 1
}

#[test]
fn both_forms_of_an_encoding_are_read() {
    // Three values of 0, a run of 500 empty slots, then two values of 501.
    let bytes = plain(1, 60_000_000, 3, &[count(3), run(500), count(2)]);
    for form in [bytes.clone(), compressed(&bytes)] {
        let h = deserialize_v2(&form).expect("well formed");
        let s = Summary::from(&h);
        assert_eq!((s.count, s.p50_us, s.p99_us, s.max_us), (5, 0, 501, 501));
    }
    // What follows the payload, or the stream, is not looked at.
    let mut longer = bytes.clone();
    longer.extend([255; 20]);
    assert!(is_decodable(&longer));
    assert!(deserialize_v2(&longer).is_some());
    let mut longer = compressed(&bytes);
    longer.extend([255; 20]);
    assert_eq!(to_plain(&longer).unwrap(), bytes);
    assert!(deserialize_v2(&longer).is_some());
}

#[test]
fn what_this_library_encodes_is_decodable() {
    let mut h = Histos::new();
    for i in 0..5000u64 {
        h.record(i * 12_000, i);
    }
    let inflated = to_plain(&serialize_v2(&h.corrected)).unwrap();
    assert!(is_decodable(&inflated));
    assert_eq!(inflated[..4], V2_COOKIE.to_be_bytes());
}

#[test]
fn empty_slots_beyond_the_last_are_ignored() {
    // One value of 0, then runs that lead far past the last slot.
    let long = 1u64 << 62;
    for runs in [
        vec![run(17_407)],
        vec![run(1 << 25)],
        vec![run(1 << 32)],
        vec![run(1 << 33), count(0), run(7)],
        vec![run(long), run(long), run(long)],
    ] {
        let mut numbers = vec![count(1)];
        numbers.extend(runs);
        let bytes = plain(1, 60_000_000, 3, &numbers);
        assert!(is_decodable(&bytes));
        for form in [bytes.clone(), compressed(&bytes)] {
            let mut target = new_corrected_target();
            assert!(merge_snapshot(&mut target, &form));
            let s = Summary::from(&target);
            assert_eq!((s.count, s.max_us), (1, 0));
        }
        // A count out there is malformed.
        numbers.push(count(1));
        let bytes = plain(1, 60_000_000, 3, &numbers);
        assert!(deserialize_v2(&bytes).is_none());
        assert!(deserialize_v2(&compressed(&bytes)).is_none());
    }
    // The last slot is in reach.
    let bytes = plain(1, 60_000_000, 3, &[count(1), run(17_406), count(1)]);
    let h = deserialize_v2(&compressed(&bytes)).expect("the last slot is in reach");
    assert_eq!(Summary::from(&h).count, 2);
}

#[test]
fn runs_that_cannot_be_followed_are_refused() {
    let longest = plain(1, 60_000_000, 3, &[run(1 << 63)]);
    assert_eq!(longest[40..], [255u8; 9]);
    let half = 1u64 << 62;
    for numbers in [
        vec![run(1 << 63)],
        vec![count(1), run(1 << 63)],
        vec![count(1), run(1 << 63), count(1)],
        // Only together are these too long.
        vec![run(half), run(half), run(half), run(half)],
        vec![run(half), run(half), run(half), run(half - 2), count(0), count(0)],
    ] {
        let bytes = plain(1, 60_000_000, 3, &numbers);
        assert!(!is_decodable(&bytes));
        for form in [bytes.clone(), compressed(&bytes)] {
            assert!(deserialize_v2(&form).is_none());
            let mut target = new_corrected_target();
            assert!(!merge_snapshot(&mut target, &form));
            assert_eq!(Summary::from(&target).count, 0);
        }
    }
    let bytes = plain(1, 60_000_000, 3, &[run(half), run(half), run(half), run(half - 1)]);
    assert!(is_decodable(&bytes));
    assert_eq!(Summary::from(&deserialize_v2(&bytes).unwrap()).count, 0);
}

#[test]
fn a_snapshot_with_an_endless_run_does_not_stop_the_others() {
    let bad = compressed(&plain(1, 60_000_000, 3, &[run(1 << 63)]));
    let mut good = Histos::new();
    good.record(70, 70);
    let mut m = SnapshotMerge::new();
    m.merge(&bad);
    assert_eq!(m.percentile(500), 0);
    m.merge(&serialize_v2(&good.corrected));
    m.merge(&bad);
    assert_eq!(m.percentile(500), 70);
    assert_eq!(m.snapshot(), serialize_v2(&good.corrected));
}

#[test]
fn cut_off_and_nested_encodings_are_refused() {
    let bytes = plain(1, 60_000_000, 3, &[count(300), count(1)]);
    assert!(deserialize_v2(&bytes).is_some());
    for len in 0..bytes.len() {
        assert!(deserialize_v2(&bytes[..len]).is_none());
        assert!(deserialize_v2(&compressed(&bytes[..len])).is_none());
    }
    assert!(deserialize_v2(&compressed(&compressed(&bytes))).is_none());
    // The payload ends within a number.
    let mut cut = bytes.clone();
    cut[7] -= 1;
    *cut.last_mut().unwrap() = 0;
    assert!(deserialize_v2(&cut).is_some());
    cut[7] -= 1;
    assert!(deserialize_v2(&cut).is_none());
    // The header announces more than there is.
    let mut huge = bytes.clone();
    huge[4..8].copy_from_slice(&200_000_000u32.to_be_bytes());
    assert!(!is_decodable(&huge));
    assert!(to_plain(&compressed(&huge)).is_none());
    assert!(deserialize_v2(&compressed(&huge)).is_none());
    // Settings that no histogram can have.
    assert!(deserialize_v2(&plain(0, 10, 3, &[count(1)])).is_none());
    assert!(deserialize_v2(&plain(1, 60_000_000, 9, &[count(1)])).is_none());
}

#[test]
fn copies_are_independent() {
    let mut h = Histos::new();
    h.record(5, 4);
    let copy = h.clone();
    h.record(9, 8);
    assert_eq!(Summary::from(&copy.corrected).max_us, 5);
    assert_eq!(Summary::from(&copy.uncorrected).max_us, 4);
    assert_eq!(Summary::from(&h.corrected).count, 2);
}
