use singing_sand::frames::{
    bucket_for_frame, bucket_for_window, buffered_frames, count_sample, frames_per_bucket,
};

#[test]
fn bucket_width_spreads_the_file() {
    assert_eq!(frames_per_bucket(44_100 * 60, 1000), 2646);
    assert_eq!(frames_per_bucket(500, 1000), 1);
    assert_eq!(frames_per_bucket(0, 1000), 0);
    assert_eq!(frames_per_bucket(0, 0), 0);
}

#[test]
fn frames_fill_buckets_in_order() {
    assert_eq!(bucket_for_frame(0, 10, 4), 0);
    assert_eq!(bucket_for_frame(9, 10, 4), 0);
    assert_eq!(bucket_for_frame(10, 10, 4), 1);
    assert_eq!(bucket_for_frame(39, 10, 4), 3);
    assert_eq!(bucket_for_frame(1_000_000, 10, 4), 3);
}

#[test]
fn unknown_length_uses_fixed_width() {
    assert_eq!(bucket_for_frame(1023, 0, 1000), 0);
    assert_eq!(bucket_for_frame(1024, 0, 1000), 1);
    assert_eq!(bucket_for_frame(usize::MAX, 0, 1000), 999);
}

#[test]
fn windows_feed_their_center_bucket() {
    assert_eq!(bucket_for_window(2047, 1000, 10), 1);
    assert_eq!(bucket_for_window(500, 1000, 10), 0);
    assert_eq!(bucket_for_window(3047, 1000, 10), 2);
}

#[test]
fn bucket_index_never_decreases() {
    let mut last = 0;
    for f in 0..5000 {
        let b = bucket_for_frame(f, 37, 50);
        assert!(b >= last && b < 50);
        last = b;
    }
}

#[test]
fn position_ticks_come_every_period() {
    let (per_tick, channels) = (3u64, 2u64);
    let mut since = 0;
    let mut ticks = Vec::new();
    for i in 1..=18u64 {
        let (next, due) = count_sample(since, per_tick, channels);
        since = next;
        if due {
            ticks.push(i);
        }
    }
    assert_eq!(ticks, vec![6, 12, 18]);
    assert_eq!(count_sample(0, 0, 2), (0, true));
}

#[test]
fn buffered_whole_frames() {
    assert_eq!(buffered_frames(10, 4, 2), Some(3));
    assert_eq!(buffered_frames(10, 9, 2), Some(0));
    assert_eq!(buffered_frames(10, 10, 2), None);
    assert_eq!(buffered_frames(10, 12, 2), None);
}
