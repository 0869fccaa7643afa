use core_video_editor::decode::{
    best_va, compare_pts, needs_seek, packet_step, pick_audio, pick_video, plan_streams,
    test_ffmpeg_cmd, trim_range, AudioStep, DecodeScan, MediaKind, NRRational, PacketStep,
    PtsOrder, VideoPick,
};

#[test]
fn timestamps_compare_to_the_target() {
    assert_eq!(compare_pts(3, 5), PtsOrder::Less);
    assert_eq!(compare_pts(5, 5), PtsOrder::Equal);
    assert_eq!(compare_pts(-1, -2), PtsOrder::Greater);
}

#[test]
fn seeking_back_is_needed_at_or_past_the_target() {
    assert!(needs_seek(10, 10));
    assert!(needs_seek(11, 10));
    assert!(!needs_seek(-1, 0));
}

#[test]
fn scan_records_cache_then_decoded_frames() {
    let mut scan = DecodeScan::new(30);
    assert!(!scan.scan_cached(10, 10));
    assert!(!scan.scan_cached(20, 20));
    scan.start_packet();
    scan.on_frame(25);
    assert!(!scan.on_no_frame());
    scan.start_packet();
    scan.on_frame(35);
    scan.on_frame(30);
    assert!(scan.on_no_frame());
    assert_eq!(
        scan.in_order(),
        vec![
            (10, PtsOrder::Less),
            (20, PtsOrder::Less),
            (25, PtsOrder::Less),
            (30, PtsOrder::Equal),
            (35, PtsOrder::Greater)
        ]
    );
}

#[test]
fn scan_of_the_cache_stops_at_the_target() {
    let mut scan = DecodeScan::new(20);
    assert!(!scan.scan_cached(10, 10));
    assert!(scan.scan_cached(20, 20));
    let mut past = DecodeScan::new(15);
    assert!(past.scan_cached(20, 20));
    assert_eq!(past.in_order(), vec![(20, PtsOrder::Greater)]);
}

#[test]
fn start_packet_clears_the_reached_mark() {
    let mut scan = DecodeScan::new(5);
    scan.on_frame(9);
    assert!(scan.on_no_frame());
    scan.start_packet();
    assert!(!scan.on_no_frame());
    // A frame seen twice is recorded once.
    scan.on_frame(9);
    assert_eq!(scan.in_order(), vec![(9, PtsOrder::Greater)]);
}

#[test]
fn video_pick_exact_frame() {
    let r = vec![(1, PtsOrder::Less), (2, PtsOrder::Less), (3, PtsOrder::Equal), (4, PtsOrder::Greater)];
    assert_eq!(pick_video(&r), (vec![-1, 1], VideoPick::Exact(3)));
}

#[test]
fn video_pick_previous_frame_when_the_target_is_skipped() {
    let r = vec![(1, PtsOrder::Less), (5, PtsOrder::Greater)];
    assert_eq!(pick_video(&r), (vec![-1], VideoPick::Previous(1)));
    let first_past = vec![(7, PtsOrder::Greater)];
    assert_eq!(pick_video(&first_past), (vec![], VideoPick::Previous(-1)));
}

#[test]
fn video_pick_empty_when_nothing_reaches_the_target() {
    let r = vec![(1, PtsOrder::Less), (2, PtsOrder::Less)];
    assert_eq!(pick_video(&r), (vec![-1, 1], VideoPick::Empty));
    assert_eq!(pick_video(&vec![]), (vec![], VideoPick::Empty));
}

#[test]
fn audio_pick_collects_the_span() {
    // The span starts at 15 and the read went towards its end at 40.
    let r = vec![
        (0, PtsOrder::Less),
        (10, PtsOrder::Less),
        (20, PtsOrder::Less),
        (30, PtsOrder::Less),
        (40, PtsOrder::Equal),
    ];
    assert_eq!(
        pick_audio(&r, 15),
        vec![
            AudioStep::Evict(-1),
            AudioStep::Evict(0),
            AudioStep::CollectIfPresent(10),
            AudioStep::CollectIfPresent(20),
            AudioStep::Collect(30)
        ]
    );
}

#[test]
fn audio_pick_past_the_end_collects_the_frame_there_too() {
    let r = vec![(10, PtsOrder::Less), (50, PtsOrder::Greater), (60, PtsOrder::Greater)];
    assert_eq!(
        pick_audio(&r, 5),
        vec![
            AudioStep::CollectIfPresent(-1),
            AudioStep::CollectIfPresent(10),
            AudioStep::Collect(50)
        ]
    );
    assert_eq!(pick_audio(&vec![], 5), vec![]);
}

#[test]
fn audio_trim_cuts_both_ends() {
    // Frames start at 10; the last starts at 20 with 5 samples (ends at 24).
    // The span is 12..22 in stereo.
    assert_eq!(trim_range(100, 10, 20, 5, 12, 22, 2), (4, 96));
    // Nothing to cut.
    assert_eq!(trim_range(8, 0, 0, 4, 0, 3, 2), (0, 8));
}

#[test]
fn streams_plan_and_best_positions() {
    let streams = vec![
        (MediaKind::Video, 0),
        (MediaKind::Other, 1),
        (MediaKind::Audio, 2),
        (MediaKind::Video, 3),
    ];
    let children = plan_streams(&streams);
    assert_eq!(children, vec![(MediaKind::Video, 0), (MediaKind::Audio, 2), (MediaKind::Video, 3)]);
    assert_eq!(best_va(&children, 3, 2), (2, 1));
    assert_eq!(best_va(&children, 0, 2), (0, 1));
    // Streams without a decoder fall back to position 0.
    assert_eq!(best_va(&children, 1, 9), (0, 0));
}

#[test]
fn packets_of_other_streams_are_skipped_or_stop_the_read() {
    assert_eq!(packet_step(0, 1), PacketStep::Skip);
    assert_eq!(packet_step(1, 1), PacketStep::Decode);
    assert_eq!(packet_step(2, 1), PacketStep::Stop);
}

#[test]
fn rational_from_pair_and_command_check() {
    let r: NRRational = (30000, 1001).into();
    assert_eq!(r, NRRational(30000, 1001));
    assert!(test_ffmpeg_cmd().is_ok());
}

#[test]
fn a_scan_that_decoded_the_target_hands_it_out() {
    let mut scan = DecodeScan::new(40);
    for pts in [10, 20, 30] {
        assert!(!scan.scan_cached(pts, pts));
    }
    scan.start_packet();
    scan.on_frame(40);
    scan.on_frame(50);
    assert!(scan.on_no_frame());
    let (evict, pick) = pick_video(&scan.in_order());
    assert_eq!(pick, VideoPick::Exact(40));
    assert_eq!(evict, vec![-1, 10, 20]);
    // Without a frame at the target the previous one is handed out instead.
    let mut miss = DecodeScan::new(35);
    for pts in [10, 20, 30, 40] {
        miss.on_frame(pts);
    }
    assert_eq!(pick_video(&miss.in_order()).1, VideoPick::Previous(30));
}
