use tomegane::extract::diff::{
    change_score, hamming_distance, select_key_frames, ChangeScore, KeyFrame, KeyFrameSelector,
    PHash,
};

#[test]
fn hamming_distance_is_symmetric() {
    let a = PHash(0b1010_1010);
    let b = PHash(0b0101_0101);
    assert_eq!(hamming_distance(a, b), hamming_distance(b, a));
}

#[test]
fn max_hamming_distance_is_64() {
    let a = PHash(0);
    let b = PHash(u64::MAX);
    assert_eq!(hamming_distance(a, b), 64);
    assert_eq!(change_score(a, b).distance as f64 / 64.0, 1.0);
}

#[test]
fn change_score_is_normalized() {
    let a = PHash(0);
    let b = PHash(0b1111); // 4 bits different
    let score = change_score(a, b).distance as f64 / 64.0;
    assert!((score - 4.0 / 64.0).abs() < f64::EPSILON);
}

#[test]
fn empty_input_returns_empty() {
    let frames: Vec<PHash> = vec![];
    // A threshold of 0.1 needs at least 7 of 64 bits to change.
    let selected = select_key_frames(&frames, 7, None);
    assert!(selected.is_empty());
}

#[test]
fn identical_hashes_have_zero_distance() {
    let a = PHash(0xdead_beef_0123_4567);
    assert_eq!(hamming_distance(a, a), 0);
    assert_eq!(change_score(a, a), ChangeScore { distance: 0 });
}

#[test]
fn complement_hashes_are_completely_different() {
    let a = PHash(0x0f0f_0000_ffff_1234);
    assert_eq!(hamming_distance(a, PHash(!a.0)), 64);
    assert!(hamming_distance(a, PHash(a.0 ^ 1)) < 64);
}

#[test]
fn select_key_frames_compares_to_last_kept_frame() {
    // Each frame drifts by one bit; with a 2-bit minimum only every second
    // frame has drifted far enough from the last kept one.
    let hashes = vec![PHash(0b0000), PHash(0b0001), PHash(0b0011), PHash(0b0111), PHash(0b1111)];
    let selected = select_key_frames(&hashes, 2, None);
    assert_eq!(
        selected,
        vec![
            KeyFrame { index: 0, distance: 0 },
            KeyFrame { index: 2, distance: 2 },
            KeyFrame { index: 4, distance: 2 },
        ]
    );
}

#[test]
fn select_key_frames_always_includes_first_frame() {
    let hashes = vec![PHash(5), PHash(5), PHash(5)];
    let selected = select_key_frames(&hashes, 0, None);
    assert_eq!(selected[0], KeyFrame { index: 0, distance: 0 });
    assert_eq!(selected.len(), 3);
    let strict = select_key_frames(&hashes, 1, None);
    assert_eq!(strict, vec![KeyFrame { index: 0, distance: 0 }]);
}

#[test]
fn threshold_of_whole_hash_keeps_only_first() {
    let hashes = vec![PHash(0), PHash(0xff), PHash(0xffff_0000), PHash(1)];
    let selected = select_key_frames(&hashes, 64, None);
    assert_eq!(selected, vec![KeyFrame { index: 0, distance: 0 }]);
}

#[test]
fn max_frames_keeps_first_and_largest_changes_in_order() {
    // Distances to the previous frame: 1, 9, 3, 7, 2 (all kept at 1 bit).
    let hashes = vec![
        PHash(0),
        PHash(0b1),
        PHash(0b1_1111_1110),
        PHash(0b1_1111_0000),
        PHash(0b1111_1111_1111_0000),
        PHash(0b1111_1111_1111_0011),
    ];
    let all = select_key_frames(&hashes, 1, None);
    assert_eq!(all.len(), 6);
    let capped = select_key_frames(&hashes, 1, Some(3));
    assert_eq!(
        capped,
        vec![
            KeyFrame { index: 0, distance: 0 },
            KeyFrame { index: 2, distance: 9 },
            KeyFrame { index: 4, distance: 7 },
        ]
    );
    let one = select_key_frames(&hashes, 1, Some(1));
    assert_eq!(one, vec![KeyFrame { index: 0, distance: 0 }]);
    let roomy = select_key_frames(&hashes, 1, Some(10));
    assert_eq!(roomy, all);
}

#[test]
fn max_frames_breaks_ties_by_earlier_frame() {
    let hashes = vec![PHash(0), PHash(1), PHash(0), PHash(1)];
    let capped = select_key_frames(&hashes, 1, Some(3));
    assert_eq!(
        capped,
        vec![
            KeyFrame { index: 0, distance: 0 },
            KeyFrame { index: 1, distance: 1 },
            KeyFrame { index: 2, distance: 1 },
        ]
    );
}

#[test]
fn streaming_selector_matches_batch_selection() {
    let hashes = vec![PHash(0), PHash(0b11), PHash(0b111), PHash(0), PHash(u64::MAX), PHash(3)];
    for min in [0u32, 1, 2, 3, 40, 65] {
        let batch = select_key_frames(&hashes, min, None);
        let mut selector = KeyFrameSelector::new(min);
        let mut streamed = Vec::new();
        for (index, h) in hashes.iter().enumerate() {
            if let Some(distance) = selector.offer(*h) {
                streamed.push(KeyFrame { index, distance });
            }
        }
        assert_eq!(streamed, batch, "min distance {min}");
    }
}

#[test]
fn zero_threshold_keeps_every_frame() {
    let hashes = vec![PHash(0), PHash(0), PHash(1), PHash(u64::MAX), PHash(u64::MAX)];
    let all = select_key_frames(&hashes, 0, None);
    assert_eq!(all.len(), hashes.len());
    let high = select_key_frames(&hashes, 32, None);
    assert!(high.len() <= all.len());
    assert_eq!(high.iter().map(|k| k.index).collect::<Vec<_>>(), vec![0, 3]);
}

#[test]
fn cap_of_zero_returns_no_frame() {
    let hashes = vec![PHash(0), PHash(u64::MAX), PHash(0)];
    assert!(select_key_frames(&hashes, 1, Some(0)).is_empty());
    assert!(select_key_frames(&[], 1, Some(0)).is_empty());
}

#[test]
fn cut_keeps_exactly_the_cap_and_drops_smaller_changes() {
    // Distances to the previous frame: 1, 9, 3, 7, 2.
    let hashes = vec![
        PHash(0),
        PHash(0b1),
        PHash(0b1_1111_1110),
        PHash(0b1_1111_0000),
        PHash(0b1111_1111_1111_0000),
        PHash(0b1111_1111_1111_0011),
    ];
    let all = select_key_frames(&hashes, 1, None);
    for m in 1..all.len() {
        let capped = select_key_frames(&hashes, 1, Some(m));
        assert_eq!(capped.len(), m);
        assert_eq!(capped[0], all[0]);
        for dropped in all[1..].iter().filter(|k| !capped.contains(k)) {
            for kept in &capped[1..] {
                assert!(dropped.distance <= kept.distance);
            }
        }
    }
}
