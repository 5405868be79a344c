use blink::{FrameOutcome, PresenceSampler, SamplerConfig};

fn config(window_ms: u64) -> SamplerConfig {
    SamplerConfig { window_ms, refractory_ms: 100, absence_frames: 5 }
}

#[test]
fn standard_policy_values() {
    let c = SamplerConfig::standard();
    assert_eq!(c.window_ms, 5000);
    assert_eq!(c.refractory_ms, 100);
    assert_eq!(c.absence_frames, 5);
    assert!(c.is_valid());
    assert!(!SamplerConfig { window_ms: 0, refractory_ms: 100, absence_frames: 5 }.is_valid());
    assert!(!SamplerConfig { window_ms: 10, refractory_ms: 100, absence_frames: 0 }.is_valid());
}

#[test]
fn fresh_sampler_state() {
    let s = PresenceSampler::new(SamplerConfig::standard(), 1000);
    assert_eq!(s.blink_count(), 0);
    assert_eq!(s.presence_ms(), 0);
    assert!(!s.eyes_present());
    assert_eq!(s.no_eyes_streak(), 0);
    assert_eq!(s.window_start().millis, 1000);
    assert_eq!(s.clock(), 1000);
}

#[test]
fn blink_on_two_to_none() {
    let mut s = PresenceSampler::new(config(60_000), 0);
    assert!(!s.observe(2, 150).blinked);
    let out = s.observe(0, 300);
    assert!(out.blinked);
    assert_eq!(s.blink_count(), 1);
}

#[test]
fn blink_on_two_to_one() {
    let mut s = PresenceSampler::new(config(60_000), 0);
    s.observe(2, 150);
    assert!(s.observe(1, 300).blinked);
    assert_eq!(s.blink_count(), 1);
}

#[test]
fn refractory_interval_rejects_bounce() {
    let mut s = PresenceSampler::new(config(60_000), 0);
    s.observe(2, 10);
    assert!(!s.observe(0, 50).blinked);
    s.observe(2, 60);
    assert!(s.observe(1, 200).blinked);
    s.observe(2, 250);
    assert!(!s.observe(0, 299).blinked);
    assert_eq!(s.blink_count(), 1);
}

#[test]
fn refractory_interval_is_inclusive() {
    let mut s = PresenceSampler::new(config(60_000), 0);
    s.observe(2, 50);
    assert!(s.observe(0, 100).blinked);
    s.observe(2, 150);
    assert!(s.observe(0, 200).blinked);
    assert_eq!(s.blink_count(), 2);
}

#[test]
fn no_blink_without_exactly_two_eyes_before() {
    let mut s = PresenceSampler::new(config(60_000), 0);
    let counts = [1u32, 0, 1, 0, 0, 1, 3, 1, 3, 0];
    let mut t: u64 = 0;
    for c in counts {
        t += 200;
        assert!(!s.observe(c, t).blinked);
    }
    assert_eq!(s.blink_count(), 0);
}

#[test]
fn two_to_two_and_up_is_no_blink() {
    let mut s = PresenceSampler::new(config(60_000), 0);
    s.observe(2, 200);
    assert!(!s.observe(2, 400).blinked);
    assert!(!s.observe(3, 600).blinked);
    assert_eq!(s.blink_count(), 0);
}

#[test]
fn first_frame_adds_no_presence() {
    let mut s = PresenceSampler::new(config(60_000), 0);
    s.observe(2, 1000);
    assert_eq!(s.presence_ms(), 0);
    assert!(s.eyes_present());
    s.observe(2, 1040);
    assert_eq!(s.presence_ms(), 40);
}

#[test]
fn frames_without_eyes_add_no_presence() {
    let mut s = PresenceSampler::new(config(60_000), 0);
    s.observe(2, 0);
    s.observe(0, 100);
    s.observe(0, 200);
    assert_eq!(s.presence_ms(), 0);
    s.observe(1, 300);
    assert_eq!(s.presence_ms(), 100);
}

#[test]
fn absence_after_five_empty_frames() {
    let mut s = PresenceSampler::new(config(60_000), 0);
    s.observe(2, 0);
    for k in 1..5u64 {
        s.observe(0, k * 30);
        assert!(s.eyes_present());
        assert_eq!(s.no_eyes_streak() as u64, k);
    }
    s.observe(0, 150);
    assert_eq!(s.no_eyes_streak(), 5);
    assert!(!s.eyes_present());
    s.observe(2, 180);
    assert!(s.eyes_present());
    assert_eq!(s.no_eyes_streak(), 0);
}

#[test]
fn single_empty_frame_keeps_presence() {
    let mut s = PresenceSampler::new(config(60_000), 0);
    let counts = [2u32, 0, 2, 0, 1, 0, 2, 0, 2];
    let mut t: u64 = 0;
    for c in counts {
        s.observe(c, t);
        assert!(s.eyes_present());
        t += 33;
    }
}

#[test]
fn window_closes_when_presence_reaches_length() {
    let mut s = PresenceSampler::new(SamplerConfig::standard(), 1_000);
    s.observe(2, 1_000);
    for k in 1..5u64 {
        assert_eq!(s.observe(2, 1_000 + k * 1_000).entry, None);
    }
    let out = s.observe(1, 6_000);
    let e = out.entry.expect("window closes");
    assert_eq!(e.start_time.millis, 1_000);
    assert_eq!(e.end_time.millis, 6_000);
    assert_eq!(e.presence_ms, 5_000);
    assert_eq!(e.blink_count, 1);
    assert_eq!(s.blink_count(), 0);
    assert_eq!(s.presence_ms(), 0);
    assert_eq!(s.window_start().millis, 6_000);
    assert_eq!(s.no_eyes_streak(), 0);
}

#[test]
fn windows_are_contiguous() {
    let mut s = PresenceSampler::new(config(1_000), 0);
    let mut entries = Vec::new();
    let mut t: u64 = 0;
    for i in 0..100u32 {
        let eyes = if i % 3 == 0 { 0 } else { 2 };
        let out: FrameOutcome = s.observe(eyes, t);
        if let Some(e) = out.entry {
            entries.push(e);
        }
        t += 70;
    }
    assert!(entries.len() >= 3);
    for pair in entries.windows(2) {
        assert_eq!(pair[0].end_time, pair[1].start_time);
    }
}

#[test]
fn presence_never_exceeds_window_length() {
    let mut s = PresenceSampler::new(config(2_000), 500);
    let mut t: u64 = 500;
    let mut closed = 0;
    for i in 0..300u64 {
        let eyes = [2u32, 2, 1, 0, 0, 2, 0][(i % 7) as usize];
        if let Some(e) = s.observe(eyes, t).entry {
            assert!(e.start_time.millis < e.end_time.millis);
            assert!(e.presence_ms <= e.end_time.millis - e.start_time.millis);
            assert!(e.presence_ms >= 2_000);
            closed += 1;
        }
        t += 45 + (i % 4) * 10;
    }
    assert!(closed > 0);
}

#[test]
fn alternating_stream_blinks_once_per_drop() {
    let mut s = PresenceSampler::new(config(60_000), 0);
    let mut blinks = 0;
    let mut drops = 0;
    let mut prev: u32 = 0;
    for i in 0..150u64 {
        let eyes = if i % 4 < 2 { 2 } else { 0 };
        if prev == 2 && eyes == 0 {
            drops += 1;
        }
        let out = s.observe(eyes, i * 150);
        if out.blinked {
            blinks += 1;
        }
        assert_eq!(out.entry, None);
        prev = eyes;
    }
    assert_eq!(drops, 37);
    assert_eq!(blinks, 37);
    assert_eq!(s.blink_count(), 37);
    assert_eq!(s.presence_ms(), 75 * 150);
}
