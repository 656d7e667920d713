use markov_music::policy::{FeedbackEvent, PolicyConfig, apply_event};

#[test]
fn defaults_are_usable() {
    let cfg = PolicyConfig::default();
    assert_eq!(cfg.reinforce_delta, 1);
    assert_eq!(cfg.like_delta, 2);
    assert_eq!(cfg.dislike_delta, 1);
    assert_eq!(cfg.tired_cooldown, 10);
    assert_eq!(cfg.squash_midpoint, 4);
    assert!(cfg.like_delta >= cfg.reinforce_delta);
}

#[test]
fn events_map_to_their_deltas() {
    let cfg = PolicyConfig::default();
    assert_eq!(apply_event(FeedbackEvent::Sequence, 5, &cfg), 6);
    assert_eq!(apply_event(FeedbackEvent::Like, 5, &cfg), 7);
    assert_eq!(apply_event(FeedbackEvent::Dislike, 5, &cfg), 4);
    // The mapping itself is unclamped; the store floors it at zero.
    assert_eq!(apply_event(FeedbackEvent::Dislike, 0, &cfg), -1);
}
