//! The weight-update policy: pure rules that turn feedback and sequencing
//! events into new edge weights.

use vstd::prelude::*;

verus! {

/// Tunable parameters of the learning policy.
///
/// All deltas are plain weight units; `tired_cooldown` counts song
/// transitions during which a tired song stays ineligible;
/// `squash_midpoint` is the half-saturation point of the selector's
/// score squashing.  The weight ceiling itself belongs to the store.
#[derive(Clone, Copy, Debug)]
pub struct PolicyConfig {
    /// Added to an edge each time its transition is observed.
    pub reinforce_delta: u32,
    /// Added to the playing song's incoming edge on an explicit like.
    pub like_delta: u32,
    /// Subtracted from the playing song's incoming edge on a dislike.
    pub dislike_delta: u32,
    /// Number of song transitions a tired mark lasts.
    pub tired_cooldown: u32,
    /// Weight at which a squashed score reaches half of its maximum.
    pub squash_midpoint: u32,
}

impl PolicyConfig {
    /// A configuration is usable when selection cannot divide by zero and
    /// a like outweighs plain sequencing reinforcement.
    pub open spec fn wf(&self) -> bool {
        &&& self.squash_midpoint >= 1
        &&& self.like_delta >= self.reinforce_delta
    }
}

impl Default for PolicyConfig {
    /// Moderate defaults: a like counts twice as much as an observed
    /// transition.
    fn default() -> (c: Self)
        ensures
            c.reinforce_delta == 1,
            c.like_delta == 2,
            c.dislike_delta == 1,
            c.tired_cooldown == 10,
            c.squash_midpoint == 4,
            c.wf(),
    {
        PolicyConfig {
            reinforce_delta: 1,
            like_delta: 2,
            dislike_delta: 1,
            tired_cooldown: 10,
            squash_midpoint: 4,
        }
    }
}

/// A feedback or sequencing event that changes one edge's weight.
/// A tired mark is deliberately absent: it never touches weights.
#[derive(Clone, Copy, Debug, PartialEq, Eq, Structural)]
pub enum FeedbackEvent {
    /// The edge's transition was observed during normal forward playback.
    Sequence,
    /// The listener liked the playing transition.
    Like,
    /// The listener disliked the playing transition.
    Dislike,
}

/// The new weight an event asks for, before the store's clamp: the
/// current weight raised by the matching delta, or lowered by it.
pub open spec fn event_target(event: FeedbackEvent, w: u32, cfg: &PolicyConfig) -> int {
    match event {
        FeedbackEvent::Sequence => w + cfg.reinforce_delta,
        FeedbackEvent::Like => w + cfg.like_delta,
        FeedbackEvent::Dislike => w - cfg.dislike_delta,
    }
}

/// The pure weight-update mapping: what an event turns the current
/// weight into, as the value to hand the store.  Deterministic,
/// side-effect free, and never failing.
pub fn apply_event(event: FeedbackEvent, w: u32, cfg: &PolicyConfig) -> (r: i64)
    ensures
        r == event_target(event, w, cfg),
{
    match event {
        FeedbackEvent::Sequence => w as i64 + cfg.reinforce_delta as i64,
        FeedbackEvent::Like => w as i64 + cfg.like_delta as i64,
        FeedbackEvent::Dislike => w as i64 - cfg.dislike_delta as i64,
    }
}

/// The weight actually stored after asking for `w`: clamped into
/// `[0, max]`.
pub open spec fn clamped(w: int, max: u32) -> u32 {
    if w < 0 {
        0u32
    } else if w > max {
        max
    } else {
        w as u32
    }
}

/// A clamped weight always lies between zero and the ceiling, whatever
/// the requested magnitude was.
pub proof fn lemma_clamp_in_range(w: int, max: u32)
    ensures
        0 <= clamped(w, max) <= max,
{
}

/// The weight after `n` like events of `delta` under ceiling `max`.
pub open spec fn raised_n(w: u32, delta: u32, max: u32, n: nat) -> u32
    decreases n,
{
    if n == 0 {
        w
    } else {
        clamped(raised_n(w, delta, max, (n - 1) as nat) + delta, max)
    }
}

/// Weight monotonicity: a run of like events on one edge, with no
/// intervening dislike, never lowers the stored weight and never pushes
/// it past the ceiling.
pub proof fn lemma_weight_monotonic(w: u32, delta: u32, max: u32, n: nat)
    requires
        w <= max,
    ensures
        raised_n(w, delta, max, n) <= raised_n(w, delta, max, n + 1),
        w <= raised_n(w, delta, max, n) <= max,
    decreases n,
{
    if n > 0 {
        lemma_weight_monotonic(w, delta, max, (n - 1) as nat);
    }
}

} // verus!
