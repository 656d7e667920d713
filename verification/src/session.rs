//! Ephemeral session state: which song plays, which played before it,
//! and which songs are temporarily "tired".
//!
//! Tired marks live only here, never in the transition store, so they
//! cannot erode learned weights: they suppress a song from selection for
//! a fixed number of song transitions and then lapse.

use vstd::prelude::*;

use crate::chain::str_eq;

verus! {

/// Playback-lifecycle state, derived from the player flags.
#[derive(Clone, Copy, Debug, PartialEq, Eq, Structural)]
pub enum State {
    /// Nothing is playing.
    Stopped,
    /// A song is loaded but paused.
    Paused,
    /// A song is playing.
    Playing,
}

/// The tired entries as mathematical pairs of identifier and remaining
/// cooldown.
pub open spec fn tired_views(t: Seq<(String, u32)>) -> Seq<(Seq<char>, u32)> {
    t.map_values(|e: (String, u32)| (e.0@, e.1))
}

/// Whether `song` is currently suppressed: some entry for it still has
/// cooldown left.
pub open spec fn spec_tired(t: Seq<(Seq<char>, u32)>, song: Seq<char>) -> bool {
    exists|i: int| 0 <= i < t.len() && (#[trigger] t[i]).0 == song && t[i].1 > 0
}

/// One song transition: every remaining cooldown shrinks by one.
pub open spec fn tick_views(t: Seq<(Seq<char>, u32)>) -> Seq<(Seq<char>, u32)> {
    t.map_values(
        |e: (Seq<char>, u32)|
            (
                e.0,
                if e.1 > 0 {
                    (e.1 - 1) as u32
                } else {
                    0u32
                },
            ),
    )
}

/// `k` song transitions in a row.
pub open spec fn ticks(t: Seq<(Seq<char>, u32)>, k: nat) -> Seq<(Seq<char>, u32)>
    decreases k,
{
    if k == 0 {
        t
    } else {
        ticks(tick_views(t), (k - 1) as nat)
    }
}

/// Transitions do not add or remove entries.
pub proof fn lemma_ticks_len(t: Seq<(Seq<char>, u32)>, k: nat)
    ensures
        ticks(t, k).len() == t.len(),
    decreases k,
{
    if k > 0 {
        lemma_ticks_len(tick_views(t), (k - 1) as nat);
    }
}

/// After `k` transitions an entry keeps its identifier and its cooldown
/// has shrunk by `k`, floored at zero.
pub proof fn lemma_ticks_entry(t: Seq<(Seq<char>, u32)>, k: nat, i: int)
    requires
        0 <= i < t.len(),
    ensures
        ticks(t, k).len() == t.len(),
        ticks(t, k)[i].0 == t[i].0,
        ticks(t, k)[i].1 == (if t[i].1 > k {
            t[i].1 - k
        } else {
            0
        }),
    decreases k,
{
    if k > 0 {
        lemma_ticks_entry(tick_views(t), (k - 1) as nat, i);
    }
}

/// A tired mark is temporary: once as many transitions have passed as
/// the cooldown of every entry naming the song, the song is eligible
/// again.
pub proof fn lemma_tired_expires(t: Seq<(Seq<char>, u32)>, song: Seq<char>, k: nat)
    requires
        forall|i: int| 0 <= i < t.len() && (#[trigger] t[i]).0 == song ==> t[i].1 <= k,
    ensures
        !spec_tired(ticks(t, k), song),
{
    lemma_ticks_len(t, k);
    assert forall|i: int| 0 <= i < ticks(t, k).len() implies !((#[trigger] ticks(t, k)[i]).0
        == song && ticks(t, k)[i].1 > 0) by {
        lemma_ticks_entry(t, k, i);
    }
}

/// Current and previous song, plus the tired suppressions.
#[derive(Debug)]
pub struct SessionState {
    /// The song playing now, if any.
    pub current: Option<String>,
    /// The song that played right before it, if any.
    pub previous: Option<String>,
    /// Tired songs with their remaining cooldowns; one entry per song.
    pub tired: Vec<(String, u32)>,
}

impl SessionState {
    /// The tired entries, mathematically.
    pub open spec fn tired_view(&self) -> Seq<(Seq<char>, u32)> {
        tired_views(self.tired@)
    }

    /// Well-formed: at most one tired entry per song.
    pub open spec fn wf(&self) -> bool {
        forall|i: int, j: int|
            0 <= i < j < self.tired_view().len() ==> (#[trigger] self.tired_view()[i]).0 != (
            #[trigger] self.tired_view()[j]).0
    }

    /// A fresh session: nothing playing, nothing tired.
    pub fn new() -> (s: Self)
        ensures
            s.wf(),
            s.current is None,
            s.previous is None,
            s.tired_view() =~= Seq::<(Seq<char>, u32)>::empty(),
    {
        let s = SessionState { current: None, previous: None, tired: Vec::new() };
        proof {
            assert(s.tired_view() =~= Seq::<(Seq<char>, u32)>::empty());
        }
        s
    }

    /// Whether `song` is currently suppressed.
    #[verifier::loop_isolation(false)]
    pub fn is_tired(&self, song: &str) -> (r: bool)
        ensures
            r == spec_tired(self.tired_view(), song@),
    {
        let n = self.tired.len();
        let mut i: usize = 0;
        while i < n
            invariant
                n == self.tired@.len(),
                i <= n,
                forall|j: int|
                    0 <= j < i ==> !((#[trigger] self.tired_view()[j]).0 == song@
                        && self.tired_view()[j].1 > 0),
            decreases n - i,
        {
            if self.tired[i].1 > 0 && str_eq(self.tired[i].0.as_str(), song) {
                proof {
                    assert(self.tired_view()[i as int].0 == song@ && self.tired_view()[
                    i as int].1 > 0);
                }
                return true;
            }
            i += 1;
        }
        false
    }

    /// Marks `song` tired for `cooldown` transitions, replacing any
    /// entry it already has.
    #[verifier::loop_isolation(false)]
    pub fn mark_tired(&mut self, song: &str, cooldown: u32)
        requires
            old(self).wf(),
        ensures
            final(self).wf(),
            final(self).current == old(self).current,
            final(self).previous == old(self).previous,
            final(self).tired_view().len() >= old(self).tired_view().len(),
            forall|i: int|
                0 <= i < final(self).tired_view().len() ==> (#[trigger] final(self).tired_view()[i]) == (if final(self).tired_view()[i].0 == song@ {
                    (song@, cooldown)
                } else {
                    old(self).tired_view()[i]
                }),
            spec_tired(final(self).tired_view(), song@) == (cooldown > 0),
            exists|i: int|
                0 <= i < final(self).tired_view().len() && (#[trigger] final(self).tired_view()[i]) == (song@, cooldown),
    {
        let n = self.tired.len();
        let mut i: usize = 0;
        while i < n
            invariant
                n == self.tired@.len(),
                i <= n,
                *self == *old(self),
                forall|j: int| 0 <= j < i ==> (#[trigger] self.tired_view()[j]).0 != song@,
            decreases n - i,
        {
            if str_eq(self.tired[i].0.as_str(), song) {
                let entry = (song.to_owned(), cooldown);
                proof {
                    assert(entry.0@ == song@);
                }
                let ghost before = self.tired_view();
                self.tired[i] = entry;
                proof {
                    assert(self.tired_view() =~= before.update(i as int, (song@, cooldown)));
                    assert(self.tired_view()[i as int] == (song@, cooldown));
                    assert(before[i as int].0 == song@);
                    assert(forall|j: int|
                        0 <= j < n && j != i ==> #[trigger] self.tired_view()[j] == before[j]);
                    assert(forall|j: int|
                        0 <= j < n ==> (#[trigger] self.tired_view()[j]).0 == before[j].0);
                    if cooldown > 0 {
                        assert(spec_tired(self.tired_view(), song@));
                    } else {
                        assert(forall|j: int|
                            0 <= j < n && #[trigger] self.tired_view()[j].0 == song@ ==> j == i);
                    }
                }
                return ;
            }
            i += 1;
        }
        let entry = (song.to_owned(), cooldown);
        proof {
            assert(entry.0@ == song@);
        }
        let ghost before = self.tired_view();
        self.tired.push(entry);
        proof {
            assert(self.tired_view() =~= before.push((song@, cooldown)));
            assert(self.tired_view()[n as int] == (song@, cooldown));
            if cooldown > 0 {
                assert(spec_tired(self.tired_view(), song@));
            }
        }
    }

    /// One song transition passes: every cooldown shrinks by one.
    #[verifier::loop_isolation(false)]
    pub fn tick_tired(&mut self)
        requires
            old(self).wf(),
        ensures
            final(self).wf(),
            final(self).current == old(self).current,
            final(self).previous == old(self).previous,
            final(self).tired_view() == tick_views(old(self).tired_view()),
    {
        let n = self.tired.len();
        let mut i: usize = 0;
        while i < n
            invariant
                n == self.tired@.len(),
                i <= n,
                self.current == old(self).current,
                self.previous == old(self).previous,
                self.tired@.len() == old(self).tired@.len(),
                forall|j: int|
                    i <= j < n ==> #[trigger] self.tired_view()[j] == old(self).tired_view()[j],
                forall|j: int|
                    0 <= j < i ==> #[trigger] self.tired_view()[j] == tick_views(
                        old(self).tired_view(),
                    )[j],
            decreases n - i,
        {
            let ghost tv = self.tired_view();
            let c = self.tired[i].1;
            if c > 0 {
                self.tired[i].1 = c - 1;
                proof {
                    assert(self.tired_view() =~= tv.update(
                        i as int,
                        (tv[i as int].0, (c - 1) as u32),
                    ));
                }
            }
            proof {
                assert(self.tired_view()[i as int] == tick_views(old(self).tired_view())[i as int]);
            }
            i += 1;
        }
        proof {
            assert(final(self).tired_view() =~= tick_views(old(self).tired_view()));
        }
    }
}

} // verus!
