//! The session handle: one object tying the transition store, the
//! weight-update policy, the session state, a model of the player and a
//! directory cursor to the playback lifecycle.
//!
//! The handle performs no input or output itself.  Methods that need the
//! outside world (starting playback, enumerating a directory) return the
//! value to act on; the caller performs the action and reports back, so
//! sequencing reinforcement is applied only after a song has actually
//! started.

use vstd::prelude::*;
use vstd::string::*;

use crate::chain::{Chain, edge_weight, incoming_sources};
use crate::error::{Error, SelectionError};
use crate::policy::{FeedbackEvent, PolicyConfig, apply_event, clamped};
use crate::select::{
    random_draw, select_next, spec_candidates, total_score, weights_of,
};
use crate::session::{SessionState, State, spec_tired};

verus! {

/// What the handle believes about the external player.  The caller keeps
/// it in step with the real backend.
#[derive(Clone, Copy, Debug, PartialEq, Eq, Structural)]
pub struct PlayerModel {
    /// Whether playback is paused.
    pub paused: bool,
    /// Whether output is muted.
    pub muted: bool,
    /// Volume, in `[0, 100]`.
    pub volume: i32,
    /// Position in the current song, in percent `[0, 100]`.
    pub percent: i32,
}

/// One entry of the directory listing under the cursor.
#[derive(Clone, Debug)]
pub struct DirEntry {
    /// File or directory name, without its path.
    pub name: String,
    /// Whether the entry is a directory.
    pub is_dir: bool,
}

/// The browsing cursor: a directory, its entries, and a selection.
#[derive(Debug)]
pub struct Cursor {
    /// The directory being browsed.
    pub path: String,
    /// Its entries, as the caller enumerated them.
    pub entries: Vec<DirEntry>,
    /// The selected entry.
    pub index: usize,
}

impl Cursor {
    /// The selection stays inside the listing.
    pub open spec fn wf(&self) -> bool {
        if self.entries@.len() == 0 {
            self.index == 0
        } else {
            self.index < self.entries@.len()
        }
    }
}

/// Metadata of a song, derived from its identifier.
#[derive(Debug)]
pub struct Tags {
    /// The song's title: its file name without the directory part.
    pub title: String,
}

/// The index of the last `/` in `s`, or a negative value when `s` has
/// none.
pub open spec fn last_slash(s: Seq<char>) -> int
    decreases s.len(),
{
    if s.len() == 0 {
        -1
    } else if s.last() == '/' {
        s.len() - 1
    } else {
        last_slash(s.drop_last())
    }
}

/// A name under a directory: the directory, a separator, the name; the
/// bare name under the empty directory.
pub open spec fn joined(dir: Seq<char>, name: Seq<char>) -> Seq<char> {
    if dir.len() == 0 {
        name
    } else {
        dir + seq!['/'] + name
    }
}

/// The position right after the last `/`, or the start when there is
/// none.
pub open spec fn basename_start(s: Seq<char>) -> int {
    last_slash(s) + 1
}

/// Finds the last `/` in `s`.
#[verifier::loop_isolation(false)]
fn find_last_slash(s: &str) -> (r: Option<usize>)
    ensures
        match r {
            Some(i) => i as int == last_slash(s@) && i < s@.len(),
            None => last_slash(s@) == -1,
        },
{
    let n = s.unicode_len();
    let mut i: usize = n;
    proof {
        assert(s@.take(n as int) =~= s@);
    }
    while i > 0
        invariant
            i <= n,
            last_slash(s@) == last_slash(s@.take(i as int)),
        decreases i,
    {
        let c = s.get_char(i - 1);
        proof {
            assert(s@.take(i as int).last() == s@[i as int - 1]);
            assert(s@.take(i as int).drop_last() =~= s@.take(i as int - 1));
        }
        if c == '/' {
            return Some(i - 1);
        }
        i -= 1;
    }
    proof {
        assert(s@.take(0) =~= Seq::<char>::empty());
    }
    None
}

/// Joins a directory and a name.
fn join_path(dir: &str, name: &str) -> (r: String)
    ensures
        r@ == joined(dir@, name@),
{
    if dir.unicode_len() == 0 {
        name.to_owned()
    } else {
        let mut out = dir.to_owned();
        out.append("/");
        out.append(name);
        proof {
            reveal_strlit("/");
            assert("/"@ =~= seq!['/']);
            assert(out@ =~= dir@ + seq!['/'] + name@);
        }
        out
    }
}

/// The session handle.
#[derive(Debug)]
pub struct Handle {
    /// The learned transition store; sole owner of all edge weights.
    pub chain: Chain,
    /// The weight-update policy in force.
    pub policy: PolicyConfig,
    /// Current and previous song, and tired suppressions.
    pub session: SessionState,
    /// The model of the external player.
    pub player: PlayerModel,
    /// The directory browsing cursor.
    pub cursor: Cursor,
    /// Whether playback is stopped.
    pub stopped: bool,
    /// Every playable song, for the selector's uniform fallback.
    pub library: Vec<String>,
}

impl Handle {
    /// All parts well-formed.
    pub open spec fn wf(&self) -> bool {
        &&& self.chain.wf()
        &&& self.session.wf()
        &&& self.policy.wf()
        &&& 0 <= self.player.volume <= 100
        &&& 0 <= self.player.percent <= 100
        &&& self.cursor.wf()
    }

    /// Everything but the transition store is unchanged.
    pub open spec fn same_but_chain(a: &Handle, b: &Handle) -> bool {
        &&& a.policy == b.policy
        &&& a.session == b.session
        &&& a.player == b.player
        &&& a.cursor == b.cursor
        &&& a.stopped == b.stopped
        &&& a.library == b.library
    }

    /// A fresh handle around a loaded store: default policy, empty
    /// session, stopped player at full volume, empty cursor and library.
    pub fn new(chain: Chain) -> (h: Self)
        requires
            chain.wf(),
        ensures
            h.wf(),
            h.chain == chain,
            h.policy.reinforce_delta == 1 && h.policy.like_delta == 2 && h.policy.dislike_delta
                == 1 && h.policy.tired_cooldown == 10 && h.policy.squash_midpoint == 4,
            h.session.current is None && h.session.previous is None && h.session.tired_view()
                =~= Seq::<(Seq<char>, u32)>::empty(),
            h.player == (PlayerModel { paused: false, muted: false, volume: 100, percent: 0 }),
            h.stopped,
            h.cursor.path@ =~= Seq::<char>::empty(),
            h.cursor.entries@ =~= Seq::<DirEntry>::empty(),
            h.cursor.index == 0,
            h.library@ =~= Seq::<String>::empty(),
    {
        Handle {
            chain,
            policy: Default::default(),
            session: SessionState::new(),
            player: PlayerModel { paused: false, muted: false, volume: 100, percent: 0 },
            cursor: Cursor { path: String::new(), entries: Vec::new(), index: 0 },
            stopped: true,
            library: Vec::new(),
        }
    }

    /// Replaces the library list used for the uniform fallback.
    pub fn set_library(&mut self, songs: Vec<String>)
        ensures
            *final(self) == (Handle { library: final(self).library, ..*old(self) }),
            final(self).library == songs,
    {
        self.library = songs;
    }

    // --- navigation ---

    /// The directory under the cursor.
    pub fn get_current_dir(&self) -> (p: &String)
        ensures
            p@ == self.cursor.path@,
    {
        &self.cursor.path
    }

    /// Moves the cursor to a directory whose entries the caller has
    /// enumerated; the selection rests on the first entry.
    pub fn set_current_dir(&mut self, path: String, entries: Vec<DirEntry>)
        ensures
            *final(self) == (Handle { cursor: final(self).cursor, ..*old(self) }),
            final(self).cursor == (Cursor { path, entries, index: 0 }),
            final(self).cursor.wf(),
    {
        self.cursor = Cursor { path, entries, index: 0 };
    }

    /// Moves the selection one entry up, stopping at the first.
    pub fn cursor_up(&mut self)
        ensures
            *final(self) == (Handle {
                cursor: (Cursor {
                    index: if old(self).cursor.index > 0 {
                        (old(self).cursor.index - 1) as usize
                    } else {
                        0
                    },
                    ..old(self).cursor
                }),
                ..*old(self)
            }),
    {
        if self.cursor.index > 0 {
            self.cursor.index = self.cursor.index - 1;
        }
    }

    /// Moves the selection one entry down, stopping at the last.
    pub fn cursor_down(&mut self)
        ensures
            *final(self) == (Handle {
                cursor: (Cursor {
                    index: if old(self).cursor.index + 1 < old(self).cursor.entries@.len() {
                        (old(self).cursor.index + 1) as usize
                    } else {
                        old(self).cursor.index
                    },
                    ..old(self).cursor
                }),
                ..*old(self)
            }),
    {
        let n = self.cursor.entries.len();
        if n > 0 && self.cursor.index < n - 1 {
            self.cursor.index = self.cursor.index + 1;
        }
    }

    /// The parent directory to browse next, when the cursor is not
    /// already at the root.  The caller enumerates it and calls
    /// `set_current_dir`.
    pub fn cursor_left(&self) -> (r: Option<String>)
        ensures
            match r {
                Some(p) => last_slash(self.cursor.path@) >= 0 && p@ == self.cursor.path@.take(
                    last_slash(self.cursor.path@),
                ),
                None => last_slash(self.cursor.path@) == -1,
            },
    {
        match find_last_slash(self.cursor.path.as_str()) {
            Some(i) => Some(self.cursor.path.as_str().substring_char(0, i).to_owned()),
            None => None,
        }
    }

    /// The selected directory to browse next, when the selection is a
    /// directory.  The caller enumerates it and calls `set_current_dir`.
    pub fn cursor_right(&self) -> (r: Option<String>)
        ensures
            match r {
                Some(p) => self.cursor.entries@.len() > 0 && self.cursor.index
                    < self.cursor.entries@.len() && self.cursor.entries@[self.cursor.index as int].is_dir
                    && p@ == joined(
                    self.cursor.path@,
                    self.cursor.entries@[self.cursor.index as int].name@,
                ),
                None => self.cursor.entries@.len() == 0 || self.cursor.index
                    >= self.cursor.entries@.len() || !self.cursor.entries@[self.cursor.index as int].is_dir,
            },
    {
        if self.cursor.index < self.cursor.entries.len() {
            let e = &self.cursor.entries[self.cursor.index];
            if e.is_dir {
                return Some(join_path(self.cursor.path.as_str(), e.name.as_str()));
            }
        }
        None
    }

    /// The song the cursor selects, when it selects a playable file.
    fn selected_song(&self) -> (r: Option<String>)
        ensures
            match r {
                Some(p) => self.cursor.entries@.len() > 0 && self.cursor.index
                    < self.cursor.entries@.len() && !self.cursor.entries@[self.cursor.index as int].is_dir
                    && p@ == joined(
                    self.cursor.path@,
                    self.cursor.entries@[self.cursor.index as int].name@,
                ),
                None => self.cursor.entries@.len() == 0 || self.cursor.index
                    >= self.cursor.entries@.len() || self.cursor.entries@[self.cursor.index as int].is_dir,
            },
    {
        if self.cursor.index < self.cursor.entries.len() {
            let e = &self.cursor.entries[self.cursor.index];
            if !e.is_dir {
                return Some(join_path(self.cursor.path.as_str(), e.name.as_str()));
            }
        }
        None
    }

    // --- player model ---

    /// Title of the playing song: its file name without the directory.
    pub fn song_tags(&self) -> (r: Result<Tags, Error>)
        ensures
            match r {
                Ok(t) => self.session.current matches Some(c) && t.title@ == c@.skip(
                    basename_start(c@),
                ),
                Err(e) => self.session.current is None && e == Error::NothingPlaying,
            },
    {
        let c = match &self.session.current {
            Some(c) => c,
            None => {
                return Err(Error::NothingPlaying);
            },
        };
        let n = c.as_str().unicode_len();
        let start = match find_last_slash(c.as_str()) {
            Some(i) => i + 1,
            None => 0,
        };
        let title = c.as_str().substring_char(start, n).to_owned();
        proof {
            assert(title@ =~= c@.skip(basename_start(c@)));
        }
        Ok(Tags { title })
    }

    /// The lifecycle state: stopped, else paused, else playing.
    pub fn play_state(&self) -> (s: State)
        ensures
            s == (if self.stopped {
                State::Stopped
            } else if self.player.paused {
                State::Paused
            } else {
                State::Playing
            }),
    {
        if self.stopped {
            State::Stopped
        } else if self.player.paused {
            State::Paused
        } else {
            State::Playing
        }
    }

    /// Position in the current song, in percent.
    pub fn play_percent(&self) -> (p: i32)
        ensures
            p == self.player.percent,
    {
        self.player.percent
    }

    /// Records the position the caller observed on the real player.
    pub fn set_play_percent(&mut self, percent: i32)
        requires
            0 <= percent <= 100,
        ensures
            *final(self) == (Handle {
                player: (PlayerModel { percent, ..old(self).player }),
                ..*old(self)
            }),
    {
        self.player.percent = percent;
    }

    /// Flips the pause flag; the caller applies it to the real player.
    pub fn toggle_pause(&mut self)
        ensures
            *final(self) == (Handle {
                player: (PlayerModel { paused: !old(self).player.paused, ..old(self).player }),
                ..*old(self)
            }),
    {
        self.player.paused = !self.player.paused;
    }

    /// The song to start playing: the cursor's selection.  The handle
    /// itself is unchanged; the caller starts playback and reports back
    /// through `song_started`, so a failed start reinforces nothing.
    pub fn play(&mut self) -> (r: Result<String, Error>)
        ensures
            *final(self) == *old(self),
            match r {
                Ok(p) => old(self).cursor.entries@.len() > 0 && old(self).cursor.index < old(
                    self,
                ).cursor.entries@.len() && !old(self).cursor.entries@[old(
                    self,
                ).cursor.index as int].is_dir && p@ == joined(
                    old(self).cursor.path@,
                    old(self).cursor.entries@[old(self).cursor.index as int].name@,
                ),
                Err(e) => e == Error::NoSongSelected && (old(self).cursor.entries@.len() == 0
                    || old(self).cursor.index >= old(self).cursor.entries@.len() || old(
                    self,
                ).cursor.entries@[old(self).cursor.index as int].is_dir),
            },
    {
        match self.selected_song() {
            Some(p) => Ok(p),
            None => Err(Error::NoSongSelected),
        }
    }

    /// A song has actually started: the previous song becomes the one
    /// that was current, the new song becomes current, every tired
    /// cooldown shrinks by one transition, playback is no longer
    /// stopped, and — when a song was current — its edge to the new song
    /// gains the sequencing reinforcement; every other weight is
    /// untouched.
    pub fn song_started(&mut self, song: &str)
        requires
            old(self).wf(),
        ensures
            final(self).wf(),
            !final(self).stopped,
            final(self).policy == old(self).policy,
            final(self).player == old(self).player,
            final(self).cursor == old(self).cursor,
            final(self).library == old(self).library,
            final(self).session.previous == old(self).session.current,
            final(self).session.current matches Some(c) && c@ == song@,
            final(self).session.tired_view() == crate::session::tick_views(
                old(self).session.tired_view(),
            ),
            final(self).chain.weight_max == old(self).chain.weight_max,
            match old(self).session.current {
                Some(p) => forall|f: Seq<char>, t: Seq<char>|
                    #[trigger] edge_weight(final(self).chain.edges(), f, t) == (if f == p@ && t
                        == song@ {
                        clamped(
                            edge_weight(old(self).chain.edges(), p@, song@) + old(
                                self,
                            ).policy.reinforce_delta,
                            old(self).chain.weight_max,
                        )
                    } else {
                        edge_weight(old(self).chain.edges(), f, t)
                    }),
                None => final(self).chain == old(self).chain,
            },
    {
        let prev: Option<String> = match &self.session.current {
            Some(p) => Some(p.clone()),
            None => None,
        };
        if let Some(p) = &prev {
            let w = self.chain.get_weight(p.as_str(), song);
            let target = apply_event(FeedbackEvent::Sequence, w, &self.policy);
            self.chain.set_weight(p.as_str(), song, target);
        }
        self.session.tick_tired();
        self.session.previous = prev;
        self.session.current = Some(song.to_owned());
        self.stopped = false;
    }

    /// Marks playback stopped; the caller stops the real player.
    pub fn stop(&mut self) -> (r: Result<(), Error>)
        ensures
            *final(self) == (Handle { stopped: true, ..*old(self) }),
            r is Ok,
    {
        self.stopped = true;
        Ok(())
    }

    /// Whether output is muted.
    pub fn is_muted(&self) -> (r: bool)
        ensures
            r == self.player.muted,
    {
        self.player.muted
    }

    /// Flips the mute flag; the caller applies it to the real player.
    pub fn toggle_mute(&mut self)
        ensures
            *final(self) == (Handle {
                player: (PlayerModel { muted: !old(self).player.muted, ..old(self).player }),
                ..*old(self)
            }),
    {
        self.player.muted = !self.player.muted;
    }

    /// Volume, in `[0, 100]`.
    pub fn get_volume(&self) -> (v: i32)
        ensures
            v == self.player.volume,
    {
        self.player.volume
    }

    /// Changes the volume by `offset`, clamped into `[0, 100]`.
    pub fn change_volume(&mut self, offset: i32)
        ensures
            *final(self) == (Handle {
                player: (PlayerModel {
                    volume: clamp_volume(old(self).player.volume + offset),
                    ..old(self).player
                }),
                ..*old(self)
            }),
    {
        let v: i64 = self.player.volume as i64 + offset as i64;
        let v: i64 = if v > 100 {
            100
        } else {
            v
        };
        let v: i64 = if v < 0 {
            0
        } else {
            v
        };
        self.player.volume = v as i32;
    }

    /// Seeks to the start of the song; the caller seeks the real player.
    pub fn seek_begin(&mut self) -> (r: Result<(), Error>)
        ensures
            *final(self) == (Handle {
                player: (PlayerModel { percent: 0, ..old(self).player }),
                ..*old(self)
            }),
            r is Ok,
    {
        self.player.percent = 0;
        Ok(())
    }

    /// Seeks to the end of the song; the caller seeks the real player.
    pub fn seek_end(&mut self) -> (r: Result<(), Error>)
        ensures
            *final(self) == (Handle {
                player: (PlayerModel { percent: 100, ..old(self).player }),
                ..*old(self)
            }),
            r is Ok,
    {
        self.player.percent = 100;
        Ok(())
    }

    // --- chain-driven selection and feedback ---

    /// Queues the cursor's selection as a manual association: the edge
    /// from the previous song to the chosen song gains the sequencing
    /// reinforcement, exactly as if the chain had chosen it; every other
    /// weight is untouched.  Returns the chosen song for the caller to
    /// queue.
    pub fn add(&mut self) -> (r: Result<String, Error>)
        requires
            old(self).wf(),
        ensures
            final(self).wf(),
            Self::same_but_chain(final(self), old(self)),
            final(self).chain.weight_max == old(self).chain.weight_max,
            match r {
                Ok(p) => old(self).cursor.entries@.len() > 0 && old(self).cursor.index < old(
                    self,
                ).cursor.entries@.len() && !old(self).cursor.entries@[old(
                    self,
                ).cursor.index as int].is_dir && p@ == joined(
                    old(self).cursor.path@,
                    old(self).cursor.entries@[old(self).cursor.index as int].name@,
                ) && (match old(self).session.previous {
                    Some(prev) => forall|f: Seq<char>, t: Seq<char>|
                        #[trigger] edge_weight(final(self).chain.edges(), f, t) == (if f == prev@
                            && t == p@ {
                            clamped(
                                edge_weight(old(self).chain.edges(), prev@, p@) + old(
                                    self,
                                ).policy.reinforce_delta,
                                old(self).chain.weight_max,
                            )
                        } else {
                            edge_weight(old(self).chain.edges(), f, t)
                        }),
                    None => final(self).chain == old(self).chain,
                }),
                Err(e) => e == Error::NoSongSelected && *final(self) == *old(self),
            },
    {
        let chosen = match self.selected_song() {
            Some(p) => p,
            None => {
                return Err(Error::NoSongSelected);
            },
        };
        let prev: Option<String> = match &self.session.previous {
            Some(p) => Some(p.clone()),
            None => None,
        };
        if let Some(p) = &prev {
            let w = self.chain.get_weight(p.as_str(), chosen.as_str());
            let target = apply_event(FeedbackEvent::Sequence, w, &self.policy);
            self.chain.set_weight(p.as_str(), chosen.as_str(), target);
        }
        Ok(chosen)
    }

    /// Picks a song uniformly at random from the whole library, ignoring
    /// the chain; an error exactly when the library is empty.
    pub fn shuffle(&mut self) -> (r: Result<String, Error>)
        ensures
            *final(self) == *old(self),
            (r is Err) <==> old(self).library@.len() == 0,
            r matches Err(e) ==> e == Error::EmptyLibrary,
            r matches Ok(p) ==> exists|k: int|
                0 <= k < old(self).library@.len() && (#[trigger] old(self).library@[k])@ == p@,
    {
        if self.library.len() == 0 {
            return Err(Error::EmptyLibrary);
        }
        let draw = random_draw();
        proof {
            vstd::arithmetic::div_mod::lemma_mod_bound(draw as int, self.library@.len() as int);
        }
        let k = (draw % self.library.len() as u64) as usize;
        Ok(self.library[k].clone())
    }

    /// Chooses the next song by the weighted random walk: among the
    /// current song's eligible outgoing edges when any has a positive
    /// squashed score, else uniformly from the library; when nothing is
    /// playing, straight from the library.  An error exactly when even
    /// the library is empty.  The handle itself is unchanged: the caller
    /// plays the song and reports back through `song_started`.
    pub fn next(&mut self) -> (r: Result<String, Error>)
        requires
            old(self).wf(),
        ensures
            *final(self) == *old(self),
            match old(self).session.current {
                Some(c) => {
                    let cands = spec_candidates(&old(self).chain, c@, &old(self).session);
                    let t = total_score(weights_of(cands), old(self).policy.squash_midpoint);
                    &&& t > 0 ==> (r matches Ok(p) && (exists|k: int|
                        0 <= k < cands.len() && (#[trigger] cands[k]).0 == p@ && cands[k].1 > 0))
                    &&& t <= 0 && old(self).library@.len() > 0 ==> (r matches Ok(p) && (exists|
                        k: int,
                    |
                        0 <= k < old(self).library@.len() && (#[trigger] old(self).library@[k])@
                            == p@))
                    &&& (r is Err) <==> (t <= 0 && old(self).library@.len() == 0)
                },
                None => {
                    &&& (r is Err) <==> old(self).library@.len() == 0
                    &&& r matches Ok(p) ==> exists|k: int|
                        0 <= k < old(self).library@.len() && (#[trigger] old(self).library@[k])@
                            == p@
                },
            },
            r matches Err(e) ==> e == Error::EmptyLibrary,
    {
        let cur: Option<String> = match &self.session.current {
            Some(c) => Some(c.clone()),
            None => None,
        };
        match &cur {
            Some(c) => {
                let picked = select_next(
                    &self.chain,
                    c.as_str(),
                    &self.session,
                    &self.library,
                    self.policy.squash_midpoint,
                );
                match picked {
                    Ok(p) => Ok(p),
                    Err(SelectionError::EmptyLibrary) => Err(Error::EmptyLibrary),
                }
            },
            None => {
                if self.library.len() == 0 {
                    return Err(Error::EmptyLibrary);
                }
                let draw = random_draw();
                proof {
                    vstd::arithmetic::div_mod::lemma_mod_bound(
                        draw as int,
                        self.library@.len() as int,
                    );
                }
                let k = (draw % self.library.len() as u64) as usize;
                Ok(self.library[k].clone())
            },
        }
    }

    /// The song that played before the current one.
    pub fn prev(&mut self) -> (r: Result<String, Error>)
        ensures
            *final(self) == *old(self),
            match r {
                Ok(p) => old(self).session.previous matches Some(q) && q@ == p@,
                Err(e) => old(self).session.previous is None && e == Error::NoPreviousSong,
            },
    {
        match &self.session.previous {
            Some(p) => Ok(p.clone()),
            None => Err(Error::NoPreviousSong),
        }
    }

    /// The current song again.
    pub fn repeat(&mut self) -> (r: Result<String, Error>)
        ensures
            *final(self) == *old(self),
            match r {
                Ok(p) => old(self).session.current matches Some(q) && q@ == p@,
                Err(e) => old(self).session.current is None && e == Error::NothingPlaying,
            },
    {
        match &self.session.current {
            Some(p) => Ok(p.clone()),
            None => Err(Error::NothingPlaying),
        }
    }

    /// Walks the chain backwards: picks, uniformly, one of the songs
    /// with a positive-weight edge into the current song; uniformly from
    /// the library when there is none; an error exactly when nothing is
    /// playing or even the library is empty.
    pub fn loop_back(&mut self) -> (r: Result<String, Error>)
        ensures
            *final(self) == *old(self),
            match old(self).session.current {
                Some(c) => {
                    let sources = incoming_sources(old(self).chain.edges(), c@);
                    &&& sources.len() > 0 ==> (r matches Ok(p) && (exists|k: int|
                        0 <= k < sources.len() && #[trigger] sources[k] == p@))
                    &&& sources.len() == 0 && old(self).library@.len() > 0 ==> (r matches Ok(p)
                        && (exists|k: int|
                        0 <= k < old(self).library@.len() && (#[trigger] old(self).library@[k])@
                            == p@))
                    &&& (r is Err) <==> (sources.len() == 0 && old(self).library@.len() == 0)
                    &&& r matches Err(e) ==> e == Error::EmptyLibrary
                },
                None => r == Err::<String, Error>(Error::NothingPlaying),
            },
    {
        let cur: Option<String> = match &self.session.current {
            Some(c) => Some(c.clone()),
            None => None,
        };
        let c = match &cur {
            Some(c) => c,
            None => {
                return Err(Error::NothingPlaying);
            },
        };
        let sources = self.chain.incoming(c.as_str());
        if sources.len() > 0 {
            let draw = random_draw();
            proof {
                vstd::arithmetic::div_mod::lemma_mod_bound(draw as int, sources@.len() as int);
            }
            let k = (draw % sources.len() as u64) as usize;
            proof {
                assert(incoming_sources(old(self).chain.edges(), c@)[k as int] == sources@[
                k as int]@);
            }
            Ok(sources[k].clone())
        } else if self.library.len() > 0 {
            let draw = random_draw();
            proof {
                vstd::arithmetic::div_mod::lemma_mod_bound(
                    draw as int,
                    self.library@.len() as int,
                );
            }
            let k = (draw % self.library.len() as u64) as usize;
            Ok(self.library[k].clone())
        } else {
            proof {
                assert(incoming_sources(old(self).chain.edges(), c@).len() == 0);
            }
            Err(Error::EmptyLibrary)
        }
    }

    /// Picks uniformly among the current song's eligible outgoing edges,
    /// ignoring their weights; uniformly from the library when there is
    /// none or nothing is playing; an error exactly when even the
    /// library is empty.
    pub fn random(&mut self) -> (r: Result<String, Error>)
        requires
            old(self).wf(),
        ensures
            *final(self) == *old(self),
            match old(self).session.current {
                Some(c) => {
                    let cands = spec_candidates(&old(self).chain, c@, &old(self).session);
                    &&& cands.len() > 0 ==> (r matches Ok(p) && (exists|k: int|
                        0 <= k < cands.len() && (#[trigger] cands[k]).0 == p@))
                    &&& cands.len() == 0 && old(self).library@.len() > 0 ==> (r matches Ok(p)
                        && (exists|k: int|
                        0 <= k < old(self).library@.len() && (#[trigger] old(self).library@[k])@
                            == p@))
                    &&& (r is Err) <==> (cands.len() == 0 && old(self).library@.len() == 0)
                },
                None => {
                    &&& (r is Err) <==> old(self).library@.len() == 0
                    &&& r matches Ok(p) ==> exists|k: int|
                        0 <= k < old(self).library@.len() && (#[trigger] old(self).library@[k])@
                            == p@
                },
            },
            r matches Err(e) ==> e == Error::EmptyLibrary,
    {
        let cur: Option<String> = match &self.session.current {
            Some(c) => Some(c.clone()),
            None => None,
        };
        match &cur {
            Some(c) => {
                let cands = crate::select::candidates(&self.chain, c.as_str(), &self.session);
                if cands.len() > 0 {
                    let draw = random_draw();
                    proof {
                        vstd::arithmetic::div_mod::lemma_mod_bound(
                            draw as int,
                            cands@.len() as int,
                        );
                    }
                    let k = (draw % cands.len() as u64) as usize;
                    proof {
                        assert(spec_candidates(&old(self).chain, c@, &old(self).session)[
                        k as int].0 == cands@[k as int].0@);
                    }
                    Ok(cands[k].0.clone())
                } else if self.library.len() > 0 {
                    let draw = random_draw();
                    proof {
                        vstd::arithmetic::div_mod::lemma_mod_bound(
                            draw as int,
                            self.library@.len() as int,
                        );
                    }
                    let k = (draw % self.library.len() as u64) as usize;
                    Ok(self.library[k].clone())
                } else {
                    proof {
                        assert(spec_candidates(&old(self).chain, c@, &old(self).session).len()
                            == 0);
                    }
                    Err(Error::EmptyLibrary)
                }
            },
            None => {
                if self.library.len() == 0 {
                    return Err(Error::EmptyLibrary);
                }
                let draw = random_draw();
                proof {
                    vstd::arithmetic::div_mod::lemma_mod_bound(
                        draw as int,
                        self.library@.len() as int,
                    );
                }
                let k = (draw % self.library.len() as u64) as usize;
                Ok(self.library[k].clone())
            },
        }
    }

    /// An explicit like: the playing song's incoming edge — from the
    /// previous song to the current one — gains the like delta; every
    /// other weight is untouched, and nothing changes when no such pair
    /// is playing.
    pub fn like(&mut self)
        requires
            old(self).wf(),
        ensures
            final(self).wf(),
            Self::same_but_chain(final(self), old(self)),
            final(self).chain.weight_max == old(self).chain.weight_max,
            match (old(self).session.previous, old(self).session.current) {
                (Some(p), Some(c)) => forall|f: Seq<char>, t: Seq<char>|
                    #[trigger] edge_weight(final(self).chain.edges(), f, t) == (if f == p@ && t
                        == c@ {
                        clamped(
                            edge_weight(old(self).chain.edges(), p@, c@) + old(
                                self,
                            ).policy.like_delta,
                            old(self).chain.weight_max,
                        )
                    } else {
                        edge_weight(old(self).chain.edges(), f, t)
                    }),
                _ => final(self).chain == old(self).chain,
            },
    {
        let pair: Option<(String, String)> = match (&self.session.previous, &self.session.current) {
            (Some(p), Some(c)) => Some((p.clone(), c.clone())),
            _ => None,
        };
        if let Some((p, c)) = &pair {
            let w = self.chain.get_weight(p.as_str(), c.as_str());
            let target = apply_event(FeedbackEvent::Like, w, &self.policy);
            self.chain.set_weight(p.as_str(), c.as_str(), target);
        }
    }

    /// An explicit dislike: the playing song's incoming edge loses the
    /// dislike delta, floored at zero; every other weight is untouched,
    /// and nothing changes when no such pair is playing.
    pub fn dislike(&mut self)
        requires
            old(self).wf(),
        ensures
            final(self).wf(),
            Self::same_but_chain(final(self), old(self)),
            final(self).chain.weight_max == old(self).chain.weight_max,
            match (old(self).session.previous, old(self).session.current) {
                (Some(p), Some(c)) => forall|f: Seq<char>, t: Seq<char>|
                    #[trigger] edge_weight(final(self).chain.edges(), f, t) == (if f == p@ && t
                        == c@ {
                        clamped(
                            edge_weight(old(self).chain.edges(), p@, c@) - old(
                                self,
                            ).policy.dislike_delta,
                            old(self).chain.weight_max,
                        )
                    } else {
                        edge_weight(old(self).chain.edges(), f, t)
                    }),
                _ => final(self).chain == old(self).chain,
            },
    {
        let pair: Option<(String, String)> = match (&self.session.previous, &self.session.current) {
            (Some(p), Some(c)) => Some((p.clone(), c.clone())),
            _ => None,
        };
        if let Some((p, c)) = &pair {
            let w = self.chain.get_weight(p.as_str(), c.as_str());
            let target = apply_event(FeedbackEvent::Dislike, w, &self.policy);
            self.chain.set_weight(p.as_str(), c.as_str(), target);
        }
    }

    /// Marks the current song tired for the configured cooldown.  The
    /// suppression is temporary and non-destructive: the transition
    /// store — and so the persisted file — is untouched.
    pub fn tired(&mut self)
        requires
            old(self).wf(),
        ensures
            final(self).wf(),
            final(self).chain == old(self).chain,
            final(self).policy == old(self).policy,
            final(self).player == old(self).player,
            final(self).cursor == old(self).cursor,
            final(self).stopped == old(self).stopped,
            final(self).library == old(self).library,
            final(self).session.current == old(self).session.current,
            final(self).session.previous == old(self).session.previous,
            match old(self).session.current {
                Some(c) => spec_tired(final(self).session.tired_view(), c@) == (old(
                    self,
                ).policy.tired_cooldown > 0),
                None => final(self).session == old(self).session,
            },
    {
        let cur: Option<String> = match &self.session.current {
            Some(c) => Some(c.clone()),
            None => None,
        };
        if let Some(c) = &cur {
            let cooldown = self.policy.tired_cooldown;
            self.session.mark_tired(c.as_str(), cooldown);
        }
    }
}

/// The volume stored after asking for `v`: clamped into `[0, 100]`.
pub open spec fn clamp_volume(v: int) -> i32 {
    if v < 0 {
        0
    } else if v > 100 {
        100
    } else {
        v as i32
    }
}

} // verus!
