use markov_music::chain::Chain;
use markov_music::error::{Error, SelectionError};
use markov_music::handle::Handle;
use markov_music::select::{candidates, pick_weighted, select_next, select_next_with, squash_score};
use markov_music::session::SessionState;

fn lib(names: &[&str]) -> Vec<String> {
    names.iter().map(|s| s.to_string()).collect()
}

#[test]
fn squash_is_zero_exactly_for_weight_zero() {
    assert_eq!(squash_score(0, 4), 0);
    assert!(squash_score(1, 4) >= 1);
    assert!(squash_score(u32::MAX, 1) <= 1000);
    // ceil(1 * 1000 / (1 + 4)) = 200
    assert_eq!(squash_score(1, 4), 200);
}

#[test]
fn zero_weight_edge_is_never_selected() {
    let mut c = Chain::new(1000);
    c.set_weight("a", "b", 0);
    c.set_weight("a", "c", 5);
    c.set_weight("a", "d", 3);
    let s = SessionState::new();
    let library = lib(&[]);
    for _ in 0..10000 {
        let song = select_next(&c, "a", &s, &library, 4).unwrap();
        assert_ne!(song, "b");
        assert!(song == "c" || song == "d");
    }
}

#[test]
fn sink_falls_back_to_the_library() {
    let mut c = Chain::new(1000);
    c.set_weight("a", "b", 5);
    let s = SessionState::new();
    let library = lib(&["u", "v", "w"]);
    for _ in 0..1000 {
        let song = select_next(&c, "x", &s, &library, 4).unwrap();
        assert!(library.contains(&song));
    }
}

#[test]
fn empty_library_and_no_candidates_is_an_error() {
    let c = Chain::new(1000);
    let s = SessionState::new();
    let library = lib(&[]);
    assert_eq!(
        select_next(&c, "x", &s, &library, 4),
        Err(SelectionError::EmptyLibrary)
    );
}

#[test]
fn selection_is_deterministic_for_a_fixed_draw() {
    let mut c = Chain::new(1000);
    c.set_weight("a", "b", 1);
    c.set_weight("a", "c", 1);
    let s = SessionState::new();
    let library = lib(&[]);
    // Each edge squashes to 200; the cumulative axis is [0,200) -> b,
    // [200,400) -> c, and draws wrap around modulo 400.
    assert_eq!(select_next_with(&c, "a", &s, &library, 4, 0).unwrap(), "b");
    assert_eq!(select_next_with(&c, "a", &s, &library, 4, 199).unwrap(), "b");
    assert_eq!(select_next_with(&c, "a", &s, &library, 4, 200).unwrap(), "c");
    assert_eq!(select_next_with(&c, "a", &s, &library, 4, 399).unwrap(), "c");
    assert_eq!(select_next_with(&c, "a", &s, &library, 4, 400).unwrap(), "b");
}

#[test]
fn pick_weighted_reports_no_candidate_without_score() {
    let mut c = Chain::new(1000);
    c.set_weight("a", "b", 0);
    let s = SessionState::new();
    let cands = candidates(&c, "a", &s);
    assert_eq!(cands.len(), 1);
    assert_eq!(pick_weighted(&cands, 4, 7), None);
}

#[test]
fn tired_songs_are_excluded_until_the_cooldown_lapses() {
    let mut c = Chain::new(1000);
    c.set_weight("a", "b", 5);
    c.set_weight("a", "c", 5);
    let mut s = SessionState::new();
    s.mark_tired("b", 2);
    let cands = candidates(&c, "a", &s);
    assert_eq!(cands.len(), 1);
    assert_eq!(cands[0].0, "c");
    let library = lib(&[]);
    for _ in 0..200 {
        assert_eq!(select_next(&c, "a", &s, &library, 4).unwrap(), "c");
    }
    s.tick_tired();
    s.tick_tired();
    let cands = candidates(&c, "a", &s);
    assert_eq!(cands.len(), 2);
}

#[test]
fn all_candidates_tired_falls_back_to_the_library() {
    let mut c = Chain::new(1000);
    c.set_weight("a", "b", 5);
    let mut s = SessionState::new();
    s.mark_tired("b", 3);
    let library = lib(&["u"]);
    assert_eq!(select_next(&c, "a", &s, &library, 4).unwrap(), "u");
}

#[test]
fn handle_next_walks_the_chain() {
    let mut h = Handle::new(Chain::new(1000));
    assert_eq!(h.next(), Err(Error::EmptyLibrary));
    h.set_library(lib(&["s", "t"]));
    // Nothing playing: uniform over the library.
    let first = h.next().unwrap();
    assert!(first == "s" || first == "t");
    h.song_started("s");
    h.chain.set_weight("s", "t", 9);
    for _ in 0..100 {
        assert_eq!(h.next().unwrap(), "t");
    }
}

#[test]
fn handle_shuffle_and_random_use_the_library() {
    let mut h = Handle::new(Chain::new(1000));
    assert_eq!(h.shuffle(), Err(Error::EmptyLibrary));
    assert_eq!(h.random(), Err(Error::EmptyLibrary));
    h.set_library(lib(&["u", "v"]));
    for _ in 0..50 {
        let s = h.shuffle().unwrap();
        assert!(s == "u" || s == "v");
        let r = h.random().unwrap();
        assert!(r == "u" || r == "v");
    }
    h.song_started("u");
    h.chain.set_weight("u", "v", 1);
    // With an eligible candidate, random picks among candidates.
    for _ in 0..50 {
        assert_eq!(h.random().unwrap(), "v");
    }
}

#[test]
fn handle_loop_back_walks_edges_backwards() {
    let mut h = Handle::new(Chain::new(1000));
    assert_eq!(h.loop_back(), Err(Error::NothingPlaying));
    h.song_started("b");
    assert_eq!(h.loop_back(), Err(Error::EmptyLibrary));
    h.chain.set_weight("a", "b", 3);
    h.chain.set_weight("z", "b", 0);
    for _ in 0..50 {
        assert_eq!(h.loop_back().unwrap(), "a");
    }
    let mut h2 = Handle::new(Chain::new(1000));
    h2.set_library(lib(&["f"]));
    h2.song_started("solo");
    assert_eq!(h2.loop_back().unwrap(), "f");
}
