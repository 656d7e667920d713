use markov_music::chain::Chain;
use markov_music::error::Error;
use markov_music::handle::{Cursor, DirEntry, Handle};
use markov_music::session::State;

fn entry(name: &str, is_dir: bool) -> DirEntry {
    DirEntry { name: name.to_string(), is_dir }
}

#[test]
fn observed_sequence_reinforces_each_transition() {
    // Plays A, B, C, B with the default reinforcement of one unit, then
    // a like (two units) on the playing pair C -> B.
    let mut h = Handle::new(Chain::new(1000000));
    h.song_started("A");
    h.song_started("B");
    h.song_started("C");
    h.song_started("B");
    assert_eq!(h.chain.get_weight("A", "B"), 1);
    assert_eq!(h.chain.get_weight("B", "C"), 1);
    assert_eq!(h.chain.get_weight("C", "B"), 1);
    h.like();
    assert_eq!(h.chain.get_weight("C", "B"), 3);
    assert_eq!(h.chain.get_weight("A", "B"), 1);
    assert_eq!(h.chain.get_weight("B", "C"), 1);
}

#[test]
fn likes_never_lower_weight_and_respect_ceiling() {
    let mut h = Handle::new(Chain::new(5));
    h.song_started("a");
    h.song_started("b");
    let mut last = h.chain.get_weight("a", "b");
    for _ in 0..10 {
        h.like();
        let w = h.chain.get_weight("a", "b");
        assert!(w >= last);
        assert!(w <= 5);
        last = w;
    }
    assert_eq!(last, 5);
}

#[test]
fn dislike_floors_at_zero() {
    let mut h = Handle::new(Chain::new(100));
    h.song_started("a");
    h.song_started("b");
    assert_eq!(h.chain.get_weight("a", "b"), 1);
    h.dislike();
    assert_eq!(h.chain.get_weight("a", "b"), 0);
    h.dislike();
    assert_eq!(h.chain.get_weight("a", "b"), 0);
}

#[test]
fn tired_is_temporary_and_changes_no_persisted_byte() {
    let mut h = Handle::new(Chain::new(100));
    h.song_started("a");
    h.song_started("b");
    let persisted_before = h.chain.encode();
    h.tired();
    assert!(h.session.is_tired("b"));
    assert!(!h.session.is_tired("a"));
    // The cooldown lapses after the configured number of transitions.
    for _ in 0..10 {
        assert_eq!(h.chain.encode(), persisted_before);
        h.session.tick_tired();
    }
    assert!(!h.session.is_tired("b"));
    assert_eq!(h.chain.encode(), persisted_before);
}

#[test]
fn song_started_tracks_previous_and_current() {
    let mut h = Handle::new(Chain::new(100));
    assert_eq!(h.play_state(), State::Stopped);
    h.song_started("x");
    assert_eq!(h.session.current.as_deref(), Some("x"));
    assert_eq!(h.session.previous, None);
    h.song_started("y");
    assert_eq!(h.session.current.as_deref(), Some("y"));
    assert_eq!(h.session.previous.as_deref(), Some("x"));
    assert_eq!(h.play_state(), State::Playing);
}

#[test]
fn play_state_reflects_flags() {
    let mut h = Handle::new(Chain::new(100));
    assert_eq!(h.play_state(), State::Stopped);
    h.song_started("x");
    h.toggle_pause();
    assert_eq!(h.play_state(), State::Paused);
    h.toggle_pause();
    assert_eq!(h.play_state(), State::Playing);
    h.stop().unwrap();
    assert_eq!(h.play_state(), State::Stopped);
}

#[test]
fn volume_is_clamped() {
    let mut h = Handle::new(Chain::new(100));
    assert_eq!(h.get_volume(), 100);
    h.change_volume(-30);
    assert_eq!(h.get_volume(), 70);
    h.change_volume(500);
    assert_eq!(h.get_volume(), 100);
    h.change_volume(-500);
    assert_eq!(h.get_volume(), 0);
    h.change_volume(i32::MIN);
    assert_eq!(h.get_volume(), 0);
}

#[test]
fn mute_and_seek_model() {
    let mut h = Handle::new(Chain::new(100));
    assert!(!h.is_muted());
    h.toggle_mute();
    assert!(h.is_muted());
    h.seek_end().unwrap();
    assert_eq!(h.play_percent(), 100);
    h.seek_begin().unwrap();
    assert_eq!(h.play_percent(), 0);
    h.set_play_percent(42);
    assert_eq!(h.play_percent(), 42);
}

#[test]
fn cursor_moves_and_stays_in_bounds() {
    let mut h = Handle::new(Chain::new(100));
    h.set_current_dir(
        "music".to_string(),
        vec![entry("rock", true), entry("a.mp3", false), entry("b.mp3", false)],
    );
    assert_eq!(h.get_current_dir(), "music");
    assert_eq!(h.cursor.index, 0);
    h.cursor_up();
    assert_eq!(h.cursor.index, 0);
    h.cursor_down();
    h.cursor_down();
    assert_eq!(h.cursor.index, 2);
    h.cursor_down();
    assert_eq!(h.cursor.index, 2);
}

#[test]
fn cursor_left_names_the_parent() {
    let mut h = Handle::new(Chain::new(100));
    h.set_current_dir("music/rock/live".to_string(), vec![]);
    assert_eq!(h.cursor_left().as_deref(), Some("music/rock"));
    h.set_current_dir("music".to_string(), vec![]);
    assert_eq!(h.cursor_left(), None);
}

#[test]
fn cursor_right_names_the_selected_directory() {
    let mut h = Handle::new(Chain::new(100));
    h.set_current_dir("music".to_string(), vec![entry("rock", true), entry("a.mp3", false)]);
    assert_eq!(h.cursor_right().as_deref(), Some("music/rock"));
    h.cursor_down();
    assert_eq!(h.cursor_right(), None);
}

#[test]
fn play_returns_the_selected_song_only() {
    let mut h = Handle::new(Chain::new(100));
    assert_eq!(h.play(), Err(Error::NoSongSelected));
    h.set_current_dir("music".to_string(), vec![entry("rock", true), entry("a.mp3", false)]);
    assert_eq!(h.play(), Err(Error::NoSongSelected));
    h.cursor_down();
    assert_eq!(h.play().unwrap(), "music/a.mp3");
}

#[test]
fn add_reinforces_edge_from_previous_to_chosen() {
    let mut h = Handle::new(Chain::new(100));
    h.song_started("p");
    h.song_started("c");
    h.set_current_dir("m".to_string(), vec![entry("x.mp3", false)]);
    let chosen = h.add().unwrap();
    assert_eq!(chosen, "m/x.mp3");
    assert_eq!(h.chain.get_weight("p", "m/x.mp3"), 1);
    assert_eq!(h.chain.get_weight("c", "m/x.mp3"), 0);
}

#[test]
fn prev_and_repeat_report_session_songs() {
    let mut h = Handle::new(Chain::new(100));
    assert_eq!(h.repeat(), Err(Error::NothingPlaying));
    assert_eq!(h.prev(), Err(Error::NoPreviousSong));
    h.song_started("one");
    assert_eq!(h.repeat().unwrap(), "one");
    assert_eq!(h.prev(), Err(Error::NoPreviousSong));
    h.song_started("two");
    assert_eq!(h.repeat().unwrap(), "two");
    assert_eq!(h.prev().unwrap(), "one");
}

#[test]
fn song_tags_take_the_file_name() {
    let mut h = Handle::new(Chain::new(100));
    assert!(matches!(h.song_tags(), Err(Error::NothingPlaying)));
    h.song_started("music/rock/song.mp3");
    assert_eq!(h.song_tags().unwrap().title, "song.mp3");
    h.song_started("bare");
    assert_eq!(h.song_tags().unwrap().title, "bare");
}

#[test]
fn cursor_state_survives_unrelated_commands() {
    let mut h = Handle::new(Chain::new(100));
    h.set_current_dir("music".to_string(), vec![entry("a.mp3", false)]);
    h.toggle_pause();
    h.change_volume(-10);
    h.song_started("music/a.mp3");
    assert_eq!(h.get_current_dir(), "music");
    assert_eq!(h.cursor.index, 0);
}

#[test]
fn defaults_of_configuration() {
    let c = markov_music::config::Config::default();
    assert_eq!(c.daemon.storage_file, ".mpd/x-markov-music.db");
    assert_eq!(c.daemon.socket, ".mpd/x-markov-music.sock");
    assert_eq!(c.mpd.host, "localhost");
    assert_eq!(c.mpd.port, 6600);
    assert_eq!(c.mpd.password, None);
    let m = markov_music::markov::Handle::new(Chain::new(9), c);
    assert_eq!(m.chain.weight_max, 9);
    assert_eq!(m.config.mpd.port, 6600);
}
