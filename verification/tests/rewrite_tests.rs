use beets_edit::config::{Config, Rewrite};
use beets_edit::models::{Album, Track};
use beets_edit::rewrite::{
    join_multi, process_albums, process_tracks, rewrite_album, rewrite_track,
};

fn rule(exprs: &[&str], single: Option<&str>, multi: Option<&[&str]>) -> Rewrite {
    Rewrite {
        expressions: exprs.iter().map(|e| e.to_string()).collect(),
        single: single.map(|s| s.to_string()),
        multi: multi.map(|m| m.iter().map(|s| s.to_string()).collect()),
    }
}

fn no_rules() -> Config {
    Config { artist_rewrites: Vec::new(), albumartist_rewrites: Vec::new() }
}

fn track(artist: &str, albumartist: &str) -> Track {
    Track {
        album: "An Album".to_string(),
        albumartist: albumartist.to_string(),
        albumartists: String::new(),
        artist: artist.to_string(),
        artists: String::new(),
        id: 17,
        title: "A Title".to_string(),
        track: 3,
    }
}

#[test]
fn single_rewrite_overwrites_artist() {
    let mut cfg = no_rules();
    cfg.artist_rewrites.push(rule(&["Various Artists"], Some("VA"), None));
    let mut t = track("Various Artists", "Someone");
    rewrite_track(&cfg, &mut t).unwrap();
    assert_eq!(t.artist, "VA");
    assert_eq!(t.artists, "");
}

#[test]
fn multi_rewrite_overwrites_plural_field() {
    let mut cfg = no_rules();
    cfg.artist_rewrites.push(rule(&["^DJ .*"], None, Some(&["DJ One", "DJ Two"])));
    let mut t = track("DJ Mixmaster", "Someone");
    rewrite_track(&cfg, &mut t).unwrap();
    assert_eq!(t.artist, "DJ Mixmaster");
    assert_eq!(t.artists, "DJ One\\\u{2400}DJ Two");
}

#[test]
fn multi_rewrite_with_single_element_list() {
    let mut cfg = no_rules();
    cfg.artist_rewrites.push(rule(&["^DJ .*"], None, Some(&["Solo"])));
    let mut t = track("DJ Mixmaster", "Someone");
    rewrite_track(&cfg, &mut t).unwrap();
    assert_eq!(t.artists, "Solo");
}

#[test]
fn unmatched_track_is_unchanged() {
    let mut cfg = no_rules();
    cfg.artist_rewrites.push(rule(&["Various Artists"], Some("VA"), None));
    cfg.albumartist_rewrites.push(rule(&["^DJ .*"], Some("DJ"), None));
    let mut t = track("Nobody", "Nobody Either");
    rewrite_track(&cfg, &mut t).unwrap();
    assert_eq!(t.artist, "Nobody");
    assert_eq!(t.albumartist, "Nobody Either");
    assert_eq!(t.artists, "");
    assert_eq!(t.albumartists, "");
    assert_eq!(t.album, "An Album");
    assert_eq!(t.title, "A Title");
    assert_eq!(t.id, 17);
    assert_eq!(t.track, 3);
}

#[test]
fn invalid_expression_fails_whole_operation() {
    let mut cfg = no_rules();
    cfg.artist_rewrites.push(rule(&["("], Some("VA"), None));
    let tracks = vec![track("Anyone", "Someone")];
    let err = process_tracks(&cfg, tracks).unwrap_err();
    assert_eq!(err.expression, "(");
}

#[test]
fn invalid_expression_leaves_track_untouched() {
    let mut cfg = no_rules();
    cfg.albumartist_rewrites.push(rule(&["("], Some("X"), None));
    let mut t = track("Anyone", "Someone");
    let err = rewrite_album(&cfg, &mut Album {
        album: "A".to_string(),
        albumartist: "B".to_string(),
        id: 1,
    })
    .unwrap_err();
    assert_eq!(err.expression, "(");
    let err = rewrite_track(&cfg, &mut t).unwrap_err();
    assert_eq!(err.expression, "(");
    assert_eq!(t.artist, "Anyone");
    assert_eq!(t.albumartist, "Someone");
}

#[test]
fn album_single_rewrite_applied() {
    let mut cfg = no_rules();
    cfg.albumartist_rewrites.push(rule(&["Various Artists"], Some("VA"), None));
    let mut a = Album {
        album: "Hits".to_string(),
        albumartist: "Various Artists".to_string(),
        id: 9,
    };
    rewrite_album(&cfg, &mut a).unwrap();
    assert_eq!(a.albumartist, "VA");
    assert_eq!(a.album, "Hits");
    assert_eq!(a.id, 9);
}

#[test]
fn unmatched_album_keeps_fields_exactly() {
    let mut cfg = no_rules();
    cfg.albumartist_rewrites.push(rule(&["^DJ .*"], Some("DJ"), None));
    let albums = vec![Album { album: "Hits".to_string(), albumartist: "Foo".to_string(), id: 42 }];
    let out = process_albums(&cfg, albums).unwrap();
    assert_eq!(out.len(), 1);
    assert_eq!(out[0].albumartist, "Foo");
    assert_eq!(out[0].album, "Hits");
    assert_eq!(out[0].id, 42);
}

#[test]
fn artist_and_albumartist_rewrites_are_independent() {
    let mut cfg = no_rules();
    cfg.artist_rewrites.push(rule(&["Various Artists"], Some("VA"), None));
    cfg.albumartist_rewrites.push(rule(&["^DJ .*"], Some("DJ"), Some(&["DJ A", "DJ B"])));
    let mut t = track("Various Artists", "DJ Someone");
    rewrite_track(&cfg, &mut t).unwrap();
    assert_eq!(t.artist, "VA");
    assert_eq!(t.albumartist, "DJ");
    assert_eq!(t.albumartists, "DJ A\\\u{2400}DJ B");
}

#[test]
fn matching_rule_with_no_replacements_changes_nothing() {
    let mut cfg = no_rules();
    cfg.artist_rewrites.push(rule(&["Anyone"], None, None));
    let mut t = track("Anyone", "Someone");
    rewrite_track(&cfg, &mut t).unwrap();
    assert_eq!(t.artist, "Anyone");
    assert_eq!(t.artists, "");
}

#[test]
fn join_multi_uses_fixed_delimiter() {
    let values = vec!["A".to_string(), "B".to_string(), "C".to_string()];
    assert_eq!(join_multi(&values), "A\\\u{2400}B\\\u{2400}C");
}

#[test]
fn join_multi_of_empty_list_is_empty() {
    let values: Vec<String> = Vec::new();
    assert_eq!(join_multi(&values), "");
}

#[test]
fn process_tracks_keeps_count_and_order() {
    let mut cfg = no_rules();
    cfg.artist_rewrites.push(rule(&["Various Artists"], Some("VA"), None));
    let mut first = track("Various Artists", "X");
    first.title = "First".to_string();
    let mut second = track("Nobody", "X");
    second.title = "Second".to_string();
    let out = process_tracks(&cfg, vec![first, second]).unwrap();
    assert_eq!(out.len(), 2);
    assert_eq!(out[0].title, "First");
    assert_eq!(out[0].artist, "VA");
    assert_eq!(out[1].title, "Second");
    assert_eq!(out[1].artist, "Nobody");
}

#[test]
fn first_rule_decides_even_with_later_match() {
    let mut cfg = no_rules();
    cfg.artist_rewrites.push(rule(&["^V.*"], Some("First"), None));
    cfg.artist_rewrites.push(rule(&["Various Artists"], Some("Second"), None));
    let mut t = track("Various Artists", "X");
    rewrite_track(&cfg, &mut t).unwrap();
    assert_eq!(t.artist, "First");
}

#[test]
fn default_config_has_no_rules() {
    let cfg = Config::default();
    assert!(cfg.artist_rewrites.is_empty());
    assert!(cfg.albumartist_rewrites.is_empty());
    let rw = Rewrite::default();
    assert!(rw.expressions.is_empty());
    assert!(rw.single.is_none());
    assert!(rw.multi.is_none());
}
