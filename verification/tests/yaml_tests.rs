use beets_edit::config::{Config, Rewrite};
use beets_edit::documents::{join_documents, split_documents};
use beets_edit::models::Track;
use beets_edit::rewrite::process_tracks;

fn str_value(s: &str) -> serde_yaml::Value {
    serde_yaml::Value::String(s.to_string())
}

fn track_value(artist: &str, title: &str, id: u64) -> serde_yaml::Value {
    let mut m = serde_yaml::Mapping::new();
    m.insert(str_value("album"), str_value("An Album"));
    m.insert(str_value("albumartist"), str_value("Someone"));
    m.insert(str_value("albumartists"), str_value(""));
    m.insert(str_value("artist"), str_value(artist));
    m.insert(str_value("artists"), str_value(""));
    m.insert(str_value("id"), serde_yaml::Value::Number(id.into()));
    m.insert(str_value("title"), str_value(title));
    m.insert(str_value("track"), serde_yaml::Value::Number(1u64.into()));
    serde_yaml::Value::Mapping(m)
}

fn field(v: &serde_yaml::Value, key: &str) -> String {
    v.get(key).and_then(|f| f.as_str()).unwrap().to_string()
}

fn number(v: &serde_yaml::Value, key: &str) -> u64 {
    v.get(key).and_then(|f| f.as_u64()).unwrap()
}

#[test]
fn yaml_value_round_trips_field_for_field() {
    let v = track_value("Various Artists", "A Title", 17);
    let text = serde_yaml::to_string(&v).unwrap();
    let back: serde_yaml::Value = serde_yaml::from_str(&text).unwrap();
    assert_eq!(back, v);
}

#[test]
fn multi_document_stream_round_trips() {
    let values = vec![
        track_value("First Artist", "One", 1),
        track_value("Second Artist", "Two", 2),
    ];
    let parts: Vec<Vec<u8>> = values
        .iter()
        .map(|v| serde_yaml::to_string(v).unwrap().into_bytes())
        .collect();
    let joined = join_documents(&parts);
    let split = split_documents(&joined);
    assert_eq!(split.len(), values.len());
    for (bytes, original) in split.iter().zip(values.iter()) {
        let text = String::from_utf8(bytes.clone()).unwrap();
        let back: serde_yaml::Value = serde_yaml::from_str(&text).unwrap();
        assert_eq!(&back, original);
    }
}

#[test]
fn edit_flow_rewrites_stream_and_keeps_document_count() {
    // the flow of a track edit: split the stream, read each document, apply
    // the rules, write the stream back
    let input = {
        let parts: Vec<Vec<u8>> = vec![
            track_value("Various Artists", "One", 1),
            track_value("Nobody", "Two", 2),
        ]
        .iter()
        .map(|v| serde_yaml::to_string(v).unwrap().into_bytes())
        .collect();
        join_documents(&parts)
    };

    let cfg = Config {
        artist_rewrites: vec![Rewrite {
            expressions: vec!["Various Artists".to_string()],
            single: Some("VA".to_string()),
            multi: None,
        }],
        albumartist_rewrites: Vec::new(),
    };

    let tracks: Vec<Track> = split_documents(&input)
        .iter()
        .map(|bytes| {
            let text = String::from_utf8(bytes.clone()).unwrap();
            let v: serde_yaml::Value = serde_yaml::from_str(&text).unwrap();
            Track {
                album: field(&v, "album"),
                albumartist: field(&v, "albumartist"),
                albumartists: field(&v, "albumartists"),
                artist: field(&v, "artist"),
                artists: field(&v, "artists"),
                id: number(&v, "id") as usize,
                title: field(&v, "title"),
                track: number(&v, "track") as usize,
            }
        })
        .collect();

    let rewritten = process_tracks(&cfg, tracks).unwrap();
    assert_eq!(rewritten.len(), 2);
    assert_eq!(rewritten[0].artist, "VA");
    assert_eq!(rewritten[1].artist, "Nobody");

    let parts: Vec<Vec<u8>> = rewritten
        .iter()
        .map(|t| {
            serde_yaml::to_string(&track_value(&t.artist, &t.title, t.id as u64))
                .unwrap()
                .into_bytes()
        })
        .collect();
    let output = join_documents(&parts);
    assert_eq!(split_documents(&output).len(), 2);
    let text = String::from_utf8(output).unwrap();
    assert!(text.contains("artist: VA"));
}
