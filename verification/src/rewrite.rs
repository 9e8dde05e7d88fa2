use vstd::prelude::*;
use vstd::string::StringExecFns;

use crate::config::{Config, Rewrite};
use crate::join::{join_with, lemma_join_with_push};
use crate::matcher::{
    find_match, lemma_first_match, rules_bad, rules_find, rules_scan, InvalidExpression, MatchStep,
};
use crate::models::{Album, Track};

verus! {

/// The delimiter with which the external manager joins several values into
/// one plural string field: a literal backslash followed by the
/// symbol-for-null placeholder character.
pub open spec fn multi_delim() -> Seq<char> {
    seq!['\\', '\u{2400}']
}

/// The delimiter as a string slice.
pub fn multi_delim_str() -> (r: &'static str)
    ensures
        r@ == multi_delim(),
{
    let s = "\\\u{2400}";
    proof {
        reveal_strlit("\\\u{2400}");
        assert(s@ =~= multi_delim());
    }
    s
}

/// Join the values with the manager's delimiter, in order.
pub fn join_multi(values: &Vec<String>) -> (r: String)
    ensures
        r@ == join_with(values.deep_view(), multi_delim()),
{
    let delim = multi_delim_str();
    let mut out = String::new();
    let mut i: usize = 0;
    while i < values.len()
        invariant
            0 <= i <= values@.len(),
            delim@ == multi_delim(),
            out@ == join_with(values.deep_view().take(i as int), multi_delim()),
        decreases values@.len() - i,
    {
        if i > 0 {
            out.append(delim);
        }
        let v: &String = &values[i];
        out.append(v.as_str());
        proof {
            let dv = values.deep_view();
            assert(dv[i as int] == values@[i as int]@);
            assert(dv.take(i as int).push(dv[i as int]) =~= dv.take(i as int + 1));
            lemma_join_with_push(dv.take(i as int), multi_delim(), dv[i as int]);
        }
        i += 1;
    }
    proof {
        assert(values.deep_view().take(values@.len() as int) =~= values.deep_view());
    }
    out
}

/// How one matched rule leaves a scalar field and a plural field: `single`
/// overwrites the scalar, `multi` overwrites the plural with the listed
/// values joined by the delimiter, and a replacement that is not set leaves
/// its field as it was.
pub open spec fn fields_rewritten(
    rw: Rewrite,
    single0: Seq<char>,
    multi0: Seq<char>,
    single1: Seq<char>,
    multi1: Seq<char>,
) -> bool {
    &&& single1 == (match rw.single {
        Some(s) => s@,
        None => single0,
    })
    &&& multi1 == (match rw.multi {
        Some(m) => join_with(m.deep_view(), multi_delim()),
        None => multi0,
    })
}

/// How a rule list leaves a scalar field (scanned as `single0`) and its
/// plural companion: the first matching rule decides; when no rule matches
/// both fields stay as they were.
pub open spec fn applied(
    rules: Seq<Rewrite>,
    single0: Seq<char>,
    multi0: Seq<char>,
    single1: Seq<char>,
    multi1: Seq<char>,
) -> bool {
    match rules_find(rules, single0) {
        Some(i) => fields_rewritten(rules[i], single0, multi0, single1, multi1),
        None => single1 == single0 && multi1 == multi0,
    }
}

/// How a rule list leaves a scalar field that has no plural companion: only
/// `single` of the first matching rule is applied.
pub open spec fn applied_single(rules: Seq<Rewrite>, single0: Seq<char>, single1: Seq<char>) -> bool {
    match rules_find(rules, single0) {
        Some(i) => single1 == (match rules[i].single {
            Some(s) => s@,
            None => single0,
        }),
        None => single1 == single0,
    }
}

/// Whether rewriting this track meets no invalid expression: the artist
/// rules are scanned against the artist field and the album-artist rules
/// against the album-artist field.
pub open spec fn track_scans_ok(cfg: Config, t: Track) -> bool {
    &&& rules_scan(cfg.artist_rewrites@, t.artist@) != MatchStep::Bad
    &&& rules_scan(cfg.albumartist_rewrites@, t.albumartist@) != MatchStep::Bad
}

/// The invalid expression that rewriting this track runs into first: the
/// artist scan comes before the album-artist scan.
pub open spec fn track_bad(cfg: Config, t: Track) -> Seq<char> {
    if rules_scan(cfg.artist_rewrites@, t.artist@) == MatchStep::Bad {
        rules_bad(cfg.artist_rewrites@, t.artist@)
    } else {
        rules_bad(cfg.albumartist_rewrites@, t.albumartist@)
    }
}

/// How a rewritten track relates to the track it came from: the artist rules
/// rewrite `artist`/`artists`, the album-artist rules independently rewrite
/// `albumartist`/`albumartists`, and every other field stays as it was.
pub open spec fn track_rewritten(cfg: Config, t0: Track, t1: Track) -> bool {
    &&& t1.album@ == t0.album@
    &&& t1.id == t0.id
    &&& t1.title@ == t0.title@
    &&& t1.track == t0.track
    &&& applied(cfg.artist_rewrites@, t0.artist@, t0.artists@, t1.artist@, t1.artists@)
    &&& applied(
        cfg.albumartist_rewrites@,
        t0.albumartist@,
        t0.albumartists@,
        t1.albumartist@,
        t1.albumartists@,
    )
}

/// Whether rewriting this album meets no invalid expression.
pub open spec fn album_scans_ok(cfg: Config, a: Album) -> bool {
    rules_scan(cfg.albumartist_rewrites@, a.albumartist@) != MatchStep::Bad
}

/// The invalid expression that rewriting this album runs into.
pub open spec fn album_bad(cfg: Config, a: Album) -> Seq<char> {
    rules_bad(cfg.albumartist_rewrites@, a.albumartist@)
}

/// How a rewritten album relates to the album it came from: the album-artist
/// rules rewrite `albumartist` (an album has no plural companion field), and
/// every other field stays as it was.
pub open spec fn album_rewritten(cfg: Config, a0: Album, a1: Album) -> bool {
    &&& a1.album@ == a0.album@
    &&& a1.id == a0.id
    &&& applied_single(cfg.albumartist_rewrites@, a0.albumartist@, a1.albumartist@)
}

/// Apply the configured rules to one track: the first artist rule matching
/// `artist` rewrites `artist`/`artists`, and independently the first
/// album-artist rule matching `albumartist` rewrites
/// `albumartist`/`albumartists`. On an invalid expression the track is left
/// exactly as it was.
pub fn rewrite_track(config: &Config, track: &mut Track) -> (r: Result<(), InvalidExpression>)
    ensures
        r is Ok <==> track_scans_ok(*config, *old(track)),
        r is Ok ==> track_rewritten(*config, *old(track), *final(track)),
        r is Err ==> *final(track) == *old(track),
        r matches Err(e) ==> e.expression@ == track_bad(*config, *old(track)),
{
    let art = match find_match(&config.artist_rewrites, &track.artist) {
        Ok(o) => o,
        Err(e) => {
            return Err(e);
        },
    };
    let alb = match find_match(&config.albumartist_rewrites, &track.albumartist) {
        Ok(o) => o,
        Err(e) => {
            return Err(e);
        },
    };
    if let Some(i) = art {
        proof {
            lemma_first_match(config.artist_rewrites@, old(track).artist@);
        }
        let rw: &Rewrite = &config.artist_rewrites[i];
        if let Some(s) = &rw.single {
            track.artist = s.clone();
        }
        if let Some(m) = &rw.multi {
            track.artists = join_multi(m);
        }
    }
    if let Some(i) = alb {
        proof {
            lemma_first_match(config.albumartist_rewrites@, old(track).albumartist@);
        }
        let rw: &Rewrite = &config.albumartist_rewrites[i];
        if let Some(s) = &rw.single {
            track.albumartist = s.clone();
        }
        if let Some(m) = &rw.multi {
            track.albumartists = join_multi(m);
        }
    }
    Ok(())
}

/// Apply the configured album-artist rules to one album: the first rule
/// matching `albumartist` rewrites it when the rule sets `single`. On an
/// invalid expression the album is left exactly as it was.
pub fn rewrite_album(config: &Config, album: &mut Album) -> (r: Result<(), InvalidExpression>)
    ensures
        r is Ok <==> album_scans_ok(*config, *old(album)),
        r is Ok ==> album_rewritten(*config, *old(album), *final(album)),
        r is Err ==> *final(album) == *old(album),
        r matches Err(e) ==> e.expression@ == album_bad(*config, *old(album)),
{
    let alb = match find_match(&config.albumartist_rewrites, &album.albumartist) {
        Ok(o) => o,
        Err(e) => {
            return Err(e);
        },
    };
    if let Some(i) = alb {
        proof {
            lemma_first_match(config.albumartist_rewrites@, old(album).albumartist@);
        }
        let rw: &Rewrite = &config.albumartist_rewrites[i];
        if let Some(s) = &rw.single {
            album.albumartist = s.clone();
        }
    }
    Ok(())
}

/// Rewrite every track of a document set, in order. No track is dropped or
/// added: on success the result has one rewritten track for each input
/// track, in input order. An invalid expression fails the whole operation.
#[verifier::loop_isolation(false)]
pub fn process_tracks(config: &Config, tracks: Vec<Track>) -> (r: Result<
    Vec<Track>,
    InvalidExpression,
>)
    ensures
        r matches Ok(out) ==> out@.len() == tracks@.len() && (forall|i: int|
            0 <= i < tracks@.len() ==> track_rewritten(*config, tracks@[i], #[trigger] out@[i])),
        r is Ok <==> (forall|i: int|
            0 <= i < tracks@.len() ==> #[trigger] track_scans_ok(*config, tracks@[i])),
        r matches Err(e) ==> exists|i: int|
            #![auto]
            0 <= i < tracks@.len() && !track_scans_ok(*config, tracks@[i]) && e.expression@
                == track_bad(*config, tracks@[i]) && (forall|j: int|
                0 <= j < i ==> track_scans_ok(*config, tracks@[j])),
{
    let ghost orig = tracks@;
    let mut work = tracks;
    let mut i: usize = 0;
    while i < work.len()
        invariant
            0 <= i <= work@.len(),
            work@.len() == orig.len(),
            forall|j: int| i <= j < orig.len() ==> work@[j] == orig[j],
            forall|j: int| 0 <= j < i ==> track_rewritten(*config, orig[j], #[trigger] work@[j]),
            forall|j: int| 0 <= j < i ==> #[trigger] track_scans_ok(*config, orig[j]),
        decreases work@.len() - i,
    {
        match rewrite_track(config, &mut work[i]) {
            Ok(()) => {},
            Err(e) => {
                proof {
                    let k = i as int;
                    assert(!track_scans_ok(*config, orig[k]));
                    assert(exists|n: int|
                        #![auto]
                        0 <= n < orig.len() && !track_scans_ok(*config, orig[n]) && e.expression@
                            == track_bad(*config, orig[n]) && (forall|j: int|
                            0 <= j < n ==> track_scans_ok(*config, orig[j])));
                }
                return Err(e);
            },
        }
        i += 1;
    }
    Ok(work)
}

/// Rewrite every album of a document set, in order. No album is dropped or
/// added: on success the result has one rewritten album for each input
/// album, in input order. An invalid expression fails the whole operation.
#[verifier::loop_isolation(false)]
pub fn process_albums(config: &Config, albums: Vec<Album>) -> (r: Result<
    Vec<Album>,
    InvalidExpression,
>)
    ensures
        r matches Ok(out) ==> out@.len() == albums@.len() && (forall|i: int|
            0 <= i < albums@.len() ==> album_rewritten(*config, albums@[i], #[trigger] out@[i])),
        r is Ok <==> (forall|i: int|
            0 <= i < albums@.len() ==> #[trigger] album_scans_ok(*config, albums@[i])),
        r matches Err(e) ==> exists|i: int|
            #![auto]
            0 <= i < albums@.len() && !album_scans_ok(*config, albums@[i]) && e.expression@
                == album_bad(*config, albums@[i]) && (forall|j: int|
                0 <= j < i ==> album_scans_ok(*config, albums@[j])),
{
    let ghost orig = albums@;
    let mut work = albums;
    let mut i: usize = 0;
    while i < work.len()
        invariant
            0 <= i <= work@.len(),
            work@.len() == orig.len(),
            forall|j: int| i <= j < orig.len() ==> work@[j] == orig[j],
            forall|j: int| 0 <= j < i ==> album_rewritten(*config, orig[j], #[trigger] work@[j]),
            forall|j: int| 0 <= j < i ==> #[trigger] album_scans_ok(*config, orig[j]),
        decreases work@.len() - i,
    {
        match rewrite_album(config, &mut work[i]) {
            Ok(()) => {},
            Err(e) => {
                proof {
                    let k = i as int;
                    assert(!album_scans_ok(*config, orig[k]));
                    assert(exists|n: int|
                        #![auto]
                        0 <= n < orig.len() && !album_scans_ok(*config, orig[n]) && e.expression@
                            == album_bad(*config, orig[n]) && (forall|j: int|
                            0 <= j < n ==> album_scans_ok(*config, orig[j])));
                }
                return Err(e);
            },
        }
        i += 1;
    }
    Ok(work)
}

} // verus!
