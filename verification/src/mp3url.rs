use vstd::prelude::*;
use vstd::pervasive::VecAdditionalExecFns;
use crate::errors::ParseError;
use crate::text::{
    find_char, spec_eq_ignore_ascii_case, spec_find_char, spec_lines, split_lines,
    str_eq_ignore_ascii_case, str_eq_str, str_has_prefix,
};

verus! {

// ---------------------------------------------------------------------------
// Document model
// ---------------------------------------------------------------------------

/// One variant reference of a master playlist.
#[derive(Clone, Debug, PartialEq, Eq)]
pub struct SubPlaylist {
    pub url: String,
    pub attribs: Vec<(String, String)>,
}

/// One segment entry of a media playlist.
#[derive(Clone, Debug, PartialEq, Eq)]
pub struct TrackInfo {
    pub info: String,
    pub name: String,
}

/// The encryption parameters of a media playlist.
#[derive(Clone, Debug, PartialEq, Eq)]
pub struct KeyInfo {
    pub method: String,
    pub uri: String,
    pub iv: String,
}

/// A parsed playlist document: a catch-all directive map, the segment list
/// of a media playlist, the variant list of a master playlist, and the
/// optional encryption parameters.
#[derive(Clone, Debug, PartialEq, Eq)]
pub struct M3U {
    pub directives: Vec<(String, String)>,
    pub tracklist: Vec<TrackInfo>,
    pub subplaylists: Vec<SubPlaylist>,
    pub key_info: Option<KeyInfo>,
}

#[verifier::ext_equal]
pub struct SubPlaylistView {
    pub url: Seq<char>,
    pub attribs: Seq<(Seq<char>, Seq<char>)>,
}

#[verifier::ext_equal]
pub struct TrackInfoView {
    pub info: Seq<char>,
    pub name: Seq<char>,
}

#[verifier::ext_equal]
pub struct KeyInfoView {
    pub method: Seq<char>,
    pub uri: Seq<char>,
    pub iv: Seq<char>,
}

#[verifier::ext_equal]
pub struct M3UView {
    pub directives: Seq<(Seq<char>, Seq<char>)>,
    pub tracklist: Seq<TrackInfoView>,
    pub subplaylists: Seq<SubPlaylistView>,
    pub key_info: Option<KeyInfoView>,
}

pub open spec fn pairs_view(v: Seq<(String, String)>) -> Seq<(Seq<char>, Seq<char>)> {
    v.map_values(|p: (String, String)| (p.0@, p.1@))
}

pub open spec fn strs_view(v: Seq<String>) -> Seq<Seq<char>> {
    v.map_values(|s: String| s@)
}

impl View for SubPlaylist {
    type V = SubPlaylistView;

    open spec fn view(&self) -> SubPlaylistView {
        SubPlaylistView { url: self.url@, attribs: pairs_view(self.attribs@) }
    }
}

impl View for TrackInfo {
    type V = TrackInfoView;

    open spec fn view(&self) -> TrackInfoView {
        TrackInfoView { info: self.info@, name: self.name@ }
    }
}

impl View for KeyInfo {
    type V = KeyInfoView;

    open spec fn view(&self) -> KeyInfoView {
        KeyInfoView { method: self.method@, uri: self.uri@, iv: self.iv@ }
    }
}

impl View for M3U {
    type V = M3UView;

    open spec fn view(&self) -> M3UView {
        M3UView {
            directives: pairs_view(self.directives@),
            tracklist: self.tracklist@.map_values(|t: TrackInfo| t@),
            subplaylists: self.subplaylists@.map_values(|p: SubPlaylist| p@),
            key_info: match self.key_info {
                Some(k) => Some(k@),
                None => None,
            },
        }
    }
}

// ---------------------------------------------------------------------------
// Directive splitting
// ---------------------------------------------------------------------------

/// A directive line split at its first `:` into key and value.
pub open spec fn spec_read_directive(line: Seq<char>) -> Result<(Seq<char>, Seq<char>), ParseError> {
    match spec_find_char(line, ':', 0) {
        None => Err(ParseError::MalformedDirective),
        Some(p) => Ok((line.subrange(0, p), line.subrange(p + 1, line.len() as int))),
    }
}

/// Splits a `#KEY:value` line at its first `:`.
pub fn read_directive(line: &str) -> (r: Result<(String, String), ParseError>)
    ensures
        match (r, spec_read_directive(line@)) {
            (Ok((k, v)), Ok((sk, sv))) => k@ == sk && v@ == sv,
            (Err(e), Err(f)) => e == f,
            _ => false,
        },
{
    match find_char(line, ':') {
        None => Err(ParseError::MalformedDirective),
        Some(p) => {
            let n = line.unicode_len();
            let k = line.substring_char(0, p).to_owned();
            let v = line.substring_char(p + 1, n).to_owned();
            Ok((k, v))
        },
    }
}

// ---------------------------------------------------------------------------
// Attribute lists
// ---------------------------------------------------------------------------

/// What the first CSV record of an attribute-list value holds, field by
/// field, or `None` where no record can be read out of it.
pub uninterp spec fn spec_csv_record(s: Seq<char>) -> Option<Seq<Seq<char>>>;

/// Relies on csv::ReaderBuilder / csv::Reader: reads the first CSV record
/// of the value (no header row), one string per field, with the crate's
/// quoting rules; `None` where the reader yields no record or an error.
#[verifier::external_body]
fn csv_first_record(value: &str) -> (r: Option<Vec<String>>)
    ensures
        match (r, spec_csv_record(value@)) {
            (Some(v), Some(w)) => strs_view(v@) == w,
            (None, None) => true,
            _ => false,
        },
{
    let mut builder = csv::ReaderBuilder::new();
    builder.has_headers(false);
    let mut rdr = builder.from_reader(value.as_bytes());
    match rdr.records().next() {
        Some(Ok(rec)) => Some(rec.iter().map(|f| f.to_string()).collect()),
        _ => None,
    }
}

/// The first index at or after `i` whose key equals `k`.
pub open spec fn spec_find_key(
    m: Seq<(Seq<char>, Seq<char>)>,
    k: Seq<char>,
    i: int,
) -> Option<int>
    decreases m.len() - i,
{
    if i < 0 || i >= m.len() {
        None
    } else if m[i].0 == k {
        Some(i)
    } else {
        spec_find_key(m, k, i + 1)
    }
}

/// Inserts a pair into an association list with unique keys: an existing
/// key has its entry replaced in place, a new key is appended.
pub open spec fn spec_upsert(
    m: Seq<(Seq<char>, Seq<char>)>,
    k: Seq<char>,
    v: Seq<char>,
) -> Seq<(Seq<char>, Seq<char>)> {
    match spec_find_key(m, k, 0) {
        Some(j) => m.update(j, (k, v)),
        None => m.push((k, v)),
    }
}

/// Folds `key=value` fields into an association list; a field without `=`
/// is skipped.
pub open spec fn spec_attrib_pairs(
    fields: Seq<Seq<char>>,
    i: int,
    acc: Seq<(Seq<char>, Seq<char>)>,
) -> Seq<(Seq<char>, Seq<char>)>
    decreases fields.len() - i,
{
    if i < 0 || i >= fields.len() {
        acc
    } else {
        let f = fields[i];
        let next = match spec_find_char(f, '=', 0) {
            None => acc,
            Some(p) => spec_upsert(acc, f.subrange(0, p), f.subrange(p + 1, f.len() as int)),
        };
        spec_attrib_pairs(fields, i + 1, next)
    }
}

pub open spec fn spec_empty_key_info() -> KeyInfoView {
    KeyInfoView { method: Seq::empty(), uri: Seq::empty(), iv: Seq::empty() }
}

/// Folds `key=value` fields into encryption parameters: the keys `iv`,
/// `uri` and `method` are matched ignoring ASCII case, later occurrences
/// win, anything else is ignored.
pub open spec fn spec_key_info_fields(fields: Seq<Seq<char>>, i: int, acc: KeyInfoView) -> KeyInfoView
    decreases fields.len() - i,
{
    if i < 0 || i >= fields.len() {
        acc
    } else {
        let f = fields[i];
        let next = match spec_find_char(f, '=', 0) {
            None => acc,
            Some(p) => {
                let k = f.subrange(0, p);
                let v = f.subrange(p + 1, f.len() as int);
                if spec_eq_ignore_ascii_case(k, "iv"@) {
                    KeyInfoView { iv: v, ..acc }
                } else if spec_eq_ignore_ascii_case(k, "uri"@) {
                    KeyInfoView { uri: v, ..acc }
                } else if spec_eq_ignore_ascii_case(k, "method"@) {
                    KeyInfoView { method: v, ..acc }
                } else {
                    acc
                }
            },
        };
        spec_key_info_fields(fields, i + 1, next)
    }
}

fn attrib_pairs(fields: &Vec<String>) -> (r: Vec<(String, String)>)
    ensures
        pairs_view(r@) == spec_attrib_pairs(strs_view(fields@), 0, Seq::empty()),
{
    let ghost fv = strs_view(fields@);
    let mut out: Vec<(String, String)> = Vec::new();
    proof {
        assert(pairs_view(out@) =~= Seq::empty());
    }
    let mut i: usize = 0;
    while i < fields.len()
        invariant
            i <= fields@.len(),
            fv == strs_view(fields@),
            spec_attrib_pairs(fv, 0, Seq::empty()) == spec_attrib_pairs(
                fv,
                i as int,
                pairs_view(out@),
            ),
        decreases fields@.len() - i,
    {
        let f = &fields[i];
        proof {
            assert(fv[i as int] == f@);
        }
        match find_char(f.as_str(), '=') {
            Some(p) => {
                let n = f.as_str().unicode_len();
                let k = f.as_str().substring_char(0, p).to_owned();
                let v = f.as_str().substring_char(p + 1, n).to_owned();
                upsert(&mut out, k, v);
            },
            None => {},
        }
        i = i + 1;
    }
    out
}

/// Replaces the value under `k`, or appends the pair where `k` is new.
fn upsert(m: &mut Vec<(String, String)>, k: String, v: String)
    ensures
        pairs_view(final(m)@) == spec_upsert(pairs_view(old(m)@), k@, v@),
{
    let ghost pv = pairs_view(m@);
    let mut j: usize = 0;
    while j < m.len()
        invariant
            j <= m@.len(),
            m@ == old(m)@,
            pv == pairs_view(m@),
            spec_find_key(pv, k@, 0) == spec_find_key(pv, k@, j as int),
        decreases m@.len() - j,
    {
        proof {
            assert(pv[j as int] == (m@[j as int].0@, m@[j as int].1@));
        }
        if str_eq_str(m[j].0.as_str(), k.as_str()) {
            m.set(j, (k, v));
            proof {
                assert(pairs_view(m@) =~= pv.update(j as int, (k@, v@)));
            }
            return ;
        }
        j = j + 1;
    }
    m.push((k, v));
    proof {
        assert(pairs_view(m@) =~= pv.push((k@, v@)));
    }
}

fn key_info_from_fields(fields: &Vec<String>) -> (r: KeyInfo)
    ensures
        r@ == spec_key_info_fields(strs_view(fields@), 0, spec_empty_key_info()),
{
    let ghost fv = strs_view(fields@);
    let mut ki = KeyInfo { method: String::new(), uri: String::new(), iv: String::new() };
    proof {
        assert(ki@ =~= spec_empty_key_info());
    }
    let mut i: usize = 0;
    while i < fields.len()
        invariant
            i <= fields@.len(),
            fv == strs_view(fields@),
            spec_key_info_fields(fv, 0, spec_empty_key_info()) == spec_key_info_fields(
                fv,
                i as int,
                ki@,
            ),
        decreases fields@.len() - i,
    {
        let f = &fields[i];
        proof {
            assert(fv[i as int] == f@);
        }
        match find_char(f.as_str(), '=') {
            Some(p) => {
                let n = f.as_str().unicode_len();
                let k = f.as_str().substring_char(0, p).to_owned();
                let v = f.as_str().substring_char(p + 1, n).to_owned();
                if str_eq_ignore_ascii_case(k.as_str(), "iv") {
                    ki.iv = v;
                } else if str_eq_ignore_ascii_case(k.as_str(), "uri") {
                    ki.uri = v;
                } else if str_eq_ignore_ascii_case(k.as_str(), "method") {
                    ki.method = v;
                }
            },
            None => {},
        }
        i = i + 1;
    }
    ki
}

// ---------------------------------------------------------------------------
// The parser
// ---------------------------------------------------------------------------

pub open spec fn spec_empty_m3u() -> M3UView {
    M3UView {
        directives: Seq::empty(),
        tracklist: Seq::empty(),
        subplaylists: Seq::empty(),
        key_info: None,
    }
}

/// One dispatch step per directive line, in priority order: variant
/// reference (consumes the following URL line), key directive, track info
/// (consumes the following name line), end-of-list marker, any other
/// directive, any other line (skipped).
pub open spec fn spec_parse_from(lines: Seq<Seq<char>>, i: int, acc: M3UView) -> Result<
    M3UView,
    ParseError,
>
    decreases lines.len() + 1 - i,
{
    if i < 0 || i >= lines.len() {
        Ok(acc)
    } else {
        let line = lines[i];
        if "#EXT-X-STREAM-INF:"@.is_prefix_of(line) {
            match spec_read_directive(line) {
                Err(e) => Err(e),
                Ok((k, v)) => if i + 1 >= lines.len() {
                    Err(ParseError::UnexpectedEof)
                } else {
                    match spec_csv_record(v) {
                        None => Err(ParseError::MalformedAttributeList),
                        Some(fields) => spec_parse_from(
                            lines,
                            i + 2,
                            M3UView {
                                subplaylists: acc.subplaylists.push(
                                    SubPlaylistView {
                                        url: lines[i + 1],
                                        attribs: spec_attrib_pairs(fields, 0, Seq::empty()),
                                    },
                                ),
                                ..acc
                            },
                        ),
                    }
                },
            }
        } else if "#EXT-X-KEY:"@.is_prefix_of(line) {
            match spec_read_directive(line) {
                Err(e) => Err(e),
                Ok((k, v)) => match spec_csv_record(v) {
                    None => Err(ParseError::MalformedAttributeList),
                    Some(fields) => spec_parse_from(
                        lines,
                        i + 1,
                        M3UView {
                            key_info: Some(
                                spec_key_info_fields(fields, 0, spec_empty_key_info()),
                            ),
                            ..acc
                        },
                    ),
                },
            }
        } else if "#EXTINF:"@.is_prefix_of(line) {
            match spec_read_directive(line) {
                Err(e) => Err(e),
                Ok((k, v)) => if i + 1 >= lines.len() {
                    Err(ParseError::UnexpectedEof)
                } else {
                    spec_parse_from(
                        lines,
                        i + 2,
                        M3UView {
                            tracklist: acc.tracklist.push(
                                TrackInfoView { info: v, name: lines[i + 1] },
                            ),
                            ..acc
                        },
                    )
                },
            }
        } else if line == "#EXT-X-ENDLIST"@ {
            Ok(acc)
        } else if line.len() > 0 && line[0] == '#' {
            match spec_read_directive(line) {
                Err(e) => Err(e),
                Ok((k, v)) => spec_parse_from(
                    lines,
                    i + 1,
                    M3UView { directives: spec_upsert(acc.directives, k, v), ..acc },
                ),
            }
        } else {
            spec_parse_from(lines, i + 1, acc)
        }
    }
}

/// The whole parse: the first line must be the `#EXTM3U` header, then the
/// remaining lines are dispatched one by one.
pub open spec fn spec_parse(s: Seq<char>) -> Result<M3UView, ParseError> {
    let lines = spec_lines(s);
    if lines.len() == 0 {
        Err(ParseError::MissingHeader)
    } else if lines[0] != "#EXTM3U"@ {
        Err(ParseError::MissingHeader)
    } else {
        spec_parse_from(lines, 1, spec_empty_m3u())
    }
}

/// Parsing is a function of the text alone: two parses of the same text
/// yield structurally equal outcomes.
pub proof fn lemma_parse_deterministic(
    s: Seq<char>,
    r1: Result<M3UView, ParseError>,
    r2: Result<M3UView, ParseError>,
)
    requires
        r1 == spec_parse(s),
        r2 == spec_parse(s),
    ensures
        r1 == r2,
{
}

impl M3U {
    /// Exactly one of the variant list and the segment list is non-empty.
    pub open spec fn well_formed(&self) -> bool {
        (self@.subplaylists.len() > 0) != (self@.tracklist.len() > 0)
    }

    /// `Ok(true)` for a master playlist, `Ok(false)` for a media playlist,
    /// and the classification error where both lists are empty or both are
    /// filled.
    pub fn classify(&self) -> (r: Result<bool, ParseError>)
        ensures
            r == Ok::<bool, ParseError>(true) <==> (self@.subplaylists.len() > 0
                && self@.tracklist.len() == 0),
            r == Ok::<bool, ParseError>(false) <==> (self@.subplaylists.len() == 0
                && self@.tracklist.len() > 0),
            r is Err <==> !self.well_formed(),
            r is Err ==> r == Err::<bool, ParseError>(ParseError::InvalidClassification),
    {
        if self.subplaylists.len() > 0 && self.tracklist.len() == 0 {
            Ok(true)
        } else if self.subplaylists.len() == 0 && self.tracklist.len() > 0 {
            Ok(false)
        } else {
            Err(ParseError::InvalidClassification)
        }
    }

    /// Whether the document is a master playlist. A document that is not
    /// well formed has no classification; such input must be rejected
    /// through `classify` instead.
    pub fn is_primary(&self) -> (r: bool)
        requires
            self.well_formed(),
        ensures
            r == (self@.subplaylists.len() > 0),
            r == (self@.tracklist.len() == 0),
    {
        self.subplaylists.len() > 0
    }

    /// Parses manifest text into a document.
    pub fn from_str(s: &str) -> (r: Result<M3U, ParseError>)
        ensures
            match (r, spec_parse(s@)) {
                (Ok(d), Ok(v)) => d@ == v,
                (Err(e), Err(f)) => e == f,
                _ => false,
            },
    {
        let lines = split_lines(s);
        let ghost lv = spec_lines(s@);
        proof {
            assert(lines@.map_values(|l: String| l@) == lv);
        }
        if lines.len() == 0 {
            return Err(ParseError::MissingHeader);
        }
        if !str_eq_str(lines[0].as_str(), "#EXTM3U") {
            proof {
                assert(lv[0] == lines@[0]@);
            }
            return Err(ParseError::MissingHeader);
        }
        proof {
            assert(lv[0] == lines@[0]@);
        }
        let mut doc = M3U {
            directives: Vec::new(),
            tracklist: Vec::new(),
            subplaylists: Vec::new(),
            key_info: None,
        };
        proof {
            assert(doc@ =~= spec_empty_m3u());
        }
        let mut i: usize = 1;
        while i < lines.len()
            invariant
                1 <= i,
                lines@.map_values(|l: String| l@) == lv,
                lines@.len() == lv.len(),
                spec_parse(s@) == spec_parse_from(lv, i as int, doc@),
            decreases lines@.len() - i,
        {
            let ghost pre = doc@;
            let line = &lines[i];
            proof {
                assert(lv[i as int] == lines@[i as int]@);
            }
            if str_has_prefix(line.as_str(), "#EXT-X-STREAM-INF:") {
                let (_k, v) = match read_directive(line.as_str()) {
                    Ok(p) => p,
                    Err(e) => {
                        return Err(e);
                    },
                };
                if i + 1 >= lines.len() {
                    return Err(ParseError::UnexpectedEof);
                }
                let url = lines[i + 1].clone();
                proof {
                    assert(lv[i + 1] == lines@[i + 1]@);
                }
                match csv_first_record(v.as_str()) {
                    None => {
                        return Err(ParseError::MalformedAttributeList);
                    },
                    Some(fields) => {
                        let attribs = attrib_pairs(&fields);
                        doc.subplaylists.push(SubPlaylist { url, attribs });
                        proof {
                            assert(doc@.subplaylists =~= pre.subplaylists.push(
                                SubPlaylistView {
                                    url: lv[i + 1],
                                    attribs: spec_attrib_pairs(
                                        spec_csv_record(v@)->Some_0,
                                        0,
                                        Seq::empty(),
                                    ),
                                },
                            ));
                            assert(doc@ =~= (M3UView {
                                subplaylists: pre.subplaylists.push(
                                    SubPlaylistView {
                                        url: lv[i + 1],
                                        attribs: spec_attrib_pairs(
                                            spec_csv_record(v@)->Some_0,
                                            0,
                                            Seq::empty(),
                                        ),
                                    },
                                ),
                                ..pre
                            }));
                        }
                    },
                }
                i = i + 2;
            } else if str_has_prefix(line.as_str(), "#EXT-X-KEY:") {
                let (_k, v) = match read_directive(line.as_str()) {
                    Ok(p) => p,
                    Err(e) => {
                        return Err(e);
                    },
                };
                match csv_first_record(v.as_str()) {
                    None => {
                        return Err(ParseError::MalformedAttributeList);
                    },
                    Some(fields) => {
                        let ki = key_info_from_fields(&fields);
                        doc.key_info = Some(ki);
                        proof {
                            assert(doc@ =~= (M3UView {
                                key_info: Some(
                                    spec_key_info_fields(
                                        spec_csv_record(v@)->Some_0,
                                        0,
                                        spec_empty_key_info(),
                                    ),
                                ),
                                ..pre
                            }));
                        }
                    },
                }
                i = i + 1;
            } else if str_has_prefix(line.as_str(), "#EXTINF:") {
                let (_k, v) = match read_directive(line.as_str()) {
                    Ok(p) => p,
                    Err(e) => {
                        return Err(e);
                    },
                };
                if i + 1 >= lines.len() {
                    return Err(ParseError::UnexpectedEof);
                }
                let name = lines[i + 1].clone();
                proof {
                    assert(lv[i + 1] == lines@[i + 1]@);
                }
                doc.tracklist.push(TrackInfo { info: v, name });
                proof {
                    assert(doc@.tracklist =~= pre.tracklist.push(
                        TrackInfoView {
                            info: spec_read_directive(lv[i as int])->Ok_0.1,
                            name: lv[i + 1],
                        },
                    ));
                    assert(doc@ =~= (M3UView {
                        tracklist: pre.tracklist.push(
                            TrackInfoView {
                                info: spec_read_directive(lv[i as int])->Ok_0.1,
                                name: lv[i + 1],
                            },
                        ),
                        ..pre
                    }));
                }
                i = i + 2;
            } else if str_eq_str(line.as_str(), "#EXT-X-ENDLIST") {
                return Ok(doc);
            } else if line.as_str().unicode_len() > 0 && line.as_str().get_char(0) == '#' {
                let (k, v) = match read_directive(line.as_str()) {
                    Ok(p) => p,
                    Err(e) => {
                        return Err(e);
                    },
                };
                let ghost kv = k@;
                let ghost vv = v@;
                upsert(&mut doc.directives, k, v);
                proof {
                    assert(doc@ =~= (M3UView {
                        directives: spec_upsert(pre.directives, kv, vv),
                        ..pre
                    }));
                }
                i = i + 1;
            } else {
                i = i + 1;
            }
        }
        Ok(doc)
    }
}

} // verus!
