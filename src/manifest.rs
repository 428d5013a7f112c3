use vstd::prelude::*;

use crate::error::HlsError;
use crate::text::{
    has_prefix, has_substring, split_chars, split_on, starts_with, string_of, to_chars, u32_of,
};

verus! {

pub const EXT_X_VERSION: &'static str = "#EXT-X-VERSION:";

pub const EXT_X_TARGETDURATION: &'static str = "#EXT-X-TARGETDURATION:";

pub const EXT_X_PLAYLIST_TYPE: &'static str = "#EXT-X-PLAYLIST-TYPE:";

pub const EXT_X_MEDIA_SEQUENCE: &'static str = "#EXT-X-MEDIA-SEQUENCE:";

pub const EXT_X_KEY: &'static str = "#EXT-X-KEY:";

pub const METHOD: &'static str = "METHOD=";

pub const URL: &'static str = "URI=";

/// The `METHOD` and `URI` attributes of an `#EXT-X-KEY:` line, each present
/// only when the line carried it.
#[derive(Debug, Clone)]
pub struct KeyDescriptor {
    pub method: Option<String>,
    pub uri: Option<String>,
}

pub ghost struct KeyView {
    pub method: Option<Seq<char>>,
    pub uri: Option<Seq<char>>,
}

pub open spec fn opt_view(o: Option<String>) -> Option<Seq<char>> {
    match o {
        Some(s) => Some(s@),
        None => None,
    }
}

impl View for KeyDescriptor {
    type V = KeyView;

    open spec fn view(&self) -> KeyView {
        KeyView { method: opt_view(self.method), uri: opt_view(self.uri) }
    }
}

/// The directive set of one manifest.
#[derive(Debug, Clone)]
pub struct Ext {
    pub version: Option<u32>,
    pub target_duration: Option<u32>,
    pub play_list_type: Option<String>,
    pub media_sequence: Option<u32>,
    /// The last `#EXT-X-KEY:` line seen wins.
    pub key: Option<KeyDescriptor>,
    /// Segment references in manifest order.
    pub uri_list: Vec<String>,
}

pub ghost struct ExtView {
    pub version: Option<u32>,
    pub target_duration: Option<u32>,
    pub play_list_type: Option<Seq<char>>,
    pub media_sequence: Option<u32>,
    pub key: Option<KeyView>,
    pub uri_list: Seq<Seq<char>>,
}

impl View for Ext {
    type V = ExtView;

    open spec fn view(&self) -> ExtView {
        ExtView {
            version: self.version,
            target_duration: self.target_duration,
            play_list_type: opt_view(self.play_list_type),
            media_sequence: self.media_sequence,
            key: match self.key {
                Some(k) => Some(k@),
                None => None,
            },
            uri_list: self.uri_list@.map_values(|s: String| s@),
        }
    }
}

/// The directive set before any line is read.
pub open spec fn empty_ext() -> ExtView {
    ExtView {
        version: None,
        target_duration: None,
        play_list_type: None,
        media_sequence: None,
        key: None,
        uri_list: Seq::empty(),
    }
}

/// What follows `keyword` when `text` starts with it; all of `text` otherwise.
pub open spec fn after(text: Seq<char>, keyword: Seq<char>) -> Seq<char> {
    if has_prefix(text, keyword) {
        text.subrange(keyword.len() as int, text.len() as int)
    } else {
        text
    }
}

/// `s` without one leading and one trailing double quote, where present.
pub open spec fn strip_quotes(s: Seq<char>) -> Seq<char> {
    let a = if s.len() > 0 && s[0] == '"' {
        s.drop_first()
    } else {
        s
    };
    if a.len() > 0 && a.last() == '"' {
        a.drop_last()
    } else {
        a
    }
}

/// One comma-separated field of a key line applied to the key read so far.
pub open spec fn key_field(k: KeyView, f: Seq<char>) -> KeyView {
    let k1 = if has_prefix(f, METHOD@) {
        KeyView { method: Some(after(f, METHOD@)), uri: k.uri }
    } else {
        k
    };
    if has_prefix(f, URL@) {
        KeyView { method: k1.method, uri: Some(strip_quotes(after(f, URL@))) }
    } else {
        k1
    }
}

pub open spec fn key_of_fields(fields: Seq<Seq<char>>) -> KeyView
    decreases fields.len(),
{
    if fields.len() == 0 {
        KeyView { method: None, uri: None }
    } else {
        key_field(key_of_fields(fields.drop_last()), fields.last())
    }
}

/// The key described by the attribute list of an `#EXT-X-KEY:` line.
pub open spec fn key_of(attrs: Seq<char>) -> KeyView {
    key_of_fields(split_on(attrs, ','))
}

/// The directive part of reading one line: `None` where a numeric value is
/// malformed. Lines that carry no recognised tag leave the set unchanged.
pub open spec fn directive_step(e: ExtView, line: Seq<char>) -> Option<ExtView> {
    if has_prefix(line, EXT_X_VERSION@) {
        match u32_of(after(line, EXT_X_VERSION@)) {
            Some(v) => Some(ExtView { version: Some(v), ..e }),
            None => None,
        }
    } else if has_prefix(line, EXT_X_TARGETDURATION@) {
        match u32_of(after(line, EXT_X_TARGETDURATION@)) {
            Some(v) => Some(ExtView { target_duration: Some(v), ..e }),
            None => None,
        }
    } else if has_prefix(line, EXT_X_PLAYLIST_TYPE@) {
        Some(ExtView { play_list_type: Some(after(line, EXT_X_PLAYLIST_TYPE@)), ..e })
    } else if has_prefix(line, EXT_X_MEDIA_SEQUENCE@) {
        match u32_of(after(line, EXT_X_MEDIA_SEQUENCE@)) {
            Some(v) => Some(ExtView { media_sequence: Some(v), ..e }),
            None => None,
        }
    } else if has_prefix(line, EXT_X_KEY@) {
        Some(ExtView { key: Some(key_of(after(line, EXT_X_KEY@))), ..e })
    } else {
        Some(e)
    }
}

/// Reading one line: its directive, then, independently, the segment check.
pub open spec fn line_step(e: ExtView, line: Seq<char>, suffix: Seq<char>) -> Option<ExtView> {
    match directive_step(e, line) {
        Some(e2) => Some(
            if has_substring(line, suffix) {
                ExtView { uri_list: e2.uri_list.push(line), ..e2 }
            } else {
                e2
            },
        ),
        None => None,
    }
}

/// Reading `lines` in order from `e`: the set reached, and whether every line
/// was well formed. Reading stops at the first malformed line.
pub open spec fn apply_lines(e: ExtView, lines: Seq<Seq<char>>, suffix: Seq<char>) -> (ExtView, bool)
    decreases lines.len(),
{
    if lines.len() == 0 {
        (e, true)
    } else {
        let prev = apply_lines(e, lines.drop_last(), suffix);
        if !prev.1 {
            prev
        } else {
            match line_step(prev.0, lines.last(), suffix) {
                Some(e2) => (e2, true),
                None => (prev.0, false),
            }
        }
    }
}

/// The lines of a manifest, split at each newline.
pub open spec fn manifest_lines(text: Seq<char>) -> Seq<Seq<char>> {
    split_on(text, '\n')
}

impl Ext {
    pub fn new() -> (r: Self)
        ensures
            r@ == empty_ext(),
    {
        let r = Self {
            version: None,
            target_duration: None,
            play_list_type: None,
            media_sequence: None,
            key: None,
            uri_list: Vec::new(),
        };
        assert(r@.uri_list =~= Seq::<Seq<char>>::empty());
        r
    }

    pub fn set_version(&mut self, version: u32)
        ensures
            final(self)@ == (ExtView { version: Some(version), ..old(self)@ }),
    {
        self.version = Some(version);
    }

    pub fn set_target_duration(&mut self, target_duration: u32)
        ensures
            final(self)@ == (ExtView { target_duration: Some(target_duration), ..old(self)@ }),
    {
        self.target_duration = Some(target_duration);
    }

    pub fn set_play_list_type(&mut self, play_list_type: String)
        ensures
            final(self)@ == (ExtView { play_list_type: Some(play_list_type@), ..old(self)@ }),
    {
        self.play_list_type = Some(play_list_type);
    }

    pub fn set_media_sequence(&mut self, media_sequence: u32)
        ensures
            final(self)@ == (ExtView { media_sequence: Some(media_sequence), ..old(self)@ }),
    {
        self.media_sequence = Some(media_sequence);
    }

    /// Replaces whatever key was set before.
    pub fn set_key(&mut self, key: KeyDescriptor)
        ensures
            final(self)@ == (ExtView { key: Some(key@), ..old(self)@ }),
    {
        self.key = Some(key);
    }

    /// Appends one segment reference after those already recorded.
    pub fn set_uri_list(&mut self, uri: String)
        ensures
            final(self)@ == (ExtView { uri_list: old(self)@.uri_list.push(uri@), ..old(self)@ }),
    {
        let ghost before = self.uri_list@;
        self.uri_list.push(uri);
        assert(self.uri_list@.map_values(|s: String| s@) =~= before.map_values(
            |s: String| s@,
        ).push(uri@));
    }
}

/// The text of `context` after `keyword`, parsed as a `u32`.
pub fn acquire_u32(context: &str, keyword: &str) -> (r: Result<u32, HlsError>)
    ensures
        r == match u32_of(after(context@, keyword@)) {
            Some(v) => Ok::<u32, HlsError>(v),
            None => Err(HlsError::Parse),
        },
{
    let c = to_chars(context);
    let k = to_chars(keyword);
    let from: usize = if starts_with(&c, &k) {
        k.len()
    } else {
        0
    };
    assert(c@.subrange(0, c@.len() as int) =~= c@);
    match crate::text::parse_u32(&c, from) {
        Some(v) => Ok(v),
        None => Err(HlsError::Parse),
    }
}

/// The text of `context` after `keyword`, verbatim.
pub fn acquire_string(context: &str, keyword: &str) -> (r: String)
    ensures
        r@ == after(context@, keyword@),
{
    let c = to_chars(context);
    let k = to_chars(keyword);
    if starts_with(&c, &k) {
        string_of(&c, k.len(), c.len())
    } else {
        assert(c@.subrange(0, c@.len() as int) =~= c@);
        string_of(&c, 0, c.len())
    }
}

/// Where the text after `tag` starts in `line`, when `line` starts with it.
fn tag_end(line: &[char], tag: &str) -> (r: Option<usize>)
    ensures
        has_prefix(line@, tag@) ==> r == Some(tag@.len() as usize),
        !has_prefix(line@, tag@) ==> r is None,
{
    let t = to_chars(tag);
    if starts_with(line, &t) {
        Some(t.len())
    } else {
        None
    }
}

/// The characters `f[from..]`, without one leading and one trailing quote.
fn unquote(f: &[char], from: usize) -> (r: String)
    requires
        from <= f@.len(),
    ensures
        r@ == strip_quotes(f@.subrange(from as int, f@.len() as int)),
{
    let mut lo = from;
    let mut hi = f.len();
    if lo < hi && f[lo] == '"' {
        lo = lo + 1;
    }
    if lo < hi && f[hi - 1] == '"' {
        hi = hi - 1;
    }
    let r = string_of(f, lo, hi);
    let ghost s = f@.subrange(from as int, f@.len() as int);
    let ghost a = if s.len() > 0 && s[0] == '"' { s.drop_first() } else { s };
    assert(a =~= f@.subrange(lo as int, f@.len() as int));
    assert(r@ =~= strip_quotes(s));
    r
}

/// Reads the attribute list of an `#EXT-X-KEY:` line.
fn parse_key(attrs: &[char]) -> (r: KeyDescriptor)
    ensures
        r@ == key_of(attrs@),
{
    let fields = split_chars(attrs, ',');
    let ghost fs = split_on(attrs@, ',');
    let mut key = KeyDescriptor { method: None, uri: None };
    let mut i: usize = 0;
    while i < fields.len()
        invariant
            i <= fields@.len() == fs.len(),
            fs == split_on(attrs@, ','),
            forall|j: int| 0 <= j < fields@.len() ==> #[trigger] fields@[j]@ == fs[j],
            key@ == key_of_fields(fs.take(i as int)),
        decreases fields.len() - i,
    {
        let f = &fields[i];
        assert(fs.take(i + 1).drop_last() =~= fs.take(i as int));
        assert(f@ == fs.take(i + 1).last());
        if let Some(n) = tag_end(f, METHOD) {
            key.method = Some(string_of(f, n, f.len()));
        }
        if let Some(n) = tag_end(f, URL) {
            key.uri = Some(unquote(f, n));
        }
        i = i + 1;
    }
    assert(fs.take(i as int) =~= fs);
    key
}

/// Reads one manifest line into `ext`; `false` where a numeric value is
/// malformed, in which case `ext` is left as it was.
fn apply_line(ext: &mut Ext, line: String, suffix: &[char]) -> (ok: bool)
    ensures
        match line_step(old(ext)@, line@, suffix@) {
            Some(e) => ok && final(ext)@ == e,
            None => !ok && final(ext)@ == old(ext)@,
        },
{
    let c = to_chars(line.as_str());
    if let Some(_) = tag_end(&c, EXT_X_VERSION) {
        match acquire_u32(line.as_str(), EXT_X_VERSION) {
            Ok(v) => ext.set_version(v),
            Err(_) => return false,
        }
    } else if let Some(_) = tag_end(&c, EXT_X_TARGETDURATION) {
        match acquire_u32(line.as_str(), EXT_X_TARGETDURATION) {
            Ok(v) => ext.set_target_duration(v),
            Err(_) => return false,
        }
    } else if let Some(_) = tag_end(&c, EXT_X_PLAYLIST_TYPE) {
        ext.set_play_list_type(acquire_string(line.as_str(), EXT_X_PLAYLIST_TYPE));
    } else if let Some(_) = tag_end(&c, EXT_X_MEDIA_SEQUENCE) {
        match acquire_u32(line.as_str(), EXT_X_MEDIA_SEQUENCE) {
            Ok(v) => ext.set_media_sequence(v),
            Err(_) => return false,
        }
    } else if let Some(_) = tag_end(&c, EXT_X_KEY) {
        let attrs = to_chars(acquire_string(line.as_str(), EXT_X_KEY).as_str());
        ext.set_key(parse_key(&attrs));
    }
    if crate::text::contains(&c, suffix) {
        ext.set_uri_list(line);
    }
    true
}

/// Once a prefix of `lines` has failed, reading the rest changes nothing.
pub proof fn lemma_apply_lines_stops(e: ExtView, lines: Seq<Seq<char>>, k: int, suffix: Seq<char>)
    requires
        0 <= k <= lines.len(),
        !apply_lines(e, lines.take(k), suffix).1,
    ensures
        apply_lines(e, lines, suffix) == apply_lines(e, lines.take(k), suffix),
    decreases lines.len(),
{
    if k < lines.len() {
        assert(lines.drop_last().take(k) =~= lines.take(k));
        lemma_apply_lines_stops(e, lines.drop_last(), k, suffix);
    } else {
        assert(lines.take(k) =~= lines);
    }
}

/// Reads the manifest text `m3u8_value` line by line into `ext`. A line that
/// contains `suffix` is recorded as a segment reference, whatever else it is.
/// Fails with `HlsError::Parse` at the first malformed numeric directive,
/// leaving in `ext` what the lines before it gave.
pub fn analyze(ext: &mut Ext, m3u8_value: String, suffix: &str) -> (r: Result<(), HlsError>)
    ensures
        final(ext)@ == apply_lines(old(ext)@, manifest_lines(m3u8_value@), suffix@).0,
        r is Ok <==> apply_lines(old(ext)@, manifest_lines(m3u8_value@), suffix@).1,
        r is Err ==> r == Err::<(), HlsError>(HlsError::Parse),
{
    let text = to_chars(m3u8_value.as_str());
    let sfx = to_chars(suffix);
    let lines = split_chars(&text, '\n');
    let ghost e0 = ext@;
    let ghost ls = manifest_lines(m3u8_value@);
    let mut i: usize = 0;
    while i < lines.len()
        invariant
            i <= lines@.len() == ls.len(),
            ls == manifest_lines(m3u8_value@),
            e0 == old(ext)@,
            text@ == m3u8_value@,
            sfx@ == suffix@,
            forall|j: int| 0 <= j < lines@.len() ==> #[trigger] lines@[j]@ == ls[j],
            apply_lines(e0, ls.take(i as int), suffix@) == (ext@, true),
        decreases lines.len() - i,
    {
        let l = &lines[i];
        let s = string_of(l, 0, l.len());
        assert(l@.subrange(0, l@.len() as int) =~= l@);
        assert(ls.take(i + 1).drop_last() =~= ls.take(i as int));
        let ok = apply_line(ext, s, &sfx);
        if !ok {
            proof {
                assert(ls.take(i + 1).last() == ls[i as int]);
                assert(apply_lines(e0, ls.take(i + 1), suffix@) == (ext@, false));
                lemma_apply_lines_stops(e0, ls, i + 1, suffix@);
            }
            return Err(HlsError::Parse);
        }
        i = i + 1;
    }
    assert(ls.take(i as int) =~= ls);
    Ok(())
}

/// The lines that are taken as segment references.
pub open spec fn holds_suffix(suffix: Seq<char>) -> spec_fn(Seq<char>) -> bool {
    |l: Seq<char>| has_substring(l, suffix)
}

/// The segment references read from a manifest are the lines that contain
/// the suffix, in the order they appear, after those recorded before.
pub proof fn lemma_segments_in_order(e: ExtView, lines: Seq<Seq<char>>, suffix: Seq<char>)
    requires
        apply_lines(e, lines, suffix).1,
    ensures
        apply_lines(e, lines, suffix).0.uri_list == e.uri_list + lines.filter(
            holds_suffix(suffix),
        ),
    decreases lines.len(),
{
    let f = holds_suffix(suffix);
    reveal(Seq::filter);
    if lines.len() == 0 {
        assert(lines.filter(f) =~= Seq::<Seq<char>>::empty());
        assert(e.uri_list + Seq::<Seq<char>>::empty() =~= e.uri_list);
    } else {
        let prev = apply_lines(e, lines.drop_last(), suffix);
        assert(prev.1);
        lemma_segments_in_order(e, lines.drop_last(), suffix);
        let d = directive_step(prev.0, lines.last());
        assert(d is Some);
        assert(d->Some_0.uri_list == prev.0.uri_list);
        let rest = lines.drop_last().filter(f);
        assert(f(lines.last()) == has_substring(lines.last(), suffix));
        assert(lines.filter(f) == if f(lines.last()) {
            rest.push(lines.last())
        } else {
            rest
        });
        if f(lines.last()) {
            assert(e.uri_list + rest.push(lines.last()) =~= (e.uri_list + rest).push(lines.last()));
        }
    }
}

} // verus!
