//! Media: images, videos and sounds, written
//! `![refname](uri)[properties] description` at the start of a line.
//! Consecutive media form a group.
use vstd::prelude::*;

use crate::compile::{push_chars, push_decimal, push_str, sanitize, spec_decimal, spec_sanitize};
use crate::document::{spec_report_kind, Element, Report, ReportCode, ReportKind, Token};
use crate::elements::reference::{spec_validate_refname, validate_refname};
use crate::interop::{chars_to_string, str_to_chars};
use crate::properties::{
    lookup, parse_properties, schema_view, spec_lookup, spec_parse_properties, PropertySpec,
};
use crate::scan::{esc_until, lemma_esc_until_range, lemma_line_end, line_end, spec_esc_until, spec_line_end};
use crate::text::{escape_text, spec_escape_text, spec_starts_at, spec_trim, trim_bounds};

verus! {

/// Kinds of media.
#[derive(Clone, Copy, PartialEq, Eq, Debug, Structural)]
#[allow(non_camel_case_types)]
pub enum MediaType {
    IMAGE,
    VIDEO,
    AUDIO,
}

/// The media type named `s` (`image`, `video` or `audio`).
pub open spec fn spec_media_type_from(s: Seq<char>) -> Option<MediaType> {
    if s == "image"@ {
        Some(MediaType::IMAGE)
    } else if s == "video"@ {
        Some(MediaType::VIDEO)
    } else if s == "audio"@ {
        Some(MediaType::AUDIO)
    } else {
        None
    }
}

/// The extension of `name`: what follows its last `.`.
pub open spec fn spec_extension(name: Seq<char>) -> Option<Seq<char>> {
    match crate::scan::spec_rfind_char(name, 0, name.len() as int, '.') {
        Some(k) => Some(name.subrange(k + 1, name.len() as int).map_values(|c: char| crate::chars::spec_to_ascii_lower(c))),
        None => None,
    }
}

pub open spec fn spec_is_image_ext(e: Seq<char>) -> bool {
    e == "png"@ || e == "apng"@ || e == "avif"@ || e == "gif"@ || e == "webp"@ || e == "svg"@ || e
        == "bmp"@ || e == "jpg"@ || e == "jpeg"@ || e == "jfif"@ || e == "pjpeg"@ || e == "pjp"@
}

pub open spec fn spec_is_video_ext(e: Seq<char>) -> bool {
    e == "mp4"@ || e == "m4v"@ || e == "webm"@ || e == "mov"@
}

pub open spec fn spec_is_audio_ext(e: Seq<char>) -> bool {
    e == "mp3"@ || e == "ogg"@ || e == "flac"@ || e == "wav"@
}

/// The media type of a file, from its extension (in any case).
pub open spec fn spec_media_type_from_filename(name: Seq<char>) -> Option<MediaType> {
    match spec_extension(name) {
        None => None,
        Some(e) => if spec_is_image_ext(e) {
            Some(MediaType::IMAGE)
        } else if spec_is_video_ext(e) {
            Some(MediaType::VIDEO)
        } else if spec_is_audio_ext(e) {
            Some(MediaType::AUDIO)
        } else {
            None
        },
    }
}

fn eq_any(s: &[char], names: &Vec<&'static str>) -> (r: bool)
    ensures
        r == exists|i: int| 0 <= i < names@.len() && s@ == names@[i]@,
{
    let mut i: usize = 0;
    while i < names.len()
        invariant
            0 <= i <= names@.len(),
            forall|j: int| 0 <= j < i ==> s@ != #[trigger] names@[j]@,
        decreases names@.len() - i,
    {
        if crate::text::eq_str(s, names[i]) {
            return true;
        }
        i += 1;
    }
    false
}

impl MediaType {
    /// The media type named `s` (see `spec_media_type_from`).
    pub fn from_str(s: &[char]) -> (r: Option<MediaType>)
        ensures
            r == spec_media_type_from(s@),
    {
        if crate::text::eq_str(s, "image") {
            Some(MediaType::IMAGE)
        } else if crate::text::eq_str(s, "video") {
            Some(MediaType::VIDEO)
        } else if crate::text::eq_str(s, "audio") {
            Some(MediaType::AUDIO)
        } else {
            None
        }
    }

    /// The media type of the file `name`, from its extension.
    pub fn from_filename(name: &[char]) -> (r: Option<MediaType>)
        ensures
            r == spec_media_type_from_filename(name@),
    {
        let dot = match crate::scan::rfind_char(name, 0, name.len(), '.') {
            None => return None,
            Some(d) => d,
        };
        proof { crate::scan::lemma_rfind_char(name@, 0, name@.len() as int, '.'); }
        let mut ext: Vec<char> = Vec::new();
        let mut i = dot + 1;
        while i < name.len()
            invariant
                dot + 1 <= i <= name@.len(),
                ext@ == name@.subrange(dot + 1, i as int).map_values(|c: char| crate::chars::spec_to_ascii_lower(c)),
            decreases name@.len() - i,
        {
            ext.push(crate::chars::to_ascii_lower(name[i]));
            i += 1;
            assert(ext@ =~= name@.subrange(dot + 1, i as int).map_values(|c: char| crate::chars::spec_to_ascii_lower(c)));
        }
        let images = vec!["png", "apng", "avif", "gif", "webp", "svg", "bmp", "jpg", "jpeg", "jfif", "pjpeg", "pjp"];
        let videos = vec!["mp4", "m4v", "webm", "mov"];
        let audios = vec!["mp3", "ogg", "flac", "wav"];
        proof {
            let e = ext@;
            assert(spec_is_image_ext(e) == exists|i: int| 0 <= i < images@.len() && e == images@[i]@) by {
                if spec_is_image_ext(e) {
                    if e == "png"@ { assert(e == images@[0]@); }
                    if e == "apng"@ { assert(e == images@[1]@); }
                    if e == "avif"@ { assert(e == images@[2]@); }
                    if e == "gif"@ { assert(e == images@[3]@); }
                    if e == "webp"@ { assert(e == images@[4]@); }
                    if e == "svg"@ { assert(e == images@[5]@); }
                    if e == "bmp"@ { assert(e == images@[6]@); }
                    if e == "jpg"@ { assert(e == images@[7]@); }
                    if e == "jpeg"@ { assert(e == images@[8]@); }
                    if e == "jfif"@ { assert(e == images@[9]@); }
                    if e == "pjpeg"@ { assert(e == images@[10]@); }
                    if e == "pjp"@ { assert(e == images@[11]@); }
                }
            }
            assert(spec_is_video_ext(e) == exists|i: int| 0 <= i < videos@.len() && e == videos@[i]@) by {
                if spec_is_video_ext(e) {
                    if e == "mp4"@ { assert(e == videos@[0]@); }
                    if e == "m4v"@ { assert(e == videos@[1]@); }
                    if e == "webm"@ { assert(e == videos@[2]@); }
                    if e == "mov"@ { assert(e == videos@[3]@); }
                }
            }
            assert(spec_is_audio_ext(e) == exists|i: int| 0 <= i < audios@.len() && e == audios@[i]@) by {
                if spec_is_audio_ext(e) {
                    if e == "mp3"@ { assert(e == audios@[0]@); }
                    if e == "ogg"@ { assert(e == audios@[1]@); }
                    if e == "flac"@ { assert(e == audios@[2]@); }
                    if e == "wav"@ { assert(e == audios@[3]@); }
                }
            }
        }
        if eq_any(ext.as_slice(), &images) {
            Some(MediaType::IMAGE)
        } else if eq_any(ext.as_slice(), &videos) {
            Some(MediaType::VIDEO)
        } else if eq_any(ext.as_slice(), &audios) {
            Some(MediaType::AUDIO)
        } else {
            None
        }
    }
}

/// A medium.
pub struct Medium {
    pub location: Token,
    pub reference: String,
    pub uri: String,
    pub media_type: MediaType,
    pub width: Option<String>,
    pub caption: Option<String>,
    /// The description, parsed as paragraph content.
    pub description: Option<Vec<Element>>,
}

/// Consecutive media.
pub struct MediaGroup {
    pub location: Token,
    pub media: Vec<Medium>,
}

impl MediaGroup {
    /// Adds `medium` at the end of the group, which then extends to its end.
    pub fn add_media(&mut self, medium: Medium)
        ensures
            final(self).media@ == old(self).media@.push(medium),
            final(self).location == (Token { start: old(self).location.start, end: medium.location.end }),
    {
        self.location = Token { start: self.location.start, end: medium.location.end };
        self.media.push(medium);
    }
}

/// HTML of an image `uri`, numbered `refcount` among the references, with
/// its width, caption and the HTML of its description.
pub open spec fn spec_medium_html(
    uri: Seq<char>,
    width: Option<Seq<char>>,
    caption: Option<Seq<char>>,
    refcount: usize,
    description: Seq<char>,
) -> Seq<char> {
    let w = match width {
        Some(w) => " style=\"width:"@ + w + ";\""@,
        None => Seq::<char>::empty(),
    };
    let c = match caption {
        Some(c) => " "@ + spec_sanitize(c),
        None => Seq::<char>::empty(),
    };
    "<div class=\"medium\" "@ + w + ">"@ + "<a href=\""@ + uri + "\"><img src=\""@ + uri + "\"></a>"@
        + "<p class=\"medium-refname\">("@ + spec_decimal(refcount as nat) + ")"@ + c + "</p>"@ + description
        + "</div>"@
}

/// A medium's width goes into its HTML: the HTML with a width `w` is the
/// HTML without one with the attribute ` style="width:w;"` added to the
/// opening `<div class="medium" ` tag; the rest is unchanged.
pub proof fn law_medium_width(
    uri: Seq<char>,
    w: Seq<char>,
    caption: Option<Seq<char>>,
    refcount: usize,
    description: Seq<char>,
)
    ensures
        ({
            let plain = spec_medium_html(uri, None, caption, refcount, description);
            let head = "<div class=\"medium\" "@;
            &&& plain.len() >= head.len()
            &&& plain.subrange(0, head.len() as int) == head
            &&& spec_medium_html(uri, Some(w), caption, refcount, description)
                == head + " style=\"width:"@ + w + ";\""@ + plain.subrange(head.len() as int, plain.len() as int)
        }),
{
    let head = "<div class=\"medium\" "@;
    let plain = spec_medium_html(uri, None, caption, refcount, description);
    let c = match caption {
        Some(c) => " "@ + spec_sanitize(c),
        None => Seq::<char>::empty(),
    };
    let rest = ">"@ + "<a href=\""@ + uri + "\"><img src=\""@ + uri + "\"></a>"@
        + "<p class=\"medium-refname\">("@ + spec_decimal(refcount as nat) + ")"@ + c + "</p>"@ + description
        + "</div>"@;
    assert(plain =~= head + rest);
    assert(plain.subrange(0, head.len() as int) =~= head);
    assert(plain.subrange(head.len() as int, plain.len() as int) =~= rest);
    assert(spec_medium_html(uri, Some(w), caption, refcount, description)
        =~= head + " style=\"width:"@ + w + ";\""@ + rest);
}

/// A medium's caption follows its number: the HTML with a caption `c` is
/// the HTML without one with a space and the HTML text of `c` added after
/// the number, before the `</p>` that ends it; the description and the
/// closing `</div>` come last.
pub proof fn law_medium_caption(
    uri: Seq<char>,
    width: Option<Seq<char>>,
    c: Seq<char>,
    refcount: usize,
    description: Seq<char>,
)
    ensures
        ({
            let plain = spec_medium_html(uri, width, None, refcount, description);
            let end = "</p>"@ + description + "</div>"@;
            &&& plain.len() >= end.len()
            &&& plain.subrange(plain.len() - end.len(), plain.len() as int) == end
            &&& spec_medium_html(uri, width, Some(c), refcount, description)
                == plain.subrange(0, plain.len() - end.len()) + " "@ + spec_sanitize(c) + end
        }),
{
    let w = match width {
        Some(w) => " style=\"width:"@ + w + ";\""@,
        None => Seq::<char>::empty(),
    };
    let front = "<div class=\"medium\" "@ + w + ">"@ + "<a href=\""@ + uri + "\"><img src=\""@ + uri + "\"></a>"@
        + "<p class=\"medium-refname\">("@ + spec_decimal(refcount as nat) + ")"@;
    let end = "</p>"@ + description + "</div>"@;
    let plain = spec_medium_html(uri, width, None, refcount, description);
    assert(plain =~= front + end);
    assert(plain.subrange(plain.len() - end.len(), plain.len() as int) =~= end);
    assert(plain.subrange(0, plain.len() - end.len()) =~= front);
    assert(spec_medium_html(uri, width, Some(c), refcount, description) =~= front + " "@ + spec_sanitize(c) + end);
}

/// HTML of a reference to the image at `uri`, numbered `refid` among the
/// references: shown as `caption`, or as the number in parentheses.
pub open spec fn spec_medium_reference_html(uri: Seq<char>, refid: usize, caption: Option<Seq<char>>) -> Seq<char> {
    "<a class=\"medium-ref\">"@ + match caption {
        Some(c) => c,
        None => "("@ + spec_decimal(refid as nat) + ")"@,
    } + "<img src=\""@ + uri + "\"></a>"@
}

impl Medium {
    /// HTML of the medium, an image, numbered `refcount` among the
    /// references, whose description gives `description`.
    pub fn compile(&self, refcount: usize, description: &str) -> (r: String)
        requires
            self.media_type == MediaType::IMAGE,
        ensures
            r@ == spec_medium_html(self.uri@, opt_view(self.width), opt_view(self.caption), refcount, description@),
    {
        proof {
            reveal_strlit(" style=\"width:");
            reveal_strlit(";\"");
            reveal_strlit(" ");
            reveal_strlit("<div class=\"medium\" ");
            reveal_strlit(">");
            reveal_strlit("<a href=\"");
            reveal_strlit("\"><img src=\"");
            reveal_strlit("\"></a>");
            reveal_strlit("<p class=\"medium-refname\">(");
            reveal_strlit(")");
            reveal_strlit("</p>");
            reveal_strlit("</div>");
        }
        let mut out: Vec<char> = Vec::new();
        push_str(&mut out, "<div class=\"medium\" ");
        match &self.width {
            Some(w) => {
                push_str(&mut out, " style=\"width:");
                push_str(&mut out, w.as_str());
                push_str(&mut out, ";\"");
            },
            None => {},
        }
        push_str(&mut out, ">");
        push_str(&mut out, "<a href=\"");
        push_str(&mut out, self.uri.as_str());
        push_str(&mut out, "\"><img src=\"");
        push_str(&mut out, self.uri.as_str());
        push_str(&mut out, "\"></a>");
        push_str(&mut out, "<p class=\"medium-refname\">(");
        push_decimal(&mut out, refcount);
        push_str(&mut out, ")");
        match &self.caption {
            Some(c) => {
                push_str(&mut out, " ");
                let sc = sanitize(str_to_chars(c.as_str()).as_slice());
                push_chars(&mut out, sc.as_slice());
            },
            None => {},
        }
        push_str(&mut out, "</p>");
        push_str(&mut out, description);
        push_str(&mut out, "</div>");
        proof {
            assert(out@ =~= spec_medium_html(self.uri@, opt_view(self.width), opt_view(self.caption), refcount, description@));
        }
        chars_to_string(out.as_slice())
    }

    /// HTML of a reference to the medium, an image, numbered `refid` among
    /// the references: shown as `caption`, or as the number in parentheses.
    pub fn compile_reference(&self, refid: usize, caption: Option<&String>) -> (r: String)
        requires
            self.media_type == MediaType::IMAGE,
        ensures
            r@ == spec_medium_reference_html(self.uri@, refid, match caption {
                Some(c) => Some(c@),
                None => None,
            }),
    {
        proof {
            reveal_strlit("<a class=\"medium-ref\">");
            reveal_strlit("(");
            reveal_strlit(")");
            reveal_strlit("<img src=\"");
            reveal_strlit("\"></a>");
        }
        let mut out: Vec<char> = Vec::new();
        push_str(&mut out, "<a class=\"medium-ref\">");
        match caption {
            Some(c) => {
                push_str(&mut out, c.as_str());
            },
            None => {
                push_str(&mut out, "(");
                push_decimal(&mut out, refid);
                push_str(&mut out, ")");
            },
        }
        push_str(&mut out, "<img src=\"");
        push_str(&mut out, self.uri.as_str());
        push_str(&mut out, "\"></a>");
        chars_to_string(out.as_slice())
    }
}

impl MediaGroup {
    /// HTML of the group whose media give `media`.
    pub fn compile(&self, media: &str) -> (r: String)
        ensures
            r@ == "<div class=\"media\">"@ + media@ + "</div>"@,
    {
        proof { reveal_strlit("<div class=\"media\">"); reveal_strlit("</div>"); }
        let mut out: Vec<char> = Vec::new();
        push_str(&mut out, "<div class=\"media\">");
        push_str(&mut out, media);
        push_str(&mut out, "</div>");
        chars_to_string(out.as_slice())
    }
}

/// The ranges of a medium.
#[derive(Clone, Copy, PartialEq, Eq, Debug, Structural)]
pub struct MediaMatch {
    pub whole: Token,
    pub refname: Token,
    pub uri: Token,
    pub props: Option<Token>,
    /// The description, up to the end of the line (an escaped newline
    /// continues it); `None` when it ends in a lone backslash.
    pub description: Option<Token>,
}

/// Scan of a description from `i`: up to the end of the line, where a
/// backslash takes the next character, newlines included.
pub open spec fn spec_description_end(s: Seq<char>, i: int) -> Option<int>
    decreases s.len() - i,
{
    if i < 0 || i > s.len() {
        None
    } else if i == s.len() || s[i] == '\n' {
        Some(i)
    } else if s[i] == '\\' {
        if i + 1 < s.len() {
            spec_description_end(s, i + 2)
        } else {
            None
        }
    } else {
        spec_description_end(s, i + 1)
    }
}

proof fn lemma_description_end(s: Seq<char>, i: int)
    ensures
        spec_description_end(s, i) matches Some(e) ==> i <= e <= s.len(),
    decreases s.len() - i,
{
    if i < 0 || i > s.len() {
    } else if i == s.len() || s[i] == '\n' {
    } else if s[i] == '\\' {
        if i + 1 < s.len() {
            lemma_description_end(s, i + 2);
        }
    } else {
        lemma_description_end(s, i + 1);
    }
}

/// The medium whose refname ends at the `](` found at or before `k`, for a
/// match at `p`: the last `](` of the line after which the uri is closed.
pub open spec fn spec_media_from(s: Seq<char>, p: int, k: int) -> Option<MediaMatch>
    decreases k - p,
{
    if k < p + 2 {
        None
    } else if spec_starts_at(s, k, "]("@) && spec_esc_until(s, k + 2, ")"@, false) is Some {
        let u = spec_esc_until(s, k + 2, ")"@, false)->0;
        let (props, next) = if u + 1 < s.len() && s[u + 1] == '[' && spec_esc_until(s, u + 2, "]"@, false) is Some {
            let e = spec_esc_until(s, u + 2, "]"@, false)->0;
            (Some(Token { start: (u + 2) as usize, end: e as usize }), e + 1)
        } else {
            (None::<Token>, u + 1)
        };
        let desc = spec_description_end(s, next);
        let end = match desc {
            Some(e) => e,
            None => next,
        };
        Some(MediaMatch {
            whole: Token { start: p as usize, end: end as usize },
            refname: Token { start: (p + 2) as usize, end: k as usize },
            uri: Token { start: (k + 2) as usize, end: u as usize },
            props,
            description: match desc {
                Some(e) => Some(Token { start: next as usize, end: e as usize }),
                None => None,
            },
        })
    } else {
        spec_media_from(s, p, k - 1)
    }
}

/// The match at `p` of the multi-line pattern
/// `^!\[(.*)\]\(((?:\\.|[^\\])*?)\)(?:\[((?:\\.|[^\\])*?)\])?((?:\\(?:.|\n)|[^\\])*?$)?`.
pub open spec fn spec_media_at(s: Seq<char>, p: int) -> Option<MediaMatch> {
    if (p == 0 || (0 < p <= s.len() && s[p - 1] == '\n')) && spec_starts_at(s, p, "!["@) {
        let le = spec_line_end(s, p + 2);
        spec_media_from(s, p, le - 2)
    } else {
        None
    }
}

pub open spec fn media_match_wf(s: Seq<char>, m: MediaMatch) -> bool {
    &&& m.whole.start + 2 == m.refname.start <= m.refname.end && m.refname.end + 2 == m.uri.start <= m.uri.end
    &&& m.uri.end < m.whole.end
    &&& m.uri.end + 1 <= s.len() && m.whole.end <= s.len()
    &&& m.props matches Some(pr) ==> m.uri.end + 2 == pr.start <= pr.end && pr.end + 1 <= s.len()
    &&& m.description matches Some(d) ==> m.uri.end < d.start <= d.end == m.whole.end
}

/// Properties of media.
pub open spec fn media_schema() -> Seq<(Seq<char>, bool, Option<Seq<char>>)> {
    seq![("type"@, false, None), ("width"@, false, None), ("caption"@, false, None)]
}

/// The rule for media.
pub struct MediaRule {
    pub properties: Vec<PropertySpec>,
}

impl MediaRule {
    pub fn new() -> (r: MediaRule)
        ensures
            schema_view(r.properties@) == media_schema(),
    {
        let mut properties: Vec<PropertySpec> = Vec::new();
        properties.push(PropertySpec { name: str_to_chars("type"), required: false, default: None });
        properties.push(PropertySpec { name: str_to_chars("width"), required: false, default: None });
        properties.push(PropertySpec { name: str_to_chars("caption"), required: false, default: None });
        let r = MediaRule { properties };
        assert(schema_view(r.properties@) =~= media_schema());
        r
    }

    fn description_end(&self, s: &[char], i: usize) -> (r: Option<usize>)
        requires
            i <= s@.len(),
        ensures
            match r {
                Some(e) => spec_description_end(s@, i as int) == Some(e as int) && i <= e <= s@.len(),
                None => spec_description_end(s@, i as int) is None,
            },
    {
        let mut j = i;
        while j < s.len() && s[j] != '\n'
            invariant
                i <= j <= s@.len(),
                spec_description_end(s@, i as int) == spec_description_end(s@, j as int),
            decreases s@.len() - j,
        {
            if s[j] == '\\' {
                if j + 1 < s.len() {
                    j += 2;
                } else {
                    return None;
                }
            } else {
                j += 1;
            }
        }
        Some(j)
    }

    /// The match of the media pattern at `p` (see `spec_media_at`).
    pub fn media_at(&self, s: &[char], p: usize) -> (r: Option<MediaMatch>)
        ensures
            r == spec_media_at(s@, p as int),
            r matches Some(m) ==> media_match_wf(s@, m) && m.whole.start == p,
    {
        proof { reveal_strlit("!["); reveal_strlit("]("); reveal_strlit(")"); reveal_strlit("]"); }
        let open = str_to_chars("![");
        if !(p == 0 || (p <= s.len() && s[p - 1] == '\n')) || p >= s.len() || s.len() - p < 2
            || !crate::text::starts_at(s, p, open.as_slice()) {
            return None;
        }
        let le = line_end(s, p + 2);
        let mid = str_to_chars("](");
        let close = str_to_chars(")");
        let bclose = str_to_chars("]");
        let mut k: usize = if le >= 2 { le - 2 } else { 0 };
        assert(spec_media_at(s@, p as int) == spec_media_from(s@, p as int, le - 2));
        if le < 2 {
            return None;
        }
        let n = s.len();
        loop
            invariant
                n == s@.len(),
                p + 2 <= le <= s@.len(),
                k <= le - 2,
                mid@ == "]("@,
                close@ == ")"@,
                bclose@ == "]"@,
                spec_media_at(s@, p as int) == spec_media_from(s@, p as int, k as int),
            decreases k,
        {
            proof { reveal_strlit("]("); reveal_strlit(")"); reveal_strlit("]"); }
            if k < p + 2 {
                return None;
            }
            if crate::text::starts_at(s, k, mid.as_slice()) {
                match esc_until(s, k + 2, close.as_slice(), false) {
                    Some(u) => {
                        proof { lemma_esc_until_range(s@, k + 2, close@, false); }
                        let mut props: Option<Token> = None;
                        let mut next = u + 1;
                        if u + 1 < s.len() && s[u + 1] == '[' {
                            match esc_until(s, u + 2, bclose.as_slice(), false) {
                                Some(e) => {
                                    proof { lemma_esc_until_range(s@, u + 2, bclose@, false); }
                                    props = Some(Token { start: u + 2, end: e });
                                    next = e + 1;
                                },
                                None => {},
                            }
                        }
                        let desc = self.description_end(s, next);
                        let end = match desc {
                            Some(e) => e,
                            None => next,
                        };
                        return Some(MediaMatch {
                            whole: Token { start: p, end },
                            refname: Token { start: p + 2, end: k },
                            uri: Token { start: k + 2, end: u },
                            props,
                            description: match desc {
                                Some(e) => Some(Token { start: next, end: e }),
                                None => None,
                            },
                        });
                    },
                    None => {},
                }
            }
            if k == 0 {
                return None;
            }
            k -= 1;
        }
    }

    /// The first medium at or after `from`.
    pub fn find(&self, s: &[char], from: usize) -> (r: Option<MediaMatch>)
        ensures
            match r {
                Some(m) => from <= m.whole.start && spec_media_at(s@, m.whole.start as int) == Some(m)
                    && media_match_wf(s@, m)
                    && forall|q: int| from <= q < m.whole.start ==> spec_media_at(s@, q) is None,
                None => forall|q: int| from <= q ==> spec_media_at(s@, q) is None,
            },
    {
        proof { reveal_strlit("!["); }
        let mut p = from;
        while p < s.len()
            invariant
                from <= p,
                forall|q: int| from <= q < p ==> spec_media_at(s@, q) is None,
            decreases s@.len() - p,
        {
            match self.media_at(s, p) {
                Some(m) => return Some(m),
                None => {},
            }
            p += 1;
        }
        None
    }

    /// Whether the media pattern matches somewhere in `s`.
    pub fn is_match(&self, s: &str) -> (r: bool)
        ensures
            r == exists|q: int| 0 <= q < s@.len() && spec_media_at(s@, q) is Some,
    {
        let v = str_to_chars(s);
        match self.find(v.as_slice(), 0) {
            Some(m) => true,
            None => {
                proof { reveal_strlit("!["); }
                false
            },
        }
    }

    /// Whether the media pattern matches at or after `at` in `s`.
    pub fn is_match_at(&self, s: &str, at: usize) -> (r: bool)
        ensures
            r == exists|q: int| at <= q < s@.len() && spec_media_at(s@, q) is Some,
    {
        let v = str_to_chars(s);
        match self.find(v.as_slice(), at) {
            Some(m) => true,
            None => false,
        }
    }
}


/// What a medium yields before its description is parsed.
pub struct MediumParts {
    pub reference: String,
    pub uri: String,
    pub media_type: MediaType,
    pub width: Option<String>,
    pub caption: Option<String>,
    /// The description's range once trimmed, unless it is empty.
    pub description: Option<Token>,
}

pub open spec fn opt_view(o: Option<String>) -> Option<Seq<char>> {
    match o {
        Some(x) => Some(x@),
        None => None,
    }
}

/// What the medium `m` yields: refname, uri, type, width, caption and the
/// range of its description; or the error that refuses it.
pub open spec fn spec_media_result(s: Seq<char>, m: MediaMatch) -> Result<(Seq<char>, Seq<char>, MediaType, Option<Seq<char>>, Option<Seq<char>>, Option<Token>), ReportCode> {
    let uri = spec_escape_text('\\', ")"@, s.subrange(m.uri.start as int, m.uri.end as int));
    let props = match m.props {
        None => Seq::<char>::empty(),
        Some(p) => spec_escape_text('\\', "]"@, s.subrange(p.start as int, p.end as int)),
    };
    match spec_validate_refname(s.subrange(m.refname.start as int, m.refname.end as int)) {
        None => Err(ReportCode::InvalidMediaRefname),
        Some(refname) => if uri.len() == 0 {
            Err(ReportCode::InvalidMediaUri)
        } else {
            match spec_parse_properties(props, media_schema()) {
                Err(_) => Err(ReportCode::InvalidMediaProperties),
                Ok(entries) => {
                    let mt = match spec_media_type_from_filename(uri) {
                        Some(t) => Ok(t),
                        None => match spec_lookup(entries, "type"@) {
                            None => Err(ReportCode::MissingMediaType),
                            Some(t) => match spec_media_type_from(t) {
                                None => Err(ReportCode::InvalidMediaType),
                                Some(t) => Ok(t),
                            },
                        },
                    };
                    match mt {
                        Err(e) => Err(e),
                        Ok(t) => match m.description {
                            None => Err(ReportCode::InvalidMediaDescription),
                            Some(d) => {
                                let text = s.subrange(d.start as int, d.end as int);
                                Ok((refname, uri, t, spec_lookup(entries, "width"@), spec_lookup(entries, "caption"@),
                                    if spec_trim(text).len() == 0 { None } else {
                                        Some(Token {
                                            start: (d.start + crate::text::lead_ws(text)) as usize,
                                            end: (d.end - crate::text::trail_ws(crate::text::spec_trim_start(text))) as usize,
                                        })
                                    }))
                            },
                        },
                    }
                },
            }
        },
    }
}

impl MediaRule {
    /// Checks the medium `m`: gives its parts, or the report that refuses it.
    pub fn on_match(&self, s: &[char], m: MediaMatch) -> (r: Result<MediumParts, Report>)
        requires
            media_match_wf(s@, m),
            schema_view(self.properties@) == media_schema(),
        ensures
            match r {
                Ok(parts) => spec_media_result(s@, m) == Ok::<(Seq<char>, Seq<char>, MediaType, Option<Seq<char>>, Option<Seq<char>>, Option<Token>), ReportCode>((
                    parts.reference@,
                    parts.uri@,
                    parts.media_type,
                    opt_view(parts.width),
                    opt_view(parts.caption),
                    parts.description,
                )) && (parts.description matches Some(dd) ==> m.uri.end < dd.start < dd.end <= m.whole.end),
                Err(rep) => spec_media_result(s@, m) == Err::<(Seq<char>, Seq<char>, MediaType, Option<Seq<char>>, Option<Seq<char>>, Option<Token>), ReportCode>(rep.code) && rep.kind == spec_report_kind(rep.code)
                    && rep.span == (if rep.code == ReportCode::InvalidMediaRefname {
                        m.refname
                    } else if rep.code == ReportCode::InvalidMediaUri {
                        m.uri
                    } else {
                        m.whole
                    }),
            },
    {
        proof { reveal_strlit(")"); reveal_strlit("]"); }
        let refname = match validate_refname(&s[m.refname.start..m.refname.end]) {
            None => {
                return Err(Report { kind: ReportKind::Error, code: ReportCode::InvalidMediaRefname, span: m.refname });
            },
            Some(r) => r,
        };
        let close = str_to_chars(")");
        let uri = escape_text('\\', close.as_slice(), s, m.uri.start, m.uri.end);
        if uri.len() == 0 {
            return Err(Report { kind: ReportKind::Error, code: ReportCode::InvalidMediaUri, span: m.uri });
        }
        let props_text = match m.props {
            None => Vec::new(),
            Some(p) => {
                let bclose = str_to_chars("]");
                escape_text('\\', bclose.as_slice(), s, p.start, p.end)
            },
        };
        let entries = match parse_properties(props_text.as_slice(), &self.properties) {
            Err(_) => {
                return Err(Report { kind: ReportKind::Error, code: ReportCode::InvalidMediaProperties, span: m.whole });
            },
            Ok(e) => e,
        };
        let media_type = match MediaType::from_filename(uri.as_slice()) {
            Some(t) => t,
            None => {
                let kind_key = str_to_chars("type");
                match lookup(&entries, kind_key.as_slice()) {
                    None => {
                        return Err(Report { kind: ReportKind::Error, code: ReportCode::MissingMediaType, span: m.whole });
                    },
                    Some(t) => match MediaType::from_str(t.as_slice()) {
                        None => {
                            return Err(Report { kind: ReportKind::Error, code: ReportCode::InvalidMediaType, span: m.whole });
                        },
                        Some(t) => t,
                    },
                }
            },
        };
        let d = match m.description {
            None => {
                return Err(Report { kind: ReportKind::Error, code: ReportCode::InvalidMediaDescription, span: m.whole });
            },
            Some(d) => d,
        };
        let width_name = str_to_chars("width");
        let width = match lookup(&entries, width_name.as_slice()) {
            Some(w) => Some(chars_to_string(w.as_slice())),
            None => None,
        };
        let caption_name = str_to_chars("caption");
        let caption = match lookup(&entries, caption_name.as_slice()) {
            Some(c) => Some(chars_to_string(c.as_slice())),
            None => None,
        };
        let a = crate::text::skip_whitespace(s, d.start, d.end);
        let b = crate::text::skip_whitespace_back(s, a, d.end);
        proof {
            let text = s@.subrange(d.start as int, d.end as int);
            crate::text::lemma_lead_ws_bound(text);
            assert(crate::text::spec_trim_start(text) =~= s@.subrange(a as int, d.end as int));
            assert(spec_trim(text) =~= s@.subrange(a as int, b as int));
        }
        let description = if a == b { None } else { Some(Token { start: a, end: b }) };
        Ok(MediumParts {
            reference: chars_to_string(refname.as_slice()),
            uri: chars_to_string(uri.as_slice()),
            media_type,
            width,
            caption,
            description,
        })
    }
}

} // verus!
