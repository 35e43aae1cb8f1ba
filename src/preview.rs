//! Rendered documents: HTML values, the entries of a table of contents, the rewriting of
//! image URLs, and the framing of a safe document with its stylesheet.

use vstd::prelude::*;
use vstd::utf8::encode_utf8;
use crate::text::{chars_of, push_char, push_str};
use crate::git::join_path;

verus! {

/// A piece of HTML.
#[derive(Debug, PartialEq, Eq)]
pub struct Html(pub String);

impl From<String> for Html {
    fn from(value: String) -> (r: Html) {
        Html(value)
    }
}

impl vstd::std_specs::convert::FromSpecImpl<String> for Html {
    open spec fn obeys_from_spec() -> bool {
        true
    }

    open spec fn from_spec(v: String) -> Html {
        Html(v)
    }
}

impl Html {
    pub fn as_string(&self) -> (r: &String)
        ensures
            r == &self.0,
    {
        &self.0
    }
}

/// Something that turns a source text into HTML.
pub trait Previewable {
    fn to_html(&self, source: &str) -> Html;
}

/// The prefix of every heading id, so that no id chosen in a document collides with the
/// ids of the page around it.
pub const HEADER_IDS_SECURITY_PREFIX: &'static str = "h-";

/// One entry of a table of contents.
#[derive(Debug, PartialEq, Eq)]
pub struct TocHeading {
    pub text: String,
    pub level: u8,
    pub id: String,
}

impl TocHeading {
    /// The entry of a heading of `level` whose anchor (the slug that the renderer also
    /// gives the heading) is `anchor`: its id is the anchor behind the security prefix.
    pub fn new(text: String, level: u8, anchor: &str) -> (r: TocHeading)
        ensures
            r.text@ == text@,
            r.level == level,
            r.id@ == "h-"@ + anchor@,
    {
        let mut id = String::from_str(HEADER_IDS_SECURITY_PREFIX);
        proof {
            reveal_strlit("h-");
        }
        assert(id@ == "h-"@);
        push_str(&mut id, anchor);
        TocHeading { text, level, id }
    }
}

/// How image URLs of a document are rewritten.
#[derive(Debug)]
pub enum ImageUrlPolicy {
    /// Left as they are.
    Unchanged,
    /// The prefix is put before each URL.
    RelativePrefix(String),
    /// Each URL is taken as a path under the folder, percent-encoded and served through
    /// the asset scheme of the viewer.
    LocalAsset(String),
}

/// Bytes that percent-encoding leaves as they are: ASCII letters, digits, `-`, `_`, `.`, `~`.
pub open spec fn is_unreserved(b: u8) -> bool {
    (0x41 <= b && b <= 0x5A) || (0x61 <= b && b <= 0x7A) || (0x30 <= b && b <= 0x39) || b == 0x2D
        || b == 0x5F || b == 0x2E || b == 0x7E
}

pub open spec fn hex_digit(d: u8) -> char {
    if d < 10 { (0x30 + d) as char } else { (0x41 + d - 10) as char }
}

pub open spec fn percent_byte(b: u8) -> Seq<char> {
    if is_unreserved(b) {
        seq![b as char]
    } else {
        seq!['%', hex_digit(b / 16), hex_digit(b % 16)]
    }
}

/// Percent-encoding of bytes, with upper-case hexadecimal digits.
pub open spec fn percent_encode(bytes: Seq<u8>) -> Seq<char>
    decreases bytes.len(),
{
    if bytes.len() == 0 {
        Seq::empty()
    } else {
        percent_encode(bytes.drop_last()) + percent_byte(bytes.last())
    }
}

/// The prefix under which the viewer serves local files.
pub open spec fn asset_prefix(on_windows: bool) -> Seq<char> {
    if on_windows {
        "http://asset.localhost/"@
    } else {
        "asset://localhost/"@
    }
}

/// The URL of an image under a policy. Anchors (URLs that start with `#`) are kept.
pub open spec fn rewritten_url(policy: ImageUrlPolicy, url: Seq<char>, on_windows: bool) -> Seq<char> {
    if url.len() > 0 && url[0] == '#' {
        url
    } else {
        match policy {
            ImageUrlPolicy::Unchanged => url,
            ImageUrlPolicy::RelativePrefix(p) => p@ + url,
            ImageUrlPolicy::LocalAsset(base) => asset_prefix(on_windows) + percent_encode(
                encode_utf8(join_path(base@, url)),
            ),
        }
    }
}

fn hex_char(d: u8) -> (r: char)
    requires
        d < 16,
    ensures
        r == hex_digit(d),
{
    if d < 10 {
        (0x30 + d) as char
    } else {
        (0x41 + d - 10) as char
    }
}

/// Percent-encodes the bytes of `s` (UTF-8).
pub fn percent_encode_str(s: &str) -> (r: String)
    ensures
        r@ == percent_encode(encode_utf8(s@)),
{
    let bytes = s.as_bytes();
    let n = bytes.len();
    let mut out = String::new();
    let mut i: usize = 0;
    while i < n
        invariant
            n == bytes@.len(),
            bytes@ == encode_utf8(s@),
            i <= n,
            out@ == percent_encode(bytes@.take(i as int)),
        decreases n - i,
    {
        let b = bytes[i];
        let ghost before = out@;
        if (0x41 <= b && b <= 0x5A) || (0x61 <= b && b <= 0x7A) || (0x30 <= b && b <= 0x39) || b
            == 0x2D || b == 0x5F || b == 0x2E || b == 0x7E {
            push_char(&mut out, b as char);
        } else {
            push_char(&mut out, '%');
            push_char(&mut out, hex_char(b / 16));
            push_char(&mut out, hex_char(b % 16));
        }
        assert(out@ =~= before + percent_byte(b));
        assert(bytes@.take(i + 1).drop_last() =~= bytes@.take(i as int));
        i = i + 1;
    }
    assert(bytes@.take(n as int) =~= bytes@);
    out
}

/// The URL that an image gets in the safe document under `policy`.
pub fn rewrite_image_url(policy: &ImageUrlPolicy, url: &str, on_windows: bool) -> (r: String)
    ensures
        r@ == rewritten_url(*policy, url@, on_windows),
{
    let chars = chars_of(url);
    if chars.len() > 0 && chars[0] == '#' {
        return url.to_owned();
    }
    match policy {
        ImageUrlPolicy::Unchanged => url.to_owned(),
        ImageUrlPolicy::RelativePrefix(p) => {
            let mut r = p.clone();
            push_str(&mut r, url);
            r
        },
        ImageUrlPolicy::LocalAsset(base) => {
            let mut path = base.clone();
            let bl = path.as_str().unicode_len();
            if bl > 0 && path.as_str().get_char(bl - 1) != '/' {
                push_str(&mut path, "/");
            }
            push_str(&mut path, url);
            proof {
                reveal_strlit("/");
            }
            assert(path@ == join_path(base@, url@));
            let mut r = if on_windows {
                String::from_str("http://asset.localhost/")
            } else {
                String::from_str("asset://localhost/")
            };
            let enc = percent_encode_str(path.as_str());
            push_str(&mut r, enc.as_str());
            r
        },
    }
}

/// The safe document: the theme's stylesheet in a `<style>` block, a line break, then the
/// sanitized content.
pub open spec fn framed(css: Seq<char>, body: Seq<char>) -> Seq<char> {
    "<style>"@ + css + "</style>\n"@ + body
}

pub fn frame_with_style(css: &str, sanitized: &str) -> (r: String)
    ensures
        r@ == framed(css@, sanitized@),
{
    let mut r = String::from_str("<style>");
    push_str(&mut r, css);
    push_str(&mut r, "</style>\n");
    push_str(&mut r, sanitized);
    r
}

/// The safe document of an empty body is the style block and its line break alone.
pub proof fn lemma_empty_body_is_style_only(css: Seq<char>)
    ensures
        framed(css, Seq::empty()) == "<style>"@ + css + "</style>\n"@,
{
    assert(framed(css, Seq::empty()) =~= "<style>"@ + css + "</style>\n"@);
}

/// The counter behind the id prefixes of rendered math: each SVG gets the next value, so
/// the ids of two SVGs of one document never collide.
#[derive(Debug)]
pub struct IdPrefixCounter {
    next: u64,
}

impl IdPrefixCounter {
    pub closed spec fn next_value(&self) -> u64 {
        self.next
    }

    pub fn new() -> (r: Self)
        ensures
            r.next_value() == 0,
    {
        IdPrefixCounter { next: 0 }
    }

    /// The value for the next SVG: the current one, after which the counter moves on.
    pub fn get_next_prefix_id(&mut self) -> (r: u64)
        requires
            old(self).next_value() < u64::MAX,
        ensures
            r == old(self).next_value(),
            final(self).next_value() == old(self).next_value() + 1,
    {
        let r = self.next;
        self.next = self.next + 1;
        r
    }
}

/// Prefixes handed out one after the other are strictly increasing, hence all distinct.
pub proof fn lemma_prefixes_increase(c0: IdPrefixCounter, c1: IdPrefixCounter, a: u64, b: u64)
    requires
        a == c0.next_value(),
        c1.next_value() == c0.next_value() + 1,
        b == c1.next_value(),
    ensures
        a < b,
        a != b,
{
}

/// The prelude put before every math expression: no page margins, page sized to the content.
pub const MATH_PRELUDE: &'static str = "#set page(height: auto, width: auto, margin: 0pt)";

/// What the layout engine compiles for expression `exp`: the prelude, a line break, and
/// the expression between dollars.
pub open spec fn math_source_of(exp: Seq<char>) -> Seq<char> {
    MATH_PRELUDE@ + "\n$"@ + exp + "$"@
}

pub fn math_source(exp: &str) -> (r: String)
    ensures
        r@ == math_source_of(exp@),
{
    let mut r = String::from_str(MATH_PRELUDE);
    push_str(&mut r, "\n$");
    push_str(&mut r, exp);
    push_str(&mut r, "$");
    r
}

/// The HTML that replaces a math node: the SVG inside `<p class='math-block'>` for display
/// math or `<span class='math-inline'>` for inline math; a failed compilation gives its
/// message inside `<span class='parse-error'>` instead of the SVG.
pub open spec fn math_html_of(rendered: Result<Seq<char>, Seq<char>>, display: bool) -> Seq<char> {
    let inner = match rendered {
        Ok(svg) => svg,
        Err(msg) => "<span class='parse-error'>"@ + msg + "</span>"@,
    };
    if display {
        "<p class='math-block'>"@ + inner + "</p>"@
    } else {
        "<span class='math-inline'>"@ + inner + "</span>"@
    }
}

pub fn math_html(rendered: &Result<String, String>, display: bool) -> (r: String)
    ensures
        r@ == math_html_of(
            match rendered {
                Ok(s) => Ok(s@),
                Err(m) => Err(m@),
            },
            display,
        ),
{
    let mut r = if display {
        String::from_str("<p class='math-block'>")
    } else {
        String::from_str("<span class='math-inline'>")
    };
    match rendered {
        Ok(svg) => push_str(&mut r, svg.as_str()),
        Err(msg) => {
            push_str(&mut r, "<span class='parse-error'>");
            push_str(&mut r, msg.as_str());
            push_str(&mut r, "</span>");
        },
    }
    if display {
        push_str(&mut r, "</p>");
    } else {
        push_str(&mut r, "</span>");
    }
    r
}

} // verus!
