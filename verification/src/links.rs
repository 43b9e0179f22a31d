//! Links: which may be opened, where they lead, and the pictures that a document
//! carries in itself.

use vstd::prelude::*;
use vstd::slice::slice_subrange;

use crate::text::{
    chars_of, copy_of, ends, lemma_skip, lower_all, lower_chars, matches_at, opt_text, same, skip,
    skip_over, starts, starts_with, string_of, tail_of, tail_start, trim, trimmed, trimmed_string,
    Class,
};

verus! {

/// What stands in front of the first colon, if there is one.
pub open spec fn scheme_of(uri: Seq<char>) -> Option<Seq<char>> {
    let colon = skip(uri, 0, uri.len() as int, Class::Not(':'));
    if colon < uri.len() {
        Some(uri.subrange(0, colon))
    } else {
        None
    }
}

/// Whether a link may be handed to the desktop: only with one of three schemes, and
/// not without anything behind it.
pub open spec fn launchable(uri: Seq<char>) -> bool {
    match scheme_of(uri) {
        Some(scheme) => {
            &&& lower_all(scheme) == "http"@ || lower_all(scheme) == "https"@ || lower_all(scheme)
                == "mailto"@
            &&& uri.len() > scheme.len() + 1
        },
        None => false,
    }
}

/// Whether a clicked link may be handed to the desktop's default handler. Every
/// scheme that a desktop registers is a program that would be started with an
/// argument of the sender's, so only the known ones are let through.
pub fn is_launchable_uri(uri: &str) -> (r: bool)
    ensures
        r == launchable(uri@),
{
    let v = chars_of(uri);
    let colon = skip_over(&v, 0, v.len(), Class::Not(':'));
    if colon >= v.len() {
        return false;
    }
    let lowered = lower_chars(slice_subrange(&v, 0, colon));
    let scheme = string_of(&lowered);
    let s = scheme.as_str();
    (same(s, "http") || same(s, "https") || same(s, "mailto")) && v.len() - colon > 1
}

// ----- Hosts -----

/// Behind all pairs of slashes that stand at `i`.
pub open spec fn behind_slashes(s: Seq<char>, i: int) -> int
    decreases s.len() - i,
{
    if i + 1 < s.len() && s[i] == '/' && s[i + 1] == '/' {
        behind_slashes(s, i + 2)
    } else {
        i
    }
}

/// What of a URL, or of a bare host name, may name a host: all of it without a
/// scheme, what stands behind the scheme of a web link, and nothing with another
/// scheme. A scheme has no dots: that is what sets `mailto:` apart from a bare
/// `example.com:8080`.
pub open spec fn web_part(text: Seq<char>) -> Option<Seq<char>> {
    let n = text.len() as int;
    let colon = skip(text, 0, n, Class::Not(':'));
    if 0 < colon < n && skip(text, 0, colon, Class::PlainScheme) == colon {
        let scheme = lower_all(text.subrange(0, colon));
        if scheme == "http"@ || scheme == "https"@ {
            Some(text.subrange(behind_slashes(text, colon + 1), n))
        } else {
            None
        }
    } else {
        Some(text)
    }
}

/// The host in that part: without path, query and fragment, without user
/// information and port, without trailing dots, and in lower case.
pub open spec fn host_name(part: Seq<char>) -> Seq<char> {
    let authority = part.subrange(0, skip(part, 0, part.len() as int, Class::Authority));
    let at = tail_start(authority, authority.len() as int, Class::Not('@'));
    let host_port = authority.subrange(at, authority.len() as int);
    let host = host_port.subrange(0, skip(host_port, 0, host_port.len() as int, Class::Not(':')));
    lower_all(host.subrange(0, tail_start(host, host.len() as int, Class::Only('.'))))
}

/// Whether it looks like a host: letters, digits and dashes, with a dot among them.
pub open spec fn host_like(host: Seq<char>) -> bool {
    &&& skip(host, 0, host.len() as int, Class::Not('.')) < host.len()
    &&& skip(host, 0, host.len() as int, Class::Host) == host.len()
}

/// The host of a URL or of a bare host name.
pub open spec fn host(text: Seq<char>) -> Option<Seq<char>> {
    match web_part(trim(text)) {
        Some(part) => if host_like(host_name(part)) {
            Some(host_name(part))
        } else {
            None
        },
        None => None,
    }
}

proof fn lemma_behind_slashes(s: Seq<char>, i: int)
    requires
        0 <= i <= s.len(),
    ensures
        i <= behind_slashes(s, i) <= s.len(),
    decreases s.len() - i,
{
    if i + 1 < s.len() && s[i] == '/' && s[i + 1] == '/' {
        lemma_behind_slashes(s, i + 2);
    }
}

fn read_web_part(t: &[char]) -> (r: Option<&[char]>)
    ensures
        match r {
            Some(p) => web_part(t@) == Some(p@),
            None => web_part(t@) is None,
        },
{
    let n = t.len();
    let colon = skip_over(t, 0, n, Class::Not(':'));
    if 0 < colon && colon < n && skip_over(t, 0, colon, Class::PlainScheme) == colon {
        let lowered = lower_chars(slice_subrange(t, 0, colon));
        let scheme = string_of(&lowered);
        if !same(scheme.as_str(), "http") && !same(scheme.as_str(), "https") {
            return None;
        }
        let mut i: usize = colon + 1;
        while n - i > 1 && t[i] == '/' && t[i + 1] == '/'
            invariant
                i <= n,
                n == t.len(),
                behind_slashes(t@, colon + 1) == behind_slashes(t@, i as int),
            decreases n - i,
        {
            i = i + 2;
        }
        Some(slice_subrange(t, i, n))
    } else {
        proof {
            assert(t@.subrange(0, n as int) =~= t@);
        }
        Some(slice_subrange(t, 0, n))
    }
}

/// The host name of a URL, or of a bare host name such as `paypal.com/login`.
pub fn host_of(text: &str) -> (r: Option<String>)
    ensures
        opt_text(r) == host(text@),
{
    let v = chars_of(text);
    let part = match read_web_part(trimmed(&v)) {
        Some(p) => p,
        None => {
            return None;
        },
    };
    let authority = slice_subrange(part, 0, skip_over(part, 0, part.len(), Class::Authority));
    let at = tail_of(authority, Class::Not('@'));
    let host_port = slice_subrange(authority, at, authority.len());
    let name = slice_subrange(host_port, 0, skip_over(host_port, 0, host_port.len(), Class::Not(':')));
    let bare = slice_subrange(name, 0, tail_of(name, Class::Only('.')));
    let lowered = lower_chars(bare);
    if skip_over(&lowered, 0, lowered.len(), Class::Not('.')) < lowered.len() && skip_over(
        &lowered,
        0,
        lowered.len(),
        Class::Host,
    ) == lowered.len() {
        Some(string_of(&lowered))
    } else {
        None
    }
}

/// Whether two hosts are of one site: the same, or one below the other.
pub open spec fn same_site(a: Seq<char>, b: Seq<char>) -> bool {
    a == b || ends(a, seq!['.'] + b) || ends(b, seq!['.'] + a)
}

/// The host that a link's label claims, where it names one other than the link's.
pub open spec fn claimed_host(uri: Seq<char>, label: Seq<char>) -> Option<Seq<char>> {
    match (host(trim(label)), host(uri)) {
        (Some(claimed), Some(actual)) => if same_site(actual, claimed) {
            None
        } else {
            Some(claimed)
        },
        _ => None,
    }
}

/// Whether the text ends with a dot and the other text.
fn below(a: &str, b: &str) -> (r: bool)
    ensures
        r == ends(a@, seq!['.'] + b@),
{
    let x = chars_of(a);
    let mut suffix: Vec<char> = vec!['.'];
    let mut rest = chars_of(b);
    suffix.append(&mut rest);
    proof {
        assert(suffix@ =~= seq!['.'] + b@);
    }
    if suffix.len() > x.len() {
        return false;
    }
    matches_at(&x, &suffix, x.len() - suffix.len())
}

/// The host that a link's visible text claims, when that text is itself a URL or a
/// bare host name pointing somewhere other than the link's real target.
pub fn mismatched_host(uri: &str, label: &str) -> (r: Option<String>)
    ensures
        opt_text(r) == claimed_host(uri@, label@),
{
    let claimed = match host_of(trimmed_string(label).as_str()) {
        Some(h) => h,
        None => {
            return None;
        },
    };
    let actual = match host_of(uri) {
        Some(h) => h,
        None => {
            return None;
        },
    };
    if same(actual.as_str(), claimed.as_str()) || below(actual.as_str(), claimed.as_str()) || below(
        claimed.as_str(),
        actual.as_str(),
    ) {
        None
    } else {
        Some(claimed)
    }
}

/// What a link preview shows: the destination, and a warning where the label claims
/// another site.
pub open spec fn destination(uri: Seq<char>, label: Option<Seq<char>>) -> Seq<char> {
    let claimed = match label {
        Some(l) => claimed_host(uri, l),
        None => None,
    };
    match claimed {
        Some(c) => uri + "  ⚠ looks like \""@ + c + "\" but goes to "@ + (match host(uri) {
            Some(h) => h,
            None => seq![],
        }),
        None => uri,
    }
}

/// What to show in the link preview: the destination, plus an explicit warning when
/// the link's visible text claims a different site than it goes to.
pub fn link_destination(uri: &str, label: Option<&str>) -> (out: String)
    ensures
        out@ == destination(
            uri@,
            match label {
                Some(l) => Some(l@),
                None => None,
            },
        ),
{
    let claimed: Option<String> = match label {
        Some(l) => mismatched_host(uri, l),
        None => None,
    };
    match claimed {
        Some(c) => {
            let mut out = copy_of(uri);
            out.append("  ⚠ looks like \"");
            out.append(c.as_str());
            out.append("\" but goes to ");
            match host_of(uri) {
                Some(h) => out.append(h.as_str()),
                None => {
                    proof {
                        assert(out@ + seq![] =~= out@);
                    }
                },
            }
            out
        },
        None => copy_of(uri),
    }
}

/// A link never claims to be another one than it is: a label that names the link's
/// own host, or one above or below it, brings no warning.
pub proof fn own_host_is_no_claim(uri: Seq<char>, label: Seq<char>)
    requires
        host(trim(label)) is None || host(uri) is None || same_site(
            host(uri)->0,
            host(trim(label))->0,
        ),
    ensures
        destination(uri, Some(label)) == uri,
{
}

/// A host is written in lower case, with letters, digits, dots and dashes alone:
/// no user information in front of an `@` and no port can stand in it.
pub proof fn host_is_plain(text: Seq<char>)
    requires
        host(text) is Some,
    ensures
        forall|i: int|
            0 <= i < host(text)->0.len() ==> Class::Host.has(#[trigger] host(text)->0[i])
                && crate::text::lower(host(text)->0[i]) == host(text)->0[i],
{
    let part = web_part(trim(text))->0;
    let h = host_name(part);
    lemma_skip(h, 0, h.len() as int, Class::Host);
}

// ----- Pictures in the document itself -----

/// What a `data:` URI holds: its media type in lower case, and its payload as it is
/// encoded.
pub struct DataUri {
    pub mime: String,
    pub payload: String,
}

/// Media type and payload of a `data:<mime>;base64,<payload>` URI.
pub open spec fn data_parts(uri: Seq<char>) -> Option<(Seq<char>, Seq<char>)> {
    let n = uri.len() as int;
    let comma = skip(uri, 5, n, Class::Not(','));
    if !(starts(uri, "data:"@) || starts(uri, "DATA:"@)) || comma >= n {
        None
    } else {
        let meta = uri.subrange(5, comma);
        let encoding = ";base64"@;
        if ends(meta, encoding) {
            Some(
                (
                    lower_all(meta.subrange(0, meta.len() - encoding.len())),
                    uri.subrange(comma + 1, n),
                ),
            )
        } else {
            None
        }
    }
}

/// Splits a `data:<mime>;base64,<payload>` URI. None for any other scheme, and for a
/// `data:` URI that is not base64.
pub fn split_data_uri(uri: &str) -> (r: Option<DataUri>)
    ensures
        (match r {
            Some(d) => Some((d.mime@, d.payload@)),
            None => None,
        }) == data_parts(uri@),
{
    proof {
        reveal_strlit("data:");
        reveal_strlit("DATA:");
    }
    let v = chars_of(uri);
    if !starts_with(&v, "data:") && !starts_with(&v, "DATA:") {
        return None;
    }
    let comma = skip_over(&v, 5, v.len(), Class::Not(','));
    if comma >= v.len() {
        return None;
    }
    let meta = slice_subrange(&v, 5, comma);
    let encoding = chars_of(";base64");
    if encoding.len() > meta.len() || !matches_at(meta, &encoding, meta.len() - encoding.len()) {
        return None;
    }
    let lowered = lower_chars(slice_subrange(meta, 0, meta.len() - encoding.len()));
    Some(
        DataUri {
            mime: string_of(&lowered),
            payload: string_of(slice_subrange(&v, comma + 1, v.len())),
        },
    )
}

/// The content of a `data:` URI whose payload was decoded: nothing where it held no
/// bytes.
pub fn data_content(mime: String, data: Vec<u8>) -> (r: Option<(String, Vec<u8>)>)
    ensures
        r == (if data@.len() == 0 {
            None::<(String, Vec<u8>)>
        } else {
            Some((mime, data))
        }),
{
    if data.len() == 0 {
        None
    } else {
        Some((mime, data))
    }
}

/// The extension of a picture's file: by its media type.
pub open spec fn image_extension(mime: Seq<char>) -> Seq<char> {
    if mime == "image/jpeg"@ {
        "jpg"@
    } else if mime == "image/svg+xml"@ {
        "svg"@
    } else {
        mime.subrange(tail_start(mime, mime.len() as int, Class::Not('/')), mime.len() as int)
    }
}

/// A sensible file name to fill the save dialog with: `image.<ext>`, by the media type.
pub fn default_image_name(mime: &str) -> (out: String)
    ensures
        out@ == "image."@ + image_extension(mime@),
{
    let v = chars_of(mime);
    let mut out = copy_of("image.");
    if same(mime, "image/jpeg") {
        out.append("jpg");
    } else if same(mime, "image/svg+xml") {
        out.append("svg");
    } else {
        let at = tail_of(&v, Class::Not('/'));
        out.append(string_of(slice_subrange(&v, at, v.len())).as_str());
    }
    out
}

} // verus!
