//! What the settings do, and where links lead.

use vstd::prelude::*;

use crate::links::{
    behind_slashes, data_parts, destination, host, host_like, host_name, image_extension, launchable,
    same_site,
};
use crate::preferences::{
    interval_at, kept_address, pref_step, MessageTheme, PrefInput, PrefOutput, PrefState,
};
use crate::text::{
    ends, is_blank, lemma_not_trimmed, lemma_skip, lemma_skip_to, lower, lower_all, skip, tail_start,
    Class,
};

verus! {

// ----- Settings -----

/// Each switch of the settings reports itself, with how it stands, and changes no list.
pub proof fn switches_report_themselves(s: PrefState, on: bool, secs: u64)
    ensures
        pref_step(s, PrefInput::ToggleGravatar(on)) == (s, Some(PrefOutput::<Seq<char>>::SetGravatar(on))),
        pref_step(s, PrefInput::ToggleThreading(on)) == (s, Some(PrefOutput::<Seq<char>>::SetThreading(on))),
        pref_step(s, PrefInput::ToggleThreadsExpanded(on)) == (
            s,
            Some(PrefOutput::<Seq<char>>::SetThreadsExpanded(on)),
        ),
        pref_step(s, PrefInput::TogglePush(on)) == (s, Some(PrefOutput::<Seq<char>>::SetPush(on))),
        pref_step(s, PrefInput::ToggleNotifications(on)) == (
            s,
            Some(PrefOutput::<Seq<char>>::SetNotifications(on)),
        ),
        pref_step(s, PrefInput::ChangePaletteCollapse(secs)) == (
            s,
            Some(PrefOutput::<Seq<char>>::SetPaletteCollapse(secs)),
        ),
{
}

/// How many minutes lie between two looks for mail, for each choice that is offered: by
/// hand, every minute, and every five, fifteen and thirty.
pub open spec fn minutes() -> Seq<int> {
    seq![0, 1, 5, 15, 30]
}

/// The themes in the order in which they are offered: the desktop's, light and dark.
pub open spec fn themes() -> Seq<MessageTheme> {
    seq![MessageTheme::System, MessageTheme::Light, MessageTheme::Dark]
}

/// A choice of the settings stands for what its label says.
pub proof fn choices_mean_what_they_say(s: PrefState, k: u32)
    ensures
        k < 5 ==> pref_step(s, PrefInput::ChangeFetchInterval(k)) == (
            s,
            Some(PrefOutput::<Seq<char>>::SetFetchInterval((60 * minutes()[k as int]) as u64)),
        ),
        k < 3 ==> pref_step(s, PrefInput::ChangeMessageTheme(k)) == (
            s,
            Some(PrefOutput::<Seq<char>>::SetMessageTheme(themes()[k as int])),
        ),
{
    if k < 5 {
        assert(interval_at(k) == 60 * minutes()[k as int]) by {
            assert(k == 0 || k == 1 || k == 2 || k == 3 || k == 4);
        }
    }
}

/// Who may load remote content and whose mail is deleted are lists of their own: what is
/// added to one or taken from it leaves the other as it was, and is reported as of that
/// one.
pub proof fn lists_are_apart(s: PrefState, text: String)
    ensures
        ({
            let addr = kept_address(text@);
            let (a, told) = pref_step(s, PrefInput::AddSenderText(text));
            &&& a.blacklist == s.blacklist
            &&& addr.len() > 0 ==> a.senders.contains(addr)
            &&& addr.len() > 0 && !s.senders.contains(addr) ==> told == Some(
                PrefOutput::<Seq<char>>::AddSender(addr),
            )
        }),
        ({
            let addr = kept_address(text@);
            let (a, told) = pref_step(s, PrefInput::AddBlacklistText(text));
            &&& a.senders == s.senders
            &&& addr.len() > 0 ==> a.blacklist.contains(addr)
            &&& addr.len() > 0 && !s.blacklist.contains(addr) ==> told == Some(
                PrefOutput::<Seq<char>>::AddBlacklist(addr),
            )
        }),
        ({
            let (a, told) = pref_step(s, PrefInput::RemoveSenderRow(text));
            &&& a.blacklist == s.blacklist
            &&& told matches Some(o) ==> o == PrefOutput::<Seq<char>>::RemoveSender(text@)
        }),
        ({
            let (a, told) = pref_step(s, PrefInput::RemoveBlacklistRow(text));
            &&& a.senders == s.senders
            &&& told matches Some(o) ==> o == PrefOutput::<Seq<char>>::RemoveBlacklist(text@)
        }),
{
    let addr = kept_address(text@);
    assert(s.senders.push(addr)[s.senders.len() as int] == addr);
    assert(s.blacklist.push(addr)[s.blacklist.len() as int] == addr);
}

// ----- Links -----

/// A link is opened if and only if it leads into the web or to an address to write to, in
/// whatever case that is written, and somewhere at all.
pub proof fn links_that_open(scheme: Seq<char>, rest: Seq<char>)
    requires
        forall|k: int| 0 <= k < scheme.len() ==> #[trigger] scheme[k] != ':',
    ensures
        launchable(scheme + seq![':'] + rest) <==> rest.len() > 0 && (lower_all(scheme) == "http"@
            || lower_all(scheme) == "https"@ || lower_all(scheme) == "mailto"@),
{
    let s = scheme + seq![':'] + rest;
    let n = s.len() as int;
    assert forall|x: int| 0 <= x < scheme.len() implies Class::Not(':').has(#[trigger] s[x]) by {
        assert(s[x] == scheme[x]);
    }
    lemma_skip_to(s, 0, scheme.len() as int, n, Class::Not(':'));
    assert(s.subrange(0, scheme.len() as int) =~= scheme);
}

/// A text without a scheme is no link that opens.
pub proof fn schemeless_opens_nothing(s: Seq<char>)
    requires
        forall|k: int| 0 <= k < s.len() ==> #[trigger] s[k] != ':',
    ensures
        !launchable(s),
{
    lemma_skip_to(s, 0, s.len() as int, s.len() as int, Class::Not(':'));
}

/// Whether a text is a host's name in lower case.
pub open spec fn is_host(h: Seq<char>) -> bool {
    &&& h.len() > 0
    &&& h.last() != '.'
    &&& h.contains('.')
    &&& forall|k: int| 0 <= k < h.len() ==> Class::Host.has(#[trigger] h[k]) && lower(h[k]) == h[k]
}

/// Whether a text can stand behind a host: nothing, or a port, a path, a query or a place.
pub open spec fn is_behind(r: Seq<char>) -> bool {
    r.len() > 0 ==> r[0] == ':' || r[0] == '/' || r[0] == '?' || r[0] == '#'
}

proof fn lemma_host_like(h: Seq<char>)
    requires
        is_host(h),
    ensures
        host_like(h),
        lower_all(h) == h,
        tail_start(h, h.len() as int, Class::Only('.')) == h.len(),
{
    let n = h.len() as int;
    lemma_skip_to(h, 0, n, n, Class::Host);
    let k = choose|k: int| 0 <= k < h.len() && h[k] == '.';
    lemma_skip(h, 0, n, Class::Not('.'));
    if skip(h, 0, n, Class::Not('.')) >= n {
        assert(Class::Not('.').has(h[k]));
    }
    assert(lower_all(h) =~= h);
}

/// Behind the host stands no `@` before the path begins.
pub open spec fn no_user_behind(r: Seq<char>) -> bool {
    forall|k: int|
        0 <= k < skip(r, 0, r.len() as int, Class::Authority) ==> #[trigger] r[k] != '@'
}

/// Whether a text can stand in front of a host: nothing, or who signs in there.
pub open spec fn is_user(u: Seq<char>) -> bool {
    u.len() > 0 ==> u.last() == '@' && forall|k: int|
        0 <= k < u.len() ==> Class::Authority.has(#[trigger] u[k]) && !is_blank(u[k])
}

proof fn lemma_user_end(s: Seq<char>, m: int, end: int)
    requires
        0 <= m <= end <= s.len(),
        m > 0 ==> s[m - 1] == '@',
        forall|k: int| m <= k < end ==> #[trigger] s[k] != '@',
    ensures
        tail_start(s, end, Class::Not('@')) == m,
    decreases end,
{
    if end > m {
        lemma_user_end(s, m, end - 1);
    }
}

proof fn lemma_host_name(u: Seq<char>, h: Seq<char>, r: Seq<char>)
    requires
        is_user(u),
        is_host(h),
        is_behind(r),
        no_user_behind(r),
    ensures
        host_name(u + h + r) == h,
{
    let part = u + h + r;
    let n = part.len() as int;
    let o = u.len() as int;
    let m = o + h.len();
    let e = skip(r, 0, r.len() as int, Class::Authority);
    lemma_skip(r, 0, r.len() as int, Class::Authority);
    assert forall|x: int| 0 <= x < m + e implies Class::Authority.has(#[trigger] part[x]) by {
        if x < o {
            assert(part[x] == u[x]);
        } else if x < m {
            assert(part[x] == h[x - o]);
            assert(Class::Host.has(h[x - o]));
        } else {
            assert(part[x] == r[x - m]);
        }
    }
    assert(m + e < n ==> part[m + e] == r[e]);
    lemma_skip_to(part, 0, m + e, n, Class::Authority);
    let authority = part.subrange(0, m + e);
    assert forall|k: int| o <= k < authority.len() implies #[trigger] authority[k] != '@' by {
        assert(authority[k] == part[k]);
        if k < m {
            assert(part[k] == h[k - o]);
            assert(Class::Host.has(h[k - o]));
        } else {
            assert(part[k] == r[k - m]);
        }
    }
    assert(o > 0 ==> authority[o - 1] == u[o - 1]);
    lemma_user_end(authority, o, authority.len() as int);
    let host_port = authority.subrange(o, authority.len() as int);
    let l = h.len() as int;
    assert forall|x: int| 0 <= x < l implies Class::Not(':').has(#[trigger] host_port[x]) by {
        assert(host_port[x] == h[x]);
        assert(Class::Host.has(h[x]));
    }
    if e > 0 {
        assert(r[0] == ':') by {
            assert(Class::Authority.has(r[0]));
        }
        assert(host_port[l] == part[m]);
    }
    lemma_skip_to(host_port, 0, l, host_port.len() as int, Class::Not(':'));
    assert(host_port.subrange(0, l) =~= h);
    lemma_host_like(h);
    assert(h.subrange(0, l) =~= h);
}

/// The host of a web address is the name behind its slashes and behind who signs in there,
/// whatever port, path or query stands behind that, and in whatever case the scheme is
/// written: a name in front of an `@` is none.
pub proof fn hosts_are_read(scheme: Seq<char>, u: Seq<char>, h: Seq<char>, r: Seq<char>)
    requires
        lower_all(scheme) == "http"@ || lower_all(scheme) == "https"@,
        is_user(u),
        is_host(h),
        is_behind(r),
        no_user_behind(r),
        r.len() > 0 ==> !is_blank(r.last()),
    ensures
        host(scheme + "://"@ + u + h + r) == Some(h),
{
    reveal_strlit("://");
    reveal_strlit("http");
    reveal_strlit("https");
    let s = scheme + "://"@ + u + h + r;
    let n = s.len() as int;
    let c = scheme.len() as int;
    assert(lower_all(scheme).len() == c);
    assert forall|x: int| 0 <= x < c implies Class::PlainScheme.has(#[trigger] s[x]) && Class::Not(
        ':',
    ).has(s[x]) && !is_blank(s[x]) by {
        assert(s[x] == scheme[x]);
        assert(lower_all(scheme)[x] == lower(scheme[x]));
    }
    assert(s[c] == ':' && s[c + 1] == '/' && s[c + 2] == '/');
    assert(s[c + 3] == (if u.len() > 0 {
        u[0]
    } else {
        h[0]
    }));
    assert(Class::Host.has(h[0]));
    assert(u.len() > 0 ==> Class::Authority.has(u[0]));
    assert(s.last() == (if r.len() > 0 {
        r.last()
    } else {
        h.last()
    }));
    assert(Class::Host.has(h[h.len() - 1]));
    lemma_not_trimmed(s);
    lemma_skip_to(s, 0, c, n, Class::Not(':'));
    lemma_skip_to(s, 0, c, c, Class::PlainScheme);
    assert(s.subrange(0, c) =~= scheme);
    reveal_with_fuel(behind_slashes, 3);
    assert(behind_slashes(s, c + 1) == c + 3);
    assert(s.subrange(c + 3, n) =~= u + h + r);
    lemma_host_name(u, h, r);
    lemma_host_like(h);
}

/// A link whose label names another site is shown with a warning that names both: where it
/// seems to lead and where it leads.
pub proof fn false_labels_are_told(
    scheme: Seq<char>,
    u: Seq<char>,
    h: Seq<char>,
    r: Seq<char>,
    other: Seq<char>,
    claimed: Seq<char>,
    q: Seq<char>,
)
    requires
        lower_all(scheme) == "http"@ || lower_all(scheme) == "https"@,
        lower_all(other) == "http"@ || lower_all(other) == "https"@,
        is_user(u),
        is_host(h) && is_behind(r) && no_user_behind(r) && (r.len() > 0 ==> !is_blank(r.last())),
        is_host(claimed) && is_behind(q) && no_user_behind(q) && (q.len() > 0 ==> !is_blank(q.last())),
        h != claimed,
        !ends(h, seq!['.'] + claimed),
        !ends(claimed, seq!['.'] + h),
    ensures
        destination(scheme + "://"@ + u + h + r, Some(other + "://"@ + claimed + q)) == scheme
            + "://"@ + u + h + r + "  ⚠ looks like \""@ + claimed + "\" but goes to "@ + h,
{
    hosts_are_read(scheme, u, h, r);
    hosts_are_read(other, seq![], claimed, q);
    assert(other + "://"@ + Seq::<char>::empty() + claimed + q =~= other + "://"@ + claimed + q);
    let label = other + "://"@ + claimed + q;
    reveal_strlit("http");
    reveal_strlit("https");
    reveal_strlit("://");
    assert(lower_all(other).len() == other.len());
    assert(label[0] == other[0]);
    assert(lower_all(other)[0] == lower(other[0]));
    assert(label.last() == (if q.len() > 0 {
        q.last()
    } else {
        claimed.last()
    }));
    assert(Class::Host.has(claimed[claimed.len() - 1]));
    lemma_not_trimmed(label);
}

/// A part of a site is no other site: neither in front of its name nor behind it.
pub proof fn parts_of_a_site_are_one(h: Seq<char>, sub: Seq<char>)
    ensures
        same_site(h, h),
        same_site(sub + seq!['.'] + h, h),
        same_site(h, sub + seq!['.'] + h),
{
    let whole = sub + seq!['.'] + h;
    let tail = seq!['.'] + h;
    assert(whole.subrange(whole.len() - tail.len(), whole.len() as int) =~= tail);
}

/// What a picture in a message's own text is and holds is read as it was written; the kind
/// in lower case.
pub proof fn inline_pictures_are_read(mime: Seq<char>, payload: Seq<char>)
    requires
        forall|k: int| 0 <= k < mime.len() ==> #[trigger] mime[k] != ',',
    ensures
        data_parts("data:"@ + mime + ";base64,"@ + payload) == Some((lower_all(mime), payload)),
        data_parts("data:"@ + mime + ","@ + payload) is Some ==> ends(mime, ";base64"@),
{
    reveal_strlit("data:");
    reveal_strlit(";base64,");
    reveal_strlit(";base64");
    reveal_strlit(",");
    let s = "data:"@ + mime + ";base64,"@ + payload;
    let n = s.len() as int;
    let comma = 12 + mime.len() as int;
    assert forall|x: int| 5 <= x < comma implies Class::Not(',').has(#[trigger] s[x]) by {
        if x < 5 + mime.len() {
            assert(s[x] == mime[x - 5]);
        }
    }
    lemma_skip_to(s, 5, comma, n, Class::Not(','));
    assert(s.subrange(0, 5) =~= "data:"@);
    let meta = s.subrange(5, comma);
    assert(meta.subrange(meta.len() - 7, meta.len() as int) =~= ";base64"@);
    assert(meta.subrange(0, meta.len() - 7) =~= mime);
    assert(s.subrange(comma + 1, n) =~= payload);
    let t = "data:"@ + mime + ","@ + payload;
    let m = 5 + mime.len() as int;
    assert forall|x: int| 5 <= x < m implies Class::Not(',').has(#[trigger] t[x]) by {
        assert(t[x] == mime[x - 5]);
    }
    lemma_skip_to(t, 5, m, t.len() as int, Class::Not(','));
    assert(t.subrange(5, m) =~= mime);
}

/// A picture is saved under the name of its kind, but for the two whose files are called
/// otherwise.
pub proof fn pictures_are_named_by_kind(kind: Seq<char>)
    requires
        forall|k: int| 0 <= k < kind.len() ==> #[trigger] kind[k] != '/',
    ensures
        image_extension("image/"@ + kind) == (if kind == "jpeg"@ {
            "jpg"@
        } else if kind == "svg+xml"@ {
            "svg"@
        } else {
            kind
        }),
{
    reveal_strlit("image/");
    reveal_strlit("image/jpeg");
    reveal_strlit("image/svg+xml");
    reveal_strlit("jpeg");
    reveal_strlit("svg+xml");
    let mime = "image/"@ + kind;
    assert("image/jpeg"@ =~= "image/"@ + "jpeg"@);
    assert("image/svg+xml"@ =~= "image/"@ + "svg+xml"@);
    assert(mime.subrange(6, mime.len() as int) =~= kind);
    if mime == "image/jpeg"@ {
        assert(kind =~= "jpeg"@);
    }
    if mime == "image/svg+xml"@ {
        assert(kind =~= "svg+xml"@);
    }
    lemma_last_slash(mime, mime.len() as int);
}

proof fn lemma_last_slash(s: Seq<char>, end: int)
    requires
        6 <= end <= s.len(),
        s[5] == '/',
        forall|k: int| 6 <= k < end ==> #[trigger] s[k] != '/',
    ensures
        tail_start(s, end, Class::Not('/')) == 6,
    decreases end,
{
    if end > 6 {
        lemma_last_slash(s, end - 1);
    }
}

} // verus!
