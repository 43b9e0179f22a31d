//! What is found of a message's remote content, told from the documents themselves.

use vstd::prelude::*;

use crate::remote::{
    attribute_at, behind_element, blocked, body_start, closing_tag, css_import_places, css_places, css_url_places, css_value_end, css_value_start, depth_behind,
    fetching, harmless, if_remote, import_word, in_order, is_remote, pass, put, remote_places, rewritten, sheet_places, srcset_places, stripped,
    style_close, tag_places, text_end, url_open, url_places, value_places, walk_places, Attribute, Place,
};
use crate::markup::tag_stands;
use crate::stripping::{lemma_begins_blocked, lemma_blocked};
use crate::text::{
    find_ci, is_blank, lemma_find_ci, lemma_not_trimmed, lemma_skip_to, lemma_stands, lower, lower_all,
    skip, stands_at_ci, starts, Class,
};

verus! {

// ----- A document of one tag -----

/// The document of one tag with one attribute; `q` is what stands around its value.
#[verifier::opaque]
pub open spec fn lone_tag(t: Seq<char>, a: Seq<char>, q: Seq<char>, w: Seq<char>) -> Seq<char> {
    "<"@ + t + " "@ + a + "="@ + q + w + q + ">"@
}

/// Where the value stands in the document of one tag.
pub open spec fn value_place(t: Seq<char>, a: Seq<char>, q: Seq<char>, w: Seq<char>) -> Place {
    let k = t.len() + a.len() + q.len() + 3;
    (k as int, (k + w.len()) as int)
}

pub open spec fn is_tag_name(t: Seq<char>) -> bool {
    t.len() > 0 && forall|k: int| 0 <= k < t.len() ==> Class::TagName.has(#[trigger] t[k])
}

pub open spec fn is_attribute_name(a: Seq<char>) -> bool {
    a.len() > 0 && forall|k: int| 0 <= k < a.len() ==> Class::AttrName.has(#[trigger] a[k])
}

/// Whether a value can stand between these quotes, or without any where `q` is empty.
pub open spec fn fits(q: Seq<char>, w: Seq<char>) -> bool {
    &&& w.len() > 0
    &&& if q.len() == 0 {
        &&& w[0] != '"'
        &&& w[0] != '\''
        &&& forall|k: int| 0 <= k < w.len() ==> Class::Unquoted.has(#[trigger] w[k])
    } else {
        &&& q == "\""@ || q == "'"@
        &&& forall|k: int| 0 <= k < w.len() ==> #[trigger] w[k] != q[0]
    }
}

/// Where everything stands in the document of one tag.
#[verifier::opaque]
pub open spec fn laid_out(s: Seq<char>, t: Seq<char>, a: Seq<char>, q: Seq<char>, w: Seq<char>) -> bool {
    let j = t.len() as int + 2;
    let k = value_place(t, a, q, w).0;
    let n = s.len() as int;
    &&& n == k + w.len() + q.len() + 1
    &&& s[0] == '<'
    &&& s[j - 1] == ' '
    &&& s[j + a.len()] == '='
    &&& s[n - 1] == '>'
    &&& s.subrange(1, j - 1) == t
    &&& s.subrange(j, j + a.len()) == a
    &&& s.subrange(k, k + w.len()) == w
    &&& forall|x: int| 1 <= x < j - 1 ==> #[trigger] s[x] == t[x - 1]
    &&& forall|x: int| j <= x < j + a.len() ==> #[trigger] s[x] == a[x - j]
    &&& forall|x: int| k <= x < k + w.len() ==> #[trigger] s[x] == w[x - k]
    &&& q.len() <= 1
    &&& q.len() == 1 ==> s[k - 1] == q[0] && s[n - 2] == q[0] && (q[0] == '"' || q[0] == '\'')
}

pub proof fn lemma_laid_out(t: Seq<char>, a: Seq<char>, q: Seq<char>, w: Seq<char>)
    requires
        fits(q, w),
    ensures
        laid_out(lone_tag(t, a, q, w), t, a, q, w),
{
    reveal(lone_tag);
    reveal(laid_out);
    reveal_strlit("<");
    reveal_strlit(" ");
    reveal_strlit("=");
    reveal_strlit(">");
    reveal_strlit("\"");
    reveal_strlit("'");
    let s = lone_tag(t, a, q, w);
    let j = t.len() as int + 2;
    let k = value_place(t, a, q, w).0;
    assert(s.subrange(1, j - 1) =~= t);
    assert(s.subrange(j, j + a.len()) =~= a);
    assert(s.subrange(k, k + w.len()) =~= w);
}

pub proof fn lemma_attribute_here(s: Seq<char>, t: Seq<char>, a: Seq<char>, q: Seq<char>, w: Seq<char>)
    requires
        laid_out(s, t, a, q, w),
        is_attribute_name(a),
        fits(q, w),
    ensures
        attribute_at(s, t.len() as int + 2) == (Attribute {
            name_end: t.len() as int + 2 + a.len(),
            valued: true,
            start: value_place(t, a, q, w).0,
            end: value_place(t, a, q, w).1,
            next: s.len() - 1,
        }),
{
    reveal(laid_out);
    let n = s.len() as int;
    let j = t.len() as int + 2;
    let eq = j + a.len();
    let k = value_place(t, a, q, w).0;
    let end = value_place(t, a, q, w).1;
    assert forall|x: int| j <= x < eq implies Class::AttrName.has(#[trigger] s[x]) by {
        assert(s[x] == a[x - j]);
    }
    lemma_skip_to(s, j, eq, n, Class::AttrName);
    assert(skip(s, eq, n, Class::Space) == eq);
    assert(s[k] == w[0]);
    if q.len() == 0 {
        assert(Class::Unquoted.has(w[0]));
        assert(skip(s, k, n, Class::Space) == k);
        assert forall|x: int| k <= x < end implies Class::Unquoted.has(#[trigger] s[x]) by {
            assert(s[x] == w[x - k]);
        }
        lemma_skip_to(s, k, end, n, Class::Unquoted);
    } else {
        assert(skip(s, k - 1, n, Class::Space) == k - 1);
        assert forall|x: int| k <= x < end implies Class::Not(q[0]).has(#[trigger] s[x]) by {
            assert(s[x] == w[x - k]);
        }
        lemma_skip_to(s, k, end, n, Class::Not(q[0]));
    }
}

proof fn lemma_tag_here(s: Seq<char>, t: Seq<char>, a: Seq<char>, q: Seq<char>, w: Seq<char>)
    requires
        laid_out(s, t, a, q, w),
        is_attribute_name(a),
        fits(q, w),
    ensures
        tag_places(s, lower_all(t), t.len() as int + 1) == (
            value_places(
                s,
                lower_all(t),
                lower_all(a),
                value_place(t, a, q, w).0,
                value_place(t, a, q, w).1,
            ),
            s.len() - 1,
        ),
{
    lemma_attribute_here(s, t, a, q, w);
    reveal(laid_out);
    let n = s.len() as int;
    let j = t.len() as int + 2;
    let p = value_place(t, a, q, w);
    let tag = lower_all(t);
    let found = value_places(s, tag, lower_all(a), p.0, p.1);
    assert(s[j] == a[0]);
    assert(Class::AttrName.has(a[0]));
    assert(tag_places(s, tag, n - 1) == (Seq::<Place>::empty(), n - 1));
    assert(tag_places(s, tag, j) == (found + Seq::<Place>::empty(), n - 1));
    assert(found + Seq::<Place>::empty() =~= found);
}

pub proof fn lemma_walk_end(s: Seq<char>, depth: nat)
    ensures
        walk_places(s, s.len() as int, depth) == Seq::<Place>::empty(),
        s.len() > 0 && s.last() == '>' ==> walk_places(s, s.len() - 1, depth) == Seq::<Place>::empty(),
{
    assert(walk_places(s, s.len() as int, depth) == Seq::<Place>::empty());
}

pub proof fn lemma_behind_end(s: Seq<char>, tag: Seq<char>)
    requires
        s.len() > 0,
        s.last() == '>',
    ensures
        sheet_places(s, tag, true, s.len() - 1) == Seq::<Place>::empty(),
        behind_element(s, tag, true, s.len() - 1, 0) == s.len() || behind_element(
            s,
            tag,
            true,
            s.len() - 1,
            0,
        ) == s.len() - 1,
{
    let n = s.len() as int;
    assert(css_places(s, n, n) =~= Seq::<Place>::empty());
    assert(body_start(s, n - 1) == n);
    assert(text_end(s, closing_tag(tag), n) == n);
    assert(text_end(s, style_close(), n) == n);
}

/// A walk over a text that is one tag.
proof fn lemma_walk_tag(s: Seq<char>, ne: int, found: Seq<Place>)
    requires
        s.len() > 2,
        s[0] == '<',
        s[1] != '/' && s[1] != '!' && s[1] != '?',
        s.last() == '>',
        1 < ne == skip(s, 1, s.len() as int, Class::TagName),
        tag_places(s, lower_all(s.subrange(1, ne)), ne) == (found, s.len() - 1),
    ensures
        walk_places(s, 0, 0) == found,
{
    let n = s.len() as int;
    let tag = lower_all(s.subrange(1, ne));
    lemma_behind_end(s, tag);
    let next = behind_element(s, tag, true, n - 1, 0);
    let depth = depth_behind(s, tag, true, ne, 0);
    lemma_walk_end(s, depth);
    assert(walk_places(s, 0, 0) == found + sheet_places(s, tag, true, n - 1) + walk_places(
        s,
        next,
        depth,
    ));
    assert(found + Seq::<Place>::empty() + Seq::<Place>::empty() =~= found);
}

pub proof fn lemma_tag_begins(s: Seq<char>, t: Seq<char>, a: Seq<char>, q: Seq<char>, w: Seq<char>)
    requires
        laid_out(s, t, a, q, w),
        is_tag_name(t),
    ensures
        s.len() > 2,
        s[0] == '<',
        s[1] != '/' && s[1] != '!' && s[1] != '?',
        s.last() == '>',
        skip(s, 1, s.len() as int, Class::TagName) == t.len() + 1,
        s.subrange(1, t.len() as int + 1) == t,
        s.subrange(value_place(t, a, q, w).0, value_place(t, a, q, w).1) == w,
        value_place(t, a, q, w).1 <= s.len(),
{
    reveal(laid_out);
    let n = s.len() as int;
    let ne = t.len() as int + 1;
    assert(s[1] == t[0]);
    assert(Class::TagName.has(t[0]));
    assert forall|x: int| 1 <= x < ne implies Class::TagName.has(#[trigger] s[x]) by {
        assert(s[x] == t[x - 1]);
    }
    lemma_skip_to(s, 1, ne, n, Class::TagName);
}

/// What is remote in the document of one tag is what its attribute's value has.
proof fn lemma_lone_tag(t: Seq<char>, a: Seq<char>, q: Seq<char>, w: Seq<char>)
    requires
        is_tag_name(t),
        is_attribute_name(a),
        fits(q, w),
    ensures
        ({
            let s = lone_tag(t, a, q, w);
            let p = value_place(t, a, q, w);
            &&& s.subrange(p.0, p.1) == w
            &&& p.1 <= s.len()
            &&& walk_places(s, 0, 0) == value_places(s, lower_all(t), lower_all(a), p.0, p.1)
        }),
{
    let s = lone_tag(t, a, q, w);
    let tag = lower_all(t);
    let p = value_place(t, a, q, w);
    lemma_laid_out(t, a, q, w);
    lemma_tag_here(s, t, a, q, w);
    lemma_tag_begins(s, t, a, q, w);
    lemma_walk_tag(s, t.len() as int + 1, value_places(s, tag, lower_all(a), p.0, p.1));
}

// ----- One remote address -----

/// Whether an address leads into the web.
pub open spec fn leads_out(u: Seq<char>) -> bool {
    starts(lower_all(u), "http://"@) || starts(lower_all(u), "https://"@)
}

/// Whether a text has no white space.
pub open spec fn unspaced(u: Seq<char>) -> bool {
    forall|k: int| 0 <= k < u.len() ==> !is_blank(#[trigger] u[k])
}

proof fn lemma_scheme(u: Seq<char>, colon: int)
    requires
        unspaced(u),
        0 < colon < u.len(),
        u[colon] == ':',
        forall|k: int| 0 <= k < colon ==> Class::Scheme.has(#[trigger] u[k]),
    ensures
        is_remote(u) == !harmless(lower_all(u.subrange(0, colon))),
{
    lemma_not_trimmed(u);
    assert(Class::Scheme.has(u[0]));
    assert forall|k: int| 0 <= k < colon implies Class::Not(':').has(#[trigger] u[k]) by {
        assert(Class::Scheme.has(u[k]));
    }
    lemma_skip_to(u, 0, colon, u.len() as int, Class::Not(':'));
    lemma_skip_to(u, 0, colon, colon, Class::Scheme);
}

proof fn lemma_web_schemes()
    ensures
        !harmless("http"@),
        !harmless("https"@),
{
    reveal_strlit("http");
    reveal_strlit("https");
    reveal_strlit("data");
    reveal_strlit("cid");
    reveal_strlit("blocked");
    reveal_strlit("mailto");
    reveal_strlit("tel");
    reveal_strlit("about");
    reveal_strlit("javascript");
    assert("data"@[0] == 'd' && "about"@[0] == 'a' && "http"@[0] == 'h' && "https"@[0] == 'h');
    assert("cid"@.len() == 3 && "blocked"@.len() == 7 && "mailto"@.len() == 6 && "tel"@.len() == 3
        && "javascript"@.len() == 10);
}

proof fn lemma_lower_scheme(c: char)
    ensures
        'a' <= lower(c) && lower(c) <= 'z' ==> Class::Scheme.has(c),
        lower(c) == ':' ==> c == ':',
{
}

/// An address that leads into the web is remote.
pub proof fn web_is_remote(u: Seq<char>)
    requires
        unspaced(u),
        leads_out(u),
    ensures
        is_remote(u),
{
    reveal_strlit("http://");
    reveal_strlit("https://");
    reveal_strlit("http");
    reveal_strlit("https");
    lemma_web_schemes();
    let l = lower_all(u);
    let p = if starts(l, "http://"@) {
        "http://"@
    } else {
        "https://"@
    };
    let colon = p.len() - 3;
    assert(l.subrange(0, p.len() as int) == p);
    assert forall|k: int| 0 <= k < p.len() implies lower(#[trigger] u[k]) == p[k] by {
        assert(l.subrange(0, p.len() as int)[k] == l[k]);
    }
    lemma_lower_scheme(u[colon]);
    assert forall|k: int| 0 <= k < colon implies Class::Scheme.has(#[trigger] u[k]) by {
        lemma_lower_scheme(u[k]);
        assert('a' <= p[k] && p[k] <= 'z');
    }
    lemma_scheme(u, colon);
    let scheme = lower_all(u.subrange(0, colon));
    assert(scheme =~= p.subrange(0, colon));
    assert(scheme =~= "http"@ || scheme =~= "https"@);
}

pub proof fn lemma_url_here(s: Seq<char>, p: Place, w: Seq<char>)
    requires
        0 <= p.0 < p.1 <= s.len(),
        s.subrange(p.0, p.1) == w,
        unspaced(w),
    ensures
        url_places(s, p.0, p.1) == (if is_remote(w) {
            seq![p]
        } else {
            seq![]
        }),
{
    assert(w[0] == s[p.0]);
    assert(!is_blank(w[0]));
    assert(skip(s, p.0, p.1, Class::Space) == p.0);
    assert forall|x: int| p.0 <= x < p.1 implies Class::NotSpace.has(#[trigger] s[x]) by {
        assert(w[x - p.0] == s[x]);
    }
    lemma_skip_to(s, p.0, p.1, p.1, Class::NotSpace);
}

/// A text in which one place is found, and none once it is rewritten, is stripped of it.
pub proof fn lemma_stripped_one(s: Seq<char>, p: Place, t: Seq<char>)
    requires
        0 <= p.0 < p.1 <= s.len(),
        remote_places(s) == seq![p],
        t == s.subrange(0, p.0) + blocked() + s.subrange(p.1, s.len() as int),
        remote_places(t) == Seq::<Place>::empty(),
    ensures
        stripped(s) == t,
{
    reveal_with_fuel(stripped, 2);
    let found = seq![p];
    assert(found.drop_first() =~= Seq::<Place>::empty());
    reveal_with_fuel(rewritten, 2);
    assert(rewritten(s, p.1, found.drop_first()) == s.subrange(p.1, s.len() as int));
    assert(pass(s) == t);
}

pub proof fn lemma_one_in_order(p: Place)
    ensures
        in_order(seq![p]) == seq![p],
        in_order(Seq::<Place>::empty()) == Seq::<Place>::empty(),
{
    reveal_with_fuel(in_order, 2);
    assert(seq![p].drop_last() =~= Seq::<Place>::empty());
    assert(put(Seq::<Place>::empty(), p) =~= seq![p]);
}

proof fn lemma_blocked_tag(t: Seq<char>, a: Seq<char>, q: Seq<char>, u: Seq<char>)
    requires
        fits(q, u),
    ensures
        fits(q, blocked()),
        unspaced(blocked()),
        !is_remote(blocked()),
        ({
            let s = lone_tag(t, a, q, u);
            let p = value_place(t, a, q, u);
            lone_tag(t, a, q, blocked()) == s.subrange(0, p.0) + blocked() + s.subrange(
                p.1,
                s.len() as int,
            )
        }),
{
    reveal(lone_tag);
    lemma_blocked();
    lemma_begins_blocked(blocked());
    reveal_strlit("<");
    reveal_strlit(" ");
    reveal_strlit("=");
    reveal_strlit(">");
    reveal_strlit("\"");
    reveal_strlit("'");
    let s = lone_tag(t, a, q, u);
    let p = value_place(t, a, q, u);
    assert(lone_tag(t, a, q, blocked()) =~= s.subrange(0, p.0) + blocked() + s.subrange(
        p.1,
        s.len() as int,
    ));
}

// ----- Attributes that load -----

/// Whether a tag loads what the attribute names: the address of something to show or run,
/// and of what the document is joined to.
pub open spec fn loads(tag: Seq<char>, attr: Seq<char>) -> bool {
    ||| attr == "src"@
    ||| attr == "poster"@
    ||| attr == "background"@
    ||| attr == "lowsrc"@
    ||| attr == "dynsrc"@
    ||| attr == "codebase"@
    ||| attr == "xlink:href"@
    ||| attr == "data"@ && tag == "object"@
    ||| attr == "href"@ && (tag == "link"@ || tag == "image"@ || tag == "use"@ || tag == "feimage"@
        || tag == "base"@)
}

pub proof fn lemma_loads(tag: Seq<char>, attr: Seq<char>)
    requires
        loads(tag, attr),
    ensures
        fetching(tag, attr),
        attr != "srcset"@ && attr != "imagesrcset"@ && attr != "style"@,
{
    reveal_strlit("src");
    reveal_strlit("poster");
    reveal_strlit("background");
    reveal_strlit("lowsrc");
    reveal_strlit("dynsrc");
    reveal_strlit("codebase");
    reveal_strlit("xlink:href");
    reveal_strlit("data");
    reveal_strlit("href");
    reveal_strlit("srcset");
    reveal_strlit("imagesrcset");
    reveal_strlit("style");
    assert("srcset"@[0] == 's' && "poster"@[0] == 'p' && "lowsrc"@[0] == 'l' && "dynsrc"@[0] == 'd');
    assert("srcset"@.len() == 6 && "imagesrcset"@.len() == 11 && "style"@.len() == 5);
    assert("src"@.len() == 3 && "background"@.len() == 10 && "codebase"@.len() == 8
        && "xlink:href"@.len() == 10 && "data"@.len() == 4 && "href"@.len() == 4);
}

/// What a tag would load from the web is found and taken out, whatever the tag, in
/// whatever case its names are written, and between quotes of either kind or none: of the
/// document nothing else changes.
pub proof fn loaded_addresses_are_withheld(t: Seq<char>, a: Seq<char>, q: Seq<char>, u: Seq<char>)
    requires
        is_tag_name(t),
        is_attribute_name(a),
        loads(lower_all(t), lower_all(a)),
        fits(q, u),
        unspaced(u),
        leads_out(u),
    ensures
        remote_places(lone_tag(t, a, q, u)) == seq![value_place(t, a, q, u)],
        stripped(lone_tag(t, a, q, u)) == lone_tag(t, a, q, "blocked://"@),
{
    let s = lone_tag(t, a, q, u);
    let p = value_place(t, a, q, u);
    lemma_loads(lower_all(t), lower_all(a));
    web_is_remote(u);
    lemma_lone_tag(t, a, q, u);
    lemma_url_here(s, p, u);
    lemma_one_in_order(p);
    lemma_blocked_tag(t, a, q, u);
    let z = lone_tag(t, a, q, blocked());
    lemma_lone_tag(t, a, q, blocked());
    lemma_url_here(z, value_place(t, a, q, blocked()), blocked());
    lemma_stripped_one(s, p, z);
}

/// An address that a tag does not load, such as that of a link, stays as it stands.
pub proof fn other_attributes_stay(t: Seq<char>, a: Seq<char>, q: Seq<char>, w: Seq<char>)
    requires
        is_tag_name(t),
        is_attribute_name(a),
        !loads(lower_all(t), lower_all(a)),
        lower_all(a) != "srcset"@,
        lower_all(a) != "imagesrcset"@,
        lower_all(a) != "style"@,
        fits(q, w),
    ensures
        remote_places(lone_tag(t, a, q, w)) == Seq::<Place>::empty(),
        stripped(lone_tag(t, a, q, w)) == lone_tag(t, a, q, w),
{
    lemma_lone_tag(t, a, q, w);
    lemma_one_in_order((0, 0));
}

// ----- Schemes -----

/// Whether what an address names is in the message itself, or nothing that is fetched.
pub open spec fn stays_here(scheme: Seq<char>) -> bool {
    ||| scheme == "data"@
    ||| scheme == "cid"@
    ||| scheme == "blocked"@
    ||| scheme == "mailto"@
    ||| scheme == "tel"@
    ||| scheme == "about"@
    ||| scheme == "javascript"@
}

/// What is fetched from an address is decided by its scheme, in whatever case: all but a
/// few lead out of the message.
pub proof fn scheme_decides(u: Seq<char>, scheme: Seq<char>)
    requires
        unspaced(u),
        scheme.len() > 0,
        forall|k: int| 0 <= k < scheme.len() ==> Class::Scheme.has(#[trigger] scheme[k]),
        starts(u, scheme + ":"@),
    ensures
        is_remote(u) <==> !stays_here(lower_all(scheme)),
{
    reveal_strlit(":");
    let whole = scheme + ":"@;
    let colon = scheme.len() as int;
    assert(u.subrange(0, colon + 1) == whole);
    assert forall|k: int| 0 <= k <= colon implies #[trigger] u[k] == whole[k] by {
        assert(u.subrange(0, colon + 1)[k] == u[k]);
    }
    assert forall|k: int| 0 <= k < colon implies Class::Scheme.has(#[trigger] u[k]) by {
        assert(u[k] == scheme[k]);
    }
    lemma_scheme(u, colon);
    assert(u.subrange(0, colon) =~= scheme);
}

/// An address without a scheme leads out only where it names a host, behind two slashes.
pub proof fn bare_addresses_stay(u: Seq<char>)
    requires
        u.len() > 0,
        unspaced(u),
        forall|k: int| 0 <= k < u.len() ==> #[trigger] u[k] != ':',
    ensures
        is_remote(u) <==> starts(u, "//"@),
{
    reveal_strlit("//");
    lemma_not_trimmed(u);
    lemma_skip_to(u, 0, u.len() as int, u.len() as int, Class::Not(':'));
    if u.len() >= 2 {
        let two = u.subrange(0, 2);
        assert(two[0] == u[0] && two[1] == u[1]);
        if u[0] == '/' && u[1] == '/' {
            assert(two =~= "//"@);
        }
    }
}

/// In an attribute that loads, an address is taken out if and only if it is remote.
pub proof fn remote_addresses_are_withheld(t: Seq<char>, a: Seq<char>, q: Seq<char>, u: Seq<char>)
    requires
        is_tag_name(t),
        is_attribute_name(a),
        loads(lower_all(t), lower_all(a)),
        fits(q, u),
        unspaced(u),
    ensures
        stripped(lone_tag(t, a, q, u)) == (if is_remote(u) {
            lone_tag(t, a, q, "blocked://"@)
        } else {
            lone_tag(t, a, q, u)
        }),
{
    let s = lone_tag(t, a, q, u);
    let p = value_place(t, a, q, u);
    lemma_loads(lower_all(t), lower_all(a));
    lemma_lone_tag(t, a, q, u);
    lemma_url_here(s, p, u);
    lemma_one_in_order(p);
    if is_remote(u) {
        lemma_blocked_tag(t, a, q, u);
        let z = lone_tag(t, a, q, blocked());
        lemma_lone_tag(t, a, q, blocked());
        lemma_url_here(z, value_place(t, a, q, blocked()), blocked());
        lemma_stripped_one(s, p, z);
    }
}

// ----- Lists of pictures -----

/// Whether a text can stand behind an address in a list of pictures: nothing, or a width or
/// a density behind a space.
pub open spec fn is_descriptor(d: Seq<char>) -> bool {
    &&& d.len() > 0 ==> d[0] == ' '
    &&& forall|k: int| 0 <= k < d.len() ==> #[trigger] d[k] != ','
}

/// Whether a text can be an address in a list of pictures.
pub open spec fn is_listed(u: Seq<char>) -> bool {
    &&& u.len() > 0
    &&& unspaced(u)
    &&& forall|k: int| 0 <= k < u.len() ==> #[trigger] u[k] != ','
}

/// A list of two pictures.
#[verifier::opaque]
pub open spec fn two_pictures(u: Seq<char>, d: Seq<char>, v: Seq<char>, e: Seq<char>) -> Seq<char> {
    u + d + ", "@ + v + e
}

proof fn lemma_candidate(s: Seq<char>, at: int, a: int, b: int, end: int)
    requires
        0 <= at <= a < b <= end <= s.len(),
        at == a || (a == at + 1 && s[at] == ' '),
        unspaced(s.subrange(a, b)),
        b == end || s[b] == ' ',
    ensures
        url_places(s, at, end) == if_remote(s, a, b),
{
    let w = s.subrange(a, b);
    assert(w[0] == s[a]);
    assert(!is_blank(w[0]));
    assert(skip(s, a, end, Class::Space) == a);
    assert(skip(s, at, end, Class::Space) == a);
    assert forall|x: int| a <= x < b implies Class::NotSpace.has(#[trigger] s[x]) by {
        assert(w[x - a] == s[x]);
    }
    lemma_skip_to(s, a, b, end, Class::NotSpace);
}

proof fn lemma_two(s: Seq<char>, k: int, u: Seq<char>, d: Seq<char>, v: Seq<char>, e: Seq<char>)
    requires
        is_listed(u),
        is_listed(v),
        is_descriptor(d),
        is_descriptor(e),
        0 <= k,
        k + two_pictures(u, d, v, e).len() <= s.len(),
        s.subrange(k, k + two_pictures(u, d, v, e).len()) == two_pictures(u, d, v, e),
    ensures
        ({
            let end = k + two_pictures(u, d, v, e).len();
            let x = k + u.len() + d.len() + 2;
            &&& s.subrange(k, k + u.len()) == u
            &&& s.subrange(x, x + v.len()) == v
            &&& srcset_places(s, k, end) == if_remote(s, k, k + u.len()) + if_remote(
                s,
                x,
                x + v.len(),
            )
        }),
{
    reveal(two_pictures);
    reveal_strlit(", ");
    let all = two_pictures(u, d, v, e);
    let end = k + all.len();
    let comma = k + u.len() + d.len();
    let x = comma + 2;
    assert forall|y: int| k <= y < end implies #[trigger] s[y] == all[y - k] by {
        assert(s.subrange(k, end)[y - k] == s[y]);
    }
    assert(s.subrange(k, k + u.len()) =~= u);
    assert(s.subrange(x, x + v.len()) =~= v);
    assert forall|y: int| k <= y < comma implies Class::Not(',').has(#[trigger] s[y]) by {
        if y < k + u.len() {
            assert(s[y] == u[y - k]);
        } else {
            assert(s[y] == d[y - k - u.len()]);
        }
    }
    assert(s[comma] == ',' && s[comma + 1] == ' ');
    lemma_skip_to(s, k, comma, end, Class::Not(','));
    assert forall|y: int| comma + 1 <= y < end implies Class::Not(',').has(#[trigger] s[y]) by {
        if comma + 1 < y && y < x + v.len() {
            assert(s[y] == v[y - x]);
        } else if y >= x + v.len() {
            assert(s[y] == e[y - x - v.len()]);
        }
    }
    lemma_skip_to(s, comma + 1, end, end, Class::Not(','));
    if d.len() > 0 {
        assert(s[k + u.len()] == d[0]);
    }
    if e.len() > 0 {
        assert(s[x + v.len()] == e[0]);
    }
    lemma_candidate(s, k, k, k + u.len(), comma);
    lemma_candidate(s, comma + 1, x, x + v.len(), end);
    let none = Seq::<Place>::empty();
    assert(srcset_places(s, end + 1, end) == none);
    assert(srcset_places(s, comma + 1, end) == if_remote(s, x, x + v.len()) + none);
    assert(if_remote(s, x, x + v.len()) + none =~= if_remote(s, x, x + v.len()));
}

proof fn lemma_fits_two(q: Seq<char>, u: Seq<char>, d: Seq<char>, v: Seq<char>, e: Seq<char>)
    requires
        q.len() > 0,
        fits(q, two_pictures(u, d, v, e)),
    ensures
        fits(q, two_pictures(blocked(), d, blocked(), e)),
        is_listed(blocked()),
        !is_remote(blocked()),
{
    reveal(two_pictures);
    lemma_blocked();
    lemma_begins_blocked(blocked());
    reveal_strlit(", ");
    reveal_strlit("\"");
    reveal_strlit("'");
    let had = two_pictures(u, d, v, e);
    let now = two_pictures(blocked(), d, blocked(), e);
    assert forall|k: int| 0 <= k < now.len() implies #[trigger] now[k] != q[0] by {
        if 10 <= k < 10 + d.len() {
            assert(now[k] == had[k - 10 + u.len()]);
        } else if k >= 22 + d.len() {
            assert(now[k] == had[k - 20 + u.len() + v.len()]);
        }
    }
}

proof fn lemma_two_in_order(a: Place, b: Place)
    requires
        a.0 < b.0,
    ensures
        in_order(seq![a] + seq![b]) == seq![a, b],
{
    lemma_one_in_order(a);
    let both = seq![a] + seq![b];
    assert(both.drop_last() =~= seq![a]);
    assert(seq![a].push(b) =~= seq![a, b]);
}

proof fn lemma_rewritten_two(s: Seq<char>, a: Place, b: Place)
    requires
        0 <= a.0 <= a.1 <= b.0 <= b.1 <= s.len(),
    ensures
        rewritten(s, 0, seq![a, b]) == s.subrange(0, a.0) + blocked() + s.subrange(a.1, b.0)
            + blocked() + s.subrange(b.1, s.len() as int),
{
    let both = seq![a, b];
    assert(both.drop_first() =~= seq![b]);
    assert(seq![b].drop_first() =~= Seq::<Place>::empty());
    reveal_with_fuel(rewritten, 3);
    assert(rewritten(s, 0, both) =~= s.subrange(0, a.0) + blocked() + s.subrange(a.1, b.0)
        + blocked() + s.subrange(b.1, s.len() as int));
}

/// Each address of a list of pictures is taken out, and what stands behind it stays.
pub proof fn listed_pictures_are_withheld(
    t: Seq<char>,
    a: Seq<char>,
    q: Seq<char>,
    u: Seq<char>,
    d: Seq<char>,
    v: Seq<char>,
    e: Seq<char>,
)
    requires
        is_tag_name(t),
        is_attribute_name(a),
        lower_all(a) == "srcset"@ || lower_all(a) == "imagesrcset"@,
        q.len() > 0,
        fits(q, two_pictures(u, d, v, e)),
        is_listed(u) && leads_out(u),
        is_listed(v) && leads_out(v),
        is_descriptor(d),
        is_descriptor(e),
    ensures
        stripped(lone_tag(t, a, q, two_pictures(u, d, v, e))) == lone_tag(
            t,
            a,
            q,
            two_pictures("blocked://"@, d, "blocked://"@, e),
        ),
{
    let w = two_pictures(u, d, v, e);
    let s = lone_tag(t, a, q, w);
    let k = value_place(t, a, q, w).0;
    web_is_remote(u);
    web_is_remote(v);
    lemma_listed(t, a, q, u, d, v, e);
    lemma_fits_two(q, u, d, v, e);
    lemma_listed(t, a, q, blocked(), d, blocked(), e);
    lemma_two_replaced(t, a, q, u, d, v, e);
    let x = k + u.len() + d.len() + 2;
    lemma_stripped_two(
        s,
        (k, k + u.len()),
        (x, x + v.len()),
        lone_tag(t, a, q, two_pictures(blocked(), d, blocked(), e)),
    );
}

/// A text in which two places are found, and none once they are rewritten, is stripped of
/// them.
proof fn lemma_stripped_two(s: Seq<char>, one: Place, two: Place, z: Seq<char>)
    requires
        0 <= one.0 <= one.1 <= two.0 <= two.1 <= s.len(),
        remote_places(s) == seq![one, two],
        remote_places(z) == Seq::<Place>::empty(),
        z == s.subrange(0, one.0) + blocked() + s.subrange(one.1, two.0) + blocked() + s.subrange(
            two.1,
            s.len() as int,
        ),
    ensures
        stripped(s) == z,
{
    lemma_rewritten_two(s, one, two);
    assert(pass(s) == z);
    assert(stripped(z) == z);
}

proof fn lemma_listed(
    t: Seq<char>,
    a: Seq<char>,
    q: Seq<char>,
    u: Seq<char>,
    d: Seq<char>,
    v: Seq<char>,
    e: Seq<char>,
)
    requires
        is_tag_name(t),
        is_attribute_name(a),
        lower_all(a) == "srcset"@ || lower_all(a) == "imagesrcset"@,
        fits(q, two_pictures(u, d, v, e)),
        is_listed(u),
        is_listed(v),
        is_descriptor(d),
        is_descriptor(e),
        is_remote(u) == is_remote(v),
    ensures
        ({
            let w = two_pictures(u, d, v, e);
            let s = lone_tag(t, a, q, w);
            let k = value_place(t, a, q, w).0;
            let x = k + u.len() + d.len() + 2;
            &&& x + v.len() <= s.len()
            &&& remote_places(s) == (if is_remote(u) {
                seq![(k, k + u.len()), (x, x + v.len())]
            } else {
                seq![]
            })
        }),
{
    let w = two_pictures(u, d, v, e);
    let s = lone_tag(t, a, q, w);
    let k = value_place(t, a, q, w).0;
    let x = k + u.len() + d.len() + 2;
    lemma_two_length(u, d, v, e);
    lemma_lone_tag(t, a, q, w);
    lemma_found_two(s, k, u, d, v, e);
}

proof fn lemma_found_two(s: Seq<char>, k: int, u: Seq<char>, d: Seq<char>, v: Seq<char>, e: Seq<char>)
    requires
        is_listed(u),
        is_listed(v),
        is_descriptor(d),
        is_descriptor(e),
        is_remote(u) == is_remote(v),
        0 <= k,
        k + two_pictures(u, d, v, e).len() <= s.len(),
        s.subrange(k, k + two_pictures(u, d, v, e).len()) == two_pictures(u, d, v, e),
        walk_places(s, 0, 0) == srcset_places(s, k, k + two_pictures(u, d, v, e).len()),
    ensures
        ({
            let x = k + u.len() + d.len() + 2;
            remote_places(s) == (if is_remote(u) {
                seq![(k, k + u.len()), (x, x + v.len())]
            } else {
                seq![]
            })
        }),
{
    let x = k + u.len() + d.len() + 2;
    lemma_two_length(u, d, v, e);
    lemma_two(s, k, u, d, v, e);
    lemma_pair(s, (k, k + u.len()), (x, x + v.len()), u, v);
}

proof fn lemma_pair(s: Seq<char>, one: Place, two: Place, u: Seq<char>, v: Seq<char>)
    requires
        0 <= one.0 < one.1 <= two.0 < two.1 <= s.len(),
        s.subrange(one.0, one.1) == u,
        s.subrange(two.0, two.1) == v,
        is_remote(u) == is_remote(v),
    ensures
        in_order(if_remote(s, one.0, one.1) + if_remote(s, two.0, two.1)) == (if is_remote(u) {
            seq![one, two]
        } else {
            seq![]
        }),
{
    lemma_two_in_order(one, two);
    lemma_one_in_order(one);
    assert(Seq::<Place>::empty() + Seq::<Place>::empty() =~= Seq::<Place>::empty());
}

proof fn lemma_two_length(u: Seq<char>, d: Seq<char>, v: Seq<char>, e: Seq<char>)
    ensures
        two_pictures(u, d, v, e).len() == u.len() + d.len() + 2 + v.len() + e.len(),
{
    reveal(two_pictures);
    reveal_strlit(", ");
}

proof fn lemma_two_replaced(
    t: Seq<char>,
    a: Seq<char>,
    q: Seq<char>,
    u: Seq<char>,
    d: Seq<char>,
    v: Seq<char>,
    e: Seq<char>,
)
    ensures
        ({
            let s = lone_tag(t, a, q, two_pictures(u, d, v, e));
            let k = value_place(t, a, q, two_pictures(u, d, v, e)).0;
            let x = k + u.len() + d.len() + 2;
            lone_tag(t, a, q, two_pictures(blocked(), d, blocked(), e)) == s.subrange(0, k)
                + blocked() + s.subrange(k + u.len(), x) + blocked() + s.subrange(
                x + v.len(),
                s.len() as int,
            )
        }),
{
    reveal(lone_tag);
    reveal(two_pictures);
    reveal_strlit("<");
    reveal_strlit(" ");
    reveal_strlit("=");
    reveal_strlit(">");
    reveal_strlit(", ");
    let s = lone_tag(t, a, q, two_pictures(u, d, v, e));
    let k = value_place(t, a, q, two_pictures(u, d, v, e)).0;
    let x = k + u.len() + d.len() + 2;
    assert(s.subrange(0, k) =~= "<"@ + t + " "@ + a + "="@ + q);
    assert(s.subrange(k + u.len(), x) =~= d + ", "@);
    assert(s.subrange(x + v.len(), s.len() as int) =~= e + q + ">"@);
    assert(lone_tag(t, a, q, two_pictures(blocked(), d, blocked(), e)) =~= ("<"@ + t + " "@ + a
        + "="@ + q) + blocked() + (d + ", "@) + blocked() + (e + q + ">"@));
}

// ----- Stylesheets -----

/// A part of a stylesheet that names an address; `f` is how `url(` is written and `q` what
/// stands around the address.
#[verifier::opaque]
pub open spec fn sheet_with(
    pre: Seq<char>,
    f: Seq<char>,
    q: Seq<char>,
    u: Seq<char>,
    post: Seq<char>,
) -> Seq<char> {
    pre + f + q + u + q + ")"@ + post
}

/// Whether a part of a stylesheet names no address.
pub open spec fn names_nothing(c: Seq<char>) -> bool {
    forall|k: int| 0 <= k < c.len() ==> #[trigger] c[k] != '(' && c[k] != '@'
}

/// Whether a text can be an address in a stylesheet.
pub open spec fn is_sheet_address(u: Seq<char>) -> bool {
    &&& u.len() > 0
    &&& unspaced(u)
    &&& names_nothing(u)
    &&& forall|k: int| 0 <= k < u.len() ==> #[trigger] u[k] != ')' && u[k] != '"' && u[k] != '\''
}

pub proof fn lemma_lower_plain(c: char)
    ensures
        (lower(c) == '(') == (c == '('),
        (lower(c) == '@') == (c == '@'),
        (lower(c) == '<') == (c == '<'),
{
}

/// Where everything stands in a part of a stylesheet.
#[verifier::opaque]
spec fn sheet_laid_out(s: Seq<char>, x: int, end: int, open: int, a: int, b: int) -> bool {
    &&& 0 <= x <= open - 3
    &&& open + 1 <= a < b < end <= s.len()
    &&& stands_at_ci(s, url_open(), open - 3)
    &&& forall|y: int| x <= y < end ==> (#[trigger] s[y] == '(') == (y == open)
    &&& forall|y: int| x <= y < end ==> #[trigger] s[y] != '@'
    &&& unspaced(s.subrange(a, b))
    &&& forall|y: int| a <= y < b ==> #[trigger] s[y] != ')' && s[y] != '"' && s[y] != '\''
    &&& (a == open + 1 && s[b] == ')') || (a == open + 2 && s[b] == s[a - 1] && (s[b] == '"' || s[b]
        == '\''))
}

proof fn lemma_css_here(s: Seq<char>, x: int, end: int, open: int, a: int, b: int)
    requires
        sheet_laid_out(s, x, end, open, a, b),
    ensures
        css_places(s, x, end) == if_remote(s, a, b),
{
    reveal(sheet_laid_out);
    let p = open - 3;
    let w = s.subrange(a, b);
    assert forall|j: int| x <= j && j + 4 <= end && stands_at_ci(s, url_open(), j) implies j == p by {
        lemma_stands(s, url_open(), j, 3);
        lemma_lower_plain(s[j + 3]);
    }
    lemma_find_ci(s, url_open(), x, end);
    assert(find_ci(s, url_open(), x, end) == Some(p));
    assert(w[0] == s[a]);
    assert(!is_blank(w[0]));
    assert forall|y: int| a <= y < b implies !is_blank(#[trigger] s[y]) by {
        assert(w[y - a] == s[y]);
    }
    if a == open + 1 {
        assert(skip(s, a, end, Class::Space) == a);
        lemma_skip_to(s, a, b, end, Class::NotNorSpace(')'));
    } else {
        assert(skip(s, a - 1, end, Class::Space) == a - 1);
        lemma_skip_to(s, a, b, end, Class::Not(s[a - 1]));
    }
    assert(css_value_start(s, p + 4, end) == a);
    assert(css_value_end(s, p + 4, end) == b);
    lemma_find_ci(s, url_open(), b, end);
    assert(css_url_places(s, b, end) == Seq::<Place>::empty());
    lemma_find_ci(s, import_word(), x, end);
    if let Some(j) = find_ci(s, import_word(), x, end) {
        lemma_stands(s, import_word(), j, 0);
        lemma_lower_plain(s[j]);
    }
    assert(css_import_places(s, x, end) == Seq::<Place>::empty());
    assert(if_remote(s, a, b) + Seq::<Place>::empty() =~= if_remote(s, a, b));
}

proof fn lemma_sheet_laid_out(
    s: Seq<char>,
    x: int,
    pre: Seq<char>,
    f: Seq<char>,
    q: Seq<char>,
    u: Seq<char>,
    post: Seq<char>,
)
    requires
        names_nothing(pre),
        names_nothing(post),
        lower_all(f) == "url("@,
        q == ""@ || q == "\""@ || q == "'"@,
        is_sheet_address(u),
        0 <= x,
        x + sheet_with(pre, f, q, u, post).len() <= s.len(),
        s.subrange(x, x + sheet_with(pre, f, q, u, post).len()) == sheet_with(pre, f, q, u, post),
    ensures
        ({
            let a = x + pre.len() + 4 + q.len();
            &&& sheet_laid_out(
                s,
                x,
                x + sheet_with(pre, f, q, u, post).len(),
                x + pre.len() + 3,
                a,
                a + u.len(),
            )
            &&& s.subrange(a, a + u.len()) == u
            &&& a + u.len() <= s.len()
        }),
{
    reveal(sheet_with);
    reveal(sheet_laid_out);
    reveal_strlit("url(");
    reveal_strlit("");
    reveal_strlit("\"");
    reveal_strlit("'");
    reveal_strlit(")");
    let c = sheet_with(pre, f, q, u, post);
    let end = x + c.len();
    let open = x + pre.len() + 3;
    let a = open + 1 + q.len();
    let b = a + u.len();
    assert(f.len() == lower_all(f).len());
    assert forall|y: int| x <= y < end implies #[trigger] s[y] == c[y - x] by {
        assert(s.subrange(x, end)[y - x] == s[y]);
    }
    assert(s.subrange(a, b) =~= u);
    assert(s.subrange(open - 3, open + 1) =~= f);
    assert(lower_all(f) =~= url_open());
    assert forall|y: int| 0 <= y < 4 implies lower(#[trigger] f[y]) == "url("@[y] by {
        assert(lower_all(f)[y] == lower(f[y]));
    }
    lemma_lower_plain(f[0]);
    lemma_lower_plain(f[1]);
    lemma_lower_plain(f[2]);
    lemma_lower_plain(f[3]);
    assert forall|y: int| x <= y < end implies (#[trigger] s[y] == '(') == (y == open) && s[y] != '@' by {
        if y < x + pre.len() {
            assert(s[y] == pre[y - x]);
        } else if y <= open {
            assert(s[y] == f[y - x - pre.len()]);
        } else if a <= y < b {
            assert(s[y] == u[y - a]);
        } else if y > b + q.len() {
            assert(s[y] == post[y - b - q.len() - 1]);
        }
    }
    assert forall|y: int| a <= y < b implies #[trigger] s[y] != ')' && s[y] != '"' && s[y] != '\'' by {
        assert(s[y] == u[y - a]);
    }
}

/// An address that a `style` attribute names is taken out of it, and nothing else.
pub proof fn styled_addresses_are_withheld(
    t: Seq<char>,
    a: Seq<char>,
    q: Seq<char>,
    pre: Seq<char>,
    f: Seq<char>,
    r: Seq<char>,
    u: Seq<char>,
    post: Seq<char>,
)
    requires
        is_tag_name(t),
        is_attribute_name(a),
        lower_all(a) == "style"@,
        fits(q, sheet_with(pre, f, r, u, post)),
        fits(q, sheet_with(pre, f, r, "blocked://"@, post)),
        names_nothing(pre),
        names_nothing(post),
        lower_all(f) == "url("@,
        r == ""@ || r == "\""@ || r == "'"@,
        is_sheet_address(u),
        leads_out(u),
    ensures
        stripped(lone_tag(t, a, q, sheet_with(pre, f, r, u, post))) == lone_tag(
            t,
            a,
            q,
            sheet_with(pre, f, r, "blocked://"@, post),
        ),
{
    let w = sheet_with(pre, f, r, u, post);
    let s = lone_tag(t, a, q, w);
    let z = lone_tag(t, a, q, sheet_with(pre, f, r, blocked(), post));
    let k = value_place(t, a, q, w).0;
    let at = k + pre.len() + 4 + r.len();
    let p: Place = (at, at + u.len());
    web_is_remote(u);
    lemma_blocked();
    lemma_begins_blocked(blocked());
    lemma_styled(t, a, q, pre, f, r, u, post);
    lemma_styled(t, a, q, pre, f, r, blocked(), post);
    lemma_one_in_order(p);
    reveal_strlit("url(");
    assert(lower_all(f).len() == f.len());
    lemma_styled_replaced(t, a, q, pre, f, r, u, post);
    lemma_stripped_one(s, p, z);
}

proof fn lemma_styled(
    t: Seq<char>,
    a: Seq<char>,
    q: Seq<char>,
    pre: Seq<char>,
    f: Seq<char>,
    r: Seq<char>,
    u: Seq<char>,
    post: Seq<char>,
)
    requires
        is_tag_name(t),
        is_attribute_name(a),
        lower_all(a) == "style"@,
        fits(q, sheet_with(pre, f, r, u, post)),
        names_nothing(pre),
        names_nothing(post),
        lower_all(f) == "url("@,
        r == ""@ || r == "\""@ || r == "'"@,
        is_sheet_address(u),
    ensures
        ({
            let w = sheet_with(pre, f, r, u, post);
            let s = lone_tag(t, a, q, w);
            let k = value_place(t, a, q, w).0;
            let at = k + pre.len() + 4 + r.len();
            &&& 0 <= at < at + u.len() <= s.len()
            &&& remote_places(s) == (if is_remote(u) {
                seq![(at, at + u.len())]
            } else {
                seq![]
            })
        }),
{
    let w = sheet_with(pre, f, r, u, post);
    let s = lone_tag(t, a, q, w);
    let k = value_place(t, a, q, w).0;
    let at = k + pre.len() + 4 + r.len();
    lemma_lone_tag(t, a, q, w);
    lemma_sheet_laid_out(s, k, pre, f, r, u, post);
    lemma_css_here(s, k, k + w.len(), k + pre.len() + 3, at, at + u.len());
    lemma_one_in_order((at, at + u.len()));
    lemma_style_name();
}

proof fn lemma_style_name()
    ensures
        "style"@ != "srcset"@,
        "style"@ != "imagesrcset"@,
{
    reveal_strlit("style");
    reveal_strlit("srcset");
    reveal_strlit("imagesrcset");
    assert("style"@.len() == 5 && "srcset"@.len() == 6 && "imagesrcset"@.len() == 11);
}

proof fn lemma_styled_replaced(
    t: Seq<char>,
    a: Seq<char>,
    q: Seq<char>,
    pre: Seq<char>,
    f: Seq<char>,
    r: Seq<char>,
    u: Seq<char>,
    post: Seq<char>,
)
    requires
        f.len() == 4,
    ensures
        ({
            let w = sheet_with(pre, f, r, u, post);
            let s = lone_tag(t, a, q, w);
            let at = value_place(t, a, q, w).0 + pre.len() + 4 + r.len();
            lone_tag(t, a, q, sheet_with(pre, f, r, blocked(), post)) == s.subrange(0, at)
                + blocked() + s.subrange(at + u.len(), s.len() as int)
        }),
{
    reveal(lone_tag);
    reveal(sheet_with);
    reveal_strlit("<");
    reveal_strlit(" ");
    reveal_strlit("=");
    reveal_strlit(">");
    reveal_strlit(")");
    let w = sheet_with(pre, f, r, u, post);
    let s = lone_tag(t, a, q, w);
    let at = value_place(t, a, q, w).0 + pre.len() + 4 + r.len();
    assert(s.subrange(0, at) =~= "<"@ + t + " "@ + a + "="@ + q + pre + f + r);
    assert(s.subrange(at + u.len(), s.len() as int) =~= r + ")"@ + post + q + ">"@);
    assert(lone_tag(t, a, q, sheet_with(pre, f, r, blocked(), post)) =~= ("<"@ + t + " "@ + a
        + "="@ + q + pre + f + r) + blocked() + (r + ")"@ + post + q + ">"@));
}

/// The document of one stylesheet.
#[verifier::opaque]
pub open spec fn lone_sheet(c: Seq<char>) -> Seq<char> {
    "<style>"@ + c + "</style>"@
}

/// Whether a stylesheet holds no `<`.
pub open spec fn unbracketed(c: Seq<char>) -> bool {
    forall|k: int| 0 <= k < c.len() ==> #[trigger] c[k] != '<'
}

#[verifier::opaque]
spec fn sheet_stands(s: Seq<char>, c: Seq<char>) -> bool {
    let e = 7 + c.len() as int;
    &&& s.len() == e + 8
    &&& s.subrange(0, 7) == "<style>"@
    &&& s.subrange(7, e) == c
    &&& s.subrange(e, e + 8) == "</style>"@
}

proof fn lemma_sheet_stands(c: Seq<char>)
    ensures
        sheet_stands(lone_sheet(c), c),
{
    reveal(sheet_stands);
    reveal(lone_sheet);
    reveal_strlit("<style>");
    reveal_strlit("</style>");
    let s = lone_sheet(c);
    let e = 7 + c.len() as int;
    assert(s.subrange(0, 7) =~= "<style>"@);
    assert(s.subrange(7, e) =~= c);
    assert(s.subrange(e, e + 8) =~= "</style>"@);
}

proof fn lemma_sheet_letters(s: Seq<char>, c: Seq<char>)
    requires
        sheet_stands(s, c),
        unbracketed(c),
    ensures
        ({
            let e = 7 + c.len() as int;
            &&& s.len() == e + 8
            &&& s.subrange(7, e) == c
            &&& s[0] == '<' && s[1] == 's' && s[6] == '>'
            &&& s[e] == '<' && s[e + 1] == '/' && s[e + 7] == '>'
            &&& forall|x: int| 7 <= x < e ==> #[trigger] s[x] != '<'
            &&& skip(s, 1, s.len() as int, Class::TagName) == 6
            &&& skip(s, e + 2, s.len() as int, Class::TagName) == e + 7
            &&& lower_all(s.subrange(1, 6)) == "style"@
            &&& lower_all(s.subrange(e + 2, e + 7)) == "style"@
            &&& tag_stands(s, style_close(), e)
        }),
{
    reveal(sheet_stands);
    reveal_strlit("<style>");
    reveal_strlit("</style>");
    reveal_strlit("style");
    let e = 7 + c.len() as int;
    let top = "<style>"@;
    let bottom = "</style>"@;
    assert forall|x: int| 0 <= x < 7 implies #[trigger] s[x] == top[x] by {
        assert(s.subrange(0, 7)[x] == s[x]);
    }
    assert forall|x: int| e <= x < e + 8 implies #[trigger] s[x] == bottom[x - e] by {
        assert(s.subrange(e, e + 8)[x - e] == s[x]);
    }
    assert forall|x: int| 7 <= x < e implies #[trigger] s[x] != '<' by {
        assert(s.subrange(7, e)[x - 7] == s[x]);
    }
    lemma_skip_to(s, 1, 6, s.len() as int, Class::TagName);
    lemma_skip_to(s, e + 2, e + 7, s.len() as int, Class::TagName);
    assert(lower_all(s.subrange(1, 6)) =~= "style"@);
    assert(lower_all(s.subrange(e + 2, e + 7)) =~= "style"@);
    assert(lower_all(s.subrange(e, e + 7)) =~= style_close());
}

proof fn lemma_text_runs(s: Seq<char>, close: Seq<char>, i: int, e: int)
    requires
        0 <= i <= e < s.len(),
        close.len() > 0,
        close[0] == '<',
        forall|x: int| i <= x < e ==> #[trigger] s[x] != '<',
        tag_stands(s, close, e),
    ensures
        text_end(s, close, i) == e,
    decreases e - i,
{
    if i < e {
        if tag_stands(s, close, i) {
            lemma_stands(s, close, i, 0);
            lemma_lower_plain(s[i]);
        }
        lemma_text_runs(s, close, i + 1, e);
    }
}

proof fn lemma_close_walk(s: Seq<char>, e: int, depth: nat)
    requires
        0 <= e,
        s.len() == e + 8,
        s[e] == '<' && s[e + 1] == '/' && s[e + 7] == '>',
        skip(s, e + 2, s.len() as int, Class::TagName) == e + 7,
        lower_all(s.subrange(e + 2, e + 7)) == "style"@,
    ensures
        walk_places(s, e, depth) == Seq::<Place>::empty(),
{
    let none = Seq::<Place>::empty();
    let tag = "style"@;
    assert(tag_places(s, tag, e + 7) == (none, e + 7));
    let deeper = depth_behind(s, tag, false, e + 7, depth);
    lemma_walk_end(s, deeper);
    assert(behind_element(s, tag, false, e + 7, depth) == e + 7);
    assert(walk_places(s, e, depth) == none + none + walk_places(s, e + 7, deeper));
    assert(none + none + none =~= none);
}

proof fn lemma_open_walk(s: Seq<char>, e: int, depth: nat)
    requires
        7 <= e < s.len(),
        s[0] == '<' && s[1] == 's' && s[6] == '>',
        skip(s, 1, s.len() as int, Class::TagName) == 6,
        lower_all(s.subrange(1, 6)) == "style"@,
        text_end(s, style_close(), 7) == e,
        forall|depth: nat| #[trigger] walk_places(s, e, depth) == Seq::<Place>::empty(),
    ensures
        walk_places(s, 0, 0) == css_places(s, 7, e),
{
    let none = Seq::<Place>::empty();
    let tag = "style"@;
    let found = css_places(s, 7, e);
    assert(tag_places(s, tag, 6) == (none, 6int));
    assert(body_start(s, 6) == 7);
    assert(sheet_places(s, tag, true, 6) == found);
    let deeper = depth_behind(s, tag, true, 6, 0);
    assert(walk_places(s, e, deeper) == none);
    assert(behind_element(s, tag, true, 6, 0) == e);
    assert(walk_places(s, 0, 0) == none + found + walk_places(s, e, deeper));
    assert(none + found + none =~= found);
}

/// What is remote in the document of one stylesheet is what the stylesheet names.
proof fn lemma_lone_sheet(c: Seq<char>)
    requires
        unbracketed(c),
    ensures
        ({
            let s = lone_sheet(c);
            let e = 7 + c.len() as int;
            &&& e < s.len()
            &&& s.subrange(7, e) == c
            &&& walk_places(s, 0, 0) == css_places(s, 7, e)
        }),
{
    let s = lone_sheet(c);
    let e = 7 + c.len() as int;
    lemma_sheet_stands(c);
    lemma_sheet_letters(s, c);
    lemma_text_runs(s, style_close(), 7, e);
    assert forall|depth: nat| #[trigger] walk_places(s, e, depth) == Seq::<Place>::empty() by {
        lemma_close_walk(s, e, depth);
    }
    lemma_open_walk(s, e, 0);
}

proof fn lemma_sheet_found(pre: Seq<char>, f: Seq<char>, r: Seq<char>, u: Seq<char>, post: Seq<char>)
    requires
        unbracketed(sheet_with(pre, f, r, u, post)),
        names_nothing(pre),
        names_nothing(post),
        lower_all(f) == "url("@,
        r == ""@ || r == "\""@ || r == "'"@,
        is_sheet_address(u),
    ensures
        ({
            let s = lone_sheet(sheet_with(pre, f, r, u, post));
            let at = 11 + pre.len() as int + r.len();
            &&& at + u.len() <= s.len()
            &&& remote_places(s) == (if is_remote(u) {
                seq![(at, at + u.len())]
            } else {
                seq![]
            })
        }),
{
    let c = sheet_with(pre, f, r, u, post);
    let s = lone_sheet(c);
    let at = 11 + pre.len() as int + r.len();
    lemma_lone_sheet(c);
    lemma_sheet_laid_out(s, 7, pre, f, r, u, post);
    lemma_css_here(s, 7, 7 + c.len() as int, 10 + pre.len() as int, at, at + u.len());
    lemma_one_in_order((at, at + u.len()));
}

/// An address that a stylesheet names is taken out of it, and nothing else.
pub proof fn sheet_addresses_are_withheld(
    pre: Seq<char>,
    f: Seq<char>,
    r: Seq<char>,
    u: Seq<char>,
    post: Seq<char>,
)
    requires
        unbracketed(sheet_with(pre, f, r, u, post)),
        names_nothing(pre),
        names_nothing(post),
        lower_all(f) == "url("@,
        r == ""@ || r == "\""@ || r == "'"@,
        is_sheet_address(u),
        leads_out(u),
    ensures
        stripped(lone_sheet(sheet_with(pre, f, r, u, post))) == lone_sheet(
            sheet_with(pre, f, r, "blocked://"@, post),
        ),
{
    let s = lone_sheet(sheet_with(pre, f, r, u, post));
    let z = lone_sheet(sheet_with(pre, f, r, blocked(), post));
    let at = 11 + pre.len() as int + r.len();
    web_is_remote(u);
    lemma_blocked();
    lemma_begins_blocked(blocked());
    lemma_sheet_replaced(pre, f, r, u, post);
    lemma_sheet_found(pre, f, r, u, post);
    lemma_sheet_found(pre, f, r, blocked(), post);
    lemma_stripped_one(s, (at, at + u.len()), z);
}

proof fn lemma_sheet_replaced(
    pre: Seq<char>,
    f: Seq<char>,
    r: Seq<char>,
    u: Seq<char>,
    post: Seq<char>,
)
    requires
        lower_all(f) == "url("@,
        unbracketed(sheet_with(pre, f, r, u, post)),
    ensures
        unbracketed(sheet_with(pre, f, r, blocked(), post)),
        ({
            let s = lone_sheet(sheet_with(pre, f, r, u, post));
            let at = 11 + pre.len() as int + r.len();
            lone_sheet(sheet_with(pre, f, r, blocked(), post)) == s.subrange(0, at) + blocked()
                + s.subrange(at + u.len(), s.len() as int)
        }),
{
    reveal(lone_sheet);
    reveal(sheet_with);
    reveal_strlit("url(");
    reveal_strlit("<style>");
    reveal_strlit("</style>");
    reveal_strlit(")");
    lemma_blocked();
    assert(lower_all(f).len() == f.len());
    let had = sheet_with(pre, f, r, u, post);
    let now = sheet_with(pre, f, r, blocked(), post);
    let s = lone_sheet(had);
    let a = pre.len() as int + 4 + r.len();
    assert forall|k: int| 0 <= k < now.len() implies #[trigger] now[k] != '<' by {
        if k < a {
            assert(now[k] == had[k]);
        } else if k >= a + 10 {
            assert(now[k] == had[k - 10 + u.len()]);
        }
    }
    let at = 7 + a;
    assert(s.subrange(0, at) =~= "<style>"@ + pre + f + r);
    assert(s.subrange(at + u.len(), s.len() as int) =~= r + ")"@ + post + "</style>"@);
    assert(lone_sheet(now) =~= ("<style>"@ + pre + f + r) + blocked() + (r + ")"@ + post
        + "</style>"@));
}

// ----- Imported stylesheets -----

/// A stylesheet that imports another; `f` is how `@import` is written and `q` what stands
/// around the address.
#[verifier::opaque]
pub open spec fn sheet_importing(
    pre: Seq<char>,
    f: Seq<char>,
    q: Seq<char>,
    u: Seq<char>,
    post: Seq<char>,
) -> Seq<char> {
    pre + f + " "@ + q + u + q + post
}

#[verifier::opaque]
spec fn import_laid_out(s: Seq<char>, x: int, end: int, at: int, a: int, b: int) -> bool {
    &&& 0 <= x <= at
    &&& at + 9 == a
    &&& a < b < end <= s.len()
    &&& stands_at_ci(s, import_word(), at)
    &&& s[at + 7] == ' '
    &&& s[at + 8] == '"' || s[at + 8] == '\''
    &&& s[b] == s[at + 8]
    &&& forall|y: int| x <= y < end ==> (#[trigger] s[y] == '@') == (y == at)
    &&& forall|y: int| x <= y < end ==> #[trigger] s[y] != '('
    &&& forall|y: int| a <= y < b ==> #[trigger] s[y] != s[at + 8]
}

proof fn lemma_import_here(s: Seq<char>, x: int, end: int, at: int, a: int, b: int)
    requires
        import_laid_out(s, x, end, at, a, b),
    ensures
        css_places(s, x, end) == if_remote(s, a, b),
{
    reveal(import_laid_out);
    let none = Seq::<Place>::empty();
    assert forall|j: int|
        x <= j && j + 7 <= end && stands_at_ci(s, import_word(), j) implies j == at by {
        lemma_stands(s, import_word(), j, 0);
        lemma_lower_plain(s[j]);
    }
    lemma_find_ci(s, import_word(), x, end);
    assert(find_ci(s, import_word(), x, end) == Some(at));
    lemma_find_ci(s, import_word(), at + 7, end);
    assert(css_import_places(s, at + 7, end) == none);
    lemma_skip_to(s, at + 7, at + 8, end, Class::Space);
    lemma_skip_to(s, a, b, end, Class::Not(s[at + 8]));
    assert(css_import_places(s, x, end) == if_remote(s, a, b) + none);
    lemma_find_ci(s, url_open(), x, end);
    if let Some(j) = find_ci(s, url_open(), x, end) {
        lemma_stands(s, url_open(), j, 3);
        lemma_lower_plain(s[j + 3]);
    }
    assert(css_url_places(s, x, end) == none);
    assert(none + (if_remote(s, a, b) + none) =~= if_remote(s, a, b));
}

proof fn lemma_import_laid_out(
    s: Seq<char>,
    x: int,
    pre: Seq<char>,
    f: Seq<char>,
    q: Seq<char>,
    u: Seq<char>,
    post: Seq<char>,
)
    requires
        names_nothing(pre),
        names_nothing(post),
        lower_all(f) == "@import"@,
        q == "\""@ || q == "'"@,
        is_sheet_address(u),
        0 <= x,
        x + sheet_importing(pre, f, q, u, post).len() <= s.len(),
        s.subrange(x, x + sheet_importing(pre, f, q, u, post).len()) == sheet_importing(
            pre,
            f,
            q,
            u,
            post,
        ),
    ensures
        ({
            let at = x + pre.len();
            &&& import_laid_out(
                s,
                x,
                x + sheet_importing(pre, f, q, u, post).len(),
                at,
                at + 9,
                at + 9 + u.len(),
            )
            &&& s.subrange(at + 9, at + 9 + u.len()) == u
            &&& at + 9 + u.len() <= s.len()
        }),
{
    reveal(import_laid_out);
    reveal(sheet_importing);
    reveal_strlit("@import");
    reveal_strlit("\"");
    reveal_strlit("'");
    reveal_strlit(" ");
    let c = sheet_importing(pre, f, q, u, post);
    let end = x + c.len();
    let at = x + pre.len();
    let a = at + 9;
    let b = a + u.len();
    assert(f.len() == lower_all(f).len());
    assert forall|y: int| x <= y < end implies #[trigger] s[y] == c[y - x] by {
        assert(s.subrange(x, end)[y - x] == s[y]);
    }
    assert(s.subrange(a, b) =~= u);
    assert(s.subrange(at, at + 7) =~= f);
    assert(lower_all(f) =~= import_word());
    assert forall|y: int| 0 <= y < 7 implies (#[trigger] f[y] == '@') == (y == 0) && f[y] != '(' by {
        assert(lower_all(f)[y] == lower(f[y]));
        lemma_lower_plain(f[y]);
    }
    assert forall|y: int| x <= y < end implies (#[trigger] s[y] == '@') == (y == at) && s[y] != '(' by {
        if y < at {
            assert(s[y] == pre[y - x]);
        } else if y < at + 7 {
            assert(s[y] == f[y - at]);
        } else if a <= y < b {
            assert(s[y] == u[y - a]);
        } else if y > b {
            assert(s[y] == post[y - b - 1]);
        }
    }
    assert forall|y: int| a <= y < b implies #[trigger] s[y] != s[at + 8] by {
        assert(s[y] == u[y - a]);
    }
}

proof fn lemma_import_found(pre: Seq<char>, f: Seq<char>, q: Seq<char>, u: Seq<char>, post: Seq<char>)
    requires
        unbracketed(sheet_importing(pre, f, q, u, post)),
        names_nothing(pre),
        names_nothing(post),
        lower_all(f) == "@import"@,
        q == "\""@ || q == "'"@,
        is_sheet_address(u),
    ensures
        ({
            let s = lone_sheet(sheet_importing(pre, f, q, u, post));
            let at = 16 + pre.len() as int;
            &&& at + u.len() <= s.len()
            &&& remote_places(s) == (if is_remote(u) {
                seq![(at, at + u.len())]
            } else {
                seq![]
            })
        }),
{
    let c = sheet_importing(pre, f, q, u, post);
    let s = lone_sheet(c);
    let at = 16 + pre.len() as int;
    lemma_lone_sheet(c);
    lemma_import_laid_out(s, 7, pre, f, q, u, post);
    lemma_import_here(s, 7, 7 + c.len() as int, 7 + pre.len() as int, at, at + u.len());
    lemma_one_in_order((at, at + u.len()));
}

proof fn lemma_import_replaced(
    pre: Seq<char>,
    f: Seq<char>,
    q: Seq<char>,
    u: Seq<char>,
    post: Seq<char>,
)
    requires
        lower_all(f) == "@import"@,
        q.len() == 1,
        unbracketed(sheet_importing(pre, f, q, u, post)),
    ensures
        unbracketed(sheet_importing(pre, f, q, blocked(), post)),
        ({
            let s = lone_sheet(sheet_importing(pre, f, q, u, post));
            let at = 16 + pre.len() as int;
            lone_sheet(sheet_importing(pre, f, q, blocked(), post)) == s.subrange(0, at)
                + blocked() + s.subrange(at + u.len(), s.len() as int)
        }),
{
    reveal(lone_sheet);
    reveal(sheet_importing);
    reveal_strlit("@import");
    reveal_strlit(" ");
    reveal_strlit("<style>");
    reveal_strlit("</style>");
    lemma_blocked();
    assert(lower_all(f).len() == f.len());
    let had = sheet_importing(pre, f, q, u, post);
    let now = sheet_importing(pre, f, q, blocked(), post);
    let s = lone_sheet(had);
    let a = pre.len() as int + 9;
    assert forall|k: int| 0 <= k < now.len() implies #[trigger] now[k] != '<' by {
        if k < a {
            assert(now[k] == had[k]);
        } else if k >= a + 10 {
            assert(now[k] == had[k - 10 + u.len()]);
        }
    }
    let at = 7 + a;
    assert(s.subrange(0, at) =~= "<style>"@ + pre + f + " "@ + q);
    assert(s.subrange(at + u.len(), s.len() as int) =~= q + post + "</style>"@);
    assert(lone_sheet(now) =~= ("<style>"@ + pre + f + " "@ + q) + blocked() + (q + post
        + "</style>"@));
}

/// The address of a stylesheet that another imports is taken out of it, and nothing else.
pub proof fn imported_sheets_are_withheld(
    pre: Seq<char>,
    f: Seq<char>,
    q: Seq<char>,
    u: Seq<char>,
    post: Seq<char>,
)
    requires
        unbracketed(sheet_importing(pre, f, q, u, post)),
        names_nothing(pre),
        names_nothing(post),
        lower_all(f) == "@import"@,
        q == "\""@ || q == "'"@,
        is_sheet_address(u),
        leads_out(u),
    ensures
        stripped(lone_sheet(sheet_importing(pre, f, q, u, post))) == lone_sheet(
            sheet_importing(pre, f, q, "blocked://"@, post),
        ),
{
    let s = lone_sheet(sheet_importing(pre, f, q, u, post));
    let z = lone_sheet(sheet_importing(pre, f, q, blocked(), post));
    let at = 16 + pre.len() as int;
    reveal_strlit("\"");
    reveal_strlit("'");
    web_is_remote(u);
    lemma_blocked();
    lemma_begins_blocked(blocked());
    lemma_import_replaced(pre, f, q, u, post);
    lemma_import_found(pre, f, q, u, post);
    lemma_import_found(pre, f, q, blocked(), post);
    lemma_stripped_one(s, (at, at + u.len()), z);
}

} // verus!
