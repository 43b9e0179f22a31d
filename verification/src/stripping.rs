//! What is left to fetch of a document whose remote references were taken out: nothing.

use vstd::prelude::*;

use crate::markup::{declaration_end, opens_declaration};
use crate::remote::{
    attribute_at, before, behind_element, blocked, body_end, body_start, css_import_places, css_places,
    css_url_places, css_value_end, css_value_start, depth_behind, fetching, if_remote, import_word, in_order,
    is_remote, lemma_attribute, lemma_body_end, lemma_css_value, lemma_find_ci_bounds, lemma_tag_end,
    lemma_walk_step, name_start, pass, put, remote_places, rewritten, sheet_places, srcset_places, stripped,
    tag_places, url_open, url_places, value_places, walk_places, Place,
};
use crate::text::{
    find_ci, is_blank, is_space, lemma_skip, lemma_stands, lemma_tail_start, lower, lower_all, skip,
    stands_at_ci, tail_start, trim, Class,
};

verus! {

// ----- Texts with places rewritten -----

/// Whether the places follow one another, none of them empty, in a text of `n`
/// characters.
pub open spec fn apart(kept: Seq<Place>, n: int) -> bool {
    &&& forall|i: int| 0 <= i < kept.len() ==> 0 <= (#[trigger] kept[i]).0 < kept[i].1 <= n
    &&& forall|i: int, j: int| 0 <= i < j < kept.len() ==> (#[trigger] kept[i]).1 <= (#[trigger] kept[j]).0
}

/// By how much what stands at or behind `i` moves when the places are rewritten.
pub open spec fn shift(kept: Seq<Place>, i: int) -> int
    decreases kept.len(),
{
    if kept.len() == 0 || i < kept[0].1 {
        0
    } else {
        10 - (kept[0].1 - kept[0].0) + shift(kept.drop_first(), i)
    }
}

/// Where the character at `i` stands once the places are rewritten.
pub open spec fn moved(kept: Seq<Place>, i: int) -> int {
    i + shift(kept, i)
}

/// Whether the character at `i` is kept.
pub open spec fn free(kept: Seq<Place>, i: int) -> bool {
    forall|j: int| 0 <= j < kept.len() ==> !((#[trigger] kept[j]).0 <= i < kept[j].1)
}

/// Whether no place begins before `i` and ends behind it.
pub open spec fn outside(kept: Seq<Place>, i: int) -> bool {
    forall|j: int| 0 <= j < kept.len() ==> !((#[trigger] kept[j]).0 < i < kept[j].1)
}

/// Whether all characters from `a` up to `b` are kept.
pub open spec fn clear(kept: Seq<Place>, a: int, b: int) -> bool {
    forall|j: int| 0 <= j < kept.len() ==> (#[trigger] kept[j]).1 <= a || b <= kept[j].0
}

/// What a text and the text with the places rewritten have to do with one another.
#[verifier::opaque]
pub open spec fn patched(s: Seq<char>, t: Seq<char>, kept: Seq<Place>) -> bool {
    &&& apart(kept, s.len() as int)
    &&& t.len() == moved(kept, s.len() as int)
    &&& forall|i: int|
        0 <= i < s.len() && free(kept, i) ==> 0 <= moved(kept, i) < t.len() && t[#[trigger] moved(kept, i)] == s[i]
    &&& forall|j: int, x: int|
        0 <= j < kept.len() && 0 <= x < 10 ==> #[trigger] t[moved(kept, (#[trigger] kept[j]).0) + x]
            == blocked()[x]
}

pub proof fn lemma_blocked()
    ensures
        blocked().len() == 10,
        blocked() =~= seq!['b', 'l', 'o', 'c', 'k', 'e', 'd', ':', '/', '/'],
{
    reveal_strlit("blocked://");
}

pub proof fn lemma_rest_apart(kept: Seq<Place>, n: int)
    requires
        apart(kept, n),
        kept.len() > 0,
    ensures
        apart(kept.drop_first(), n),
        forall|j: int|
            0 <= j < kept.drop_first().len() ==> (#[trigger] kept.drop_first()[j]) == kept[j + 1]
                && kept[0].1 <= kept[j + 1].0,
{
    let rest = kept.drop_first();
    assert forall|i: int, j: int| 0 <= i < j < rest.len()
        implies (#[trigger] rest[i]).1 <= (#[trigger] rest[j]).0 by {
        assert(rest[i] == kept[i + 1] && rest[j] == kept[j + 1]);
    }
    assert forall|i: int| 0 <= i < rest.len() implies 0 <= (#[trigger] rest[i]).0 < rest[i].1 <= n by {
        assert(rest[i] == kept[i + 1]);
    }
}

/// Nothing moves before the first place ends.
pub proof fn lemma_shift_before(kept: Seq<Place>, i: int)
    requires
        forall|j: int| 0 <= j < kept.len() ==> i < (#[trigger] kept[j]).1,
    ensures
        shift(kept, i) == 0,
{
    if kept.len() > 0 {
        assert(i < kept[0].1);
    }
}

/// Past a place that was rewritten, what is left of the text moves as before.
pub proof fn lemma_shift_step(kept: Seq<Place>, n: int, i: int)
    requires
        apart(kept, n),
        0 <= i <= n,
    ensures
        free(kept, i) ==> shift(kept, i + 1) == shift(kept, i),
        forall|j: int|
            0 <= j < kept.len() && i == (#[trigger] kept[j]).0 ==> moved(kept, kept[j].1) == moved(kept, i)
                + 10,
    decreases kept.len(),
{
    if kept.len() > 0 {
        let rest = kept.drop_first();
        lemma_rest_apart(kept, n);
        lemma_shift_step(rest, n, i);
        if free(kept, i) {
            assert(!(kept[0].0 <= i < kept[0].1));
            assert(free(rest, i)) by {
                assert forall|j: int| 0 <= j < rest.len()
                    implies !((#[trigger] rest[j]).0 <= i < rest[j].1) by {
                    assert(rest[j] == kept[j + 1]);
                }
            }
        }
        assert forall|j: int| 0 <= j < kept.len() && i == (#[trigger] kept[j]).0 implies moved(
            kept,
            kept[j].1,
        ) == moved(kept, i) + 10 by {
            if j == 0 {
                assert forall|k: int| 0 <= k < rest.len()
                    implies kept[0].1 < (#[trigger] rest[k]).1 by {
                    assert(rest[k] == kept[k + 1]);
                }
                lemma_shift_before(rest, kept[0].1);
            } else {
                assert(rest[j - 1] == kept[j]);
                assert(kept[0].1 <= kept[j].0);
            }
        }
    }
}

/// A rewritten text is what a text with its places rewritten is.
pub proof fn lemma_rewritten(s: Seq<char>, at: int, kept: Seq<Place>, i: int, j: int, x: int)
    requires
        apart(kept, s.len() as int),
        0 <= at <= s.len(),
        kept.len() > 0 ==> at <= kept[0].0,
    ensures
        rewritten(s, at, kept).len() == s.len() - at + shift(kept, s.len() as int),
        at <= i < s.len() && free(kept, i) ==> 0 <= i - at + shift(kept, i) < rewritten(s, at, kept).len()
            && rewritten(s, at, kept)[i - at + shift(kept, i)] == s[i],
        0 <= j < kept.len() && 0 <= x < 10 ==> 0 <= kept[j].0 - at + shift(kept, kept[j].0) + x < rewritten(
            s,
            at,
            kept,
        ).len() && rewritten(s, at, kept)[kept[j].0 - at + shift(kept, kept[j].0) + x] == blocked()[x],
    decreases kept.len(),
{
    let n = s.len() as int;
    lemma_blocked();
    if kept.len() > 0 {
        let (a, b) = kept[0];
        let rest = kept.drop_first();
        lemma_rest_apart(kept, n);
        assert(0 <= a < b <= n);
        if rest.len() > 0 {
            assert(rest[0] == kept[1]);
            assert(kept[0].1 <= kept[1].0);
        }
        lemma_rewritten(s, b, rest, i, j - 1, x);
        let r = rewritten(s, at, kept);
        let tail = rewritten(s, b, rest);
        assert(r == s.subrange(at, a) + blocked() + tail);
        if at <= i < n && free(kept, i) {
            assert(!(kept[0].0 <= i < kept[0].1));
            if i >= b {
                assert(free(rest, i)) by {
                    assert forall|k: int| 0 <= k < rest.len()
                        implies !((#[trigger] rest[k]).0 <= i < rest[k].1) by {
                        assert(rest[k] == kept[k + 1]);
                    }
                }
                assert(r[(a - at) + 10 + (i - b + shift(rest, i))] == tail[i - b + shift(rest, i)]);
            }
        }
        if 0 <= j < kept.len() && 0 <= x < 10 {
            if j == 0 {
                assert(shift(kept, a) == 0);
                assert(r[a - at + x] == blocked()[x]);
            } else {
                assert(rest[j - 1] == kept[j]);
                let k = kept[j].0;
                assert(kept[0].1 <= kept[j].0);
                assert(r[(a - at) + 10 + (k - b + shift(rest, k) + x)] == tail[k - b + shift(rest, k) + x]);
            }
        }
    } else {
        assert(rewritten(s, at, kept) =~= s.subrange(at, n));
    }
}

pub proof fn lemma_patched(s: Seq<char>, kept: Seq<Place>)
    requires
        apart(kept, s.len() as int),
    ensures
        patched(s, rewritten(s, 0, kept), kept),
{
    reveal(patched);
    let t = rewritten(s, 0, kept);
    lemma_rewritten(s, 0, kept, 0, 0, 0);
    assert forall|i: int| 0 <= i < s.len() && free(kept, i)
        implies 0 <= moved(kept, i) < t.len() && t[#[trigger] moved(kept, i)]
        == s[i] by {
        lemma_rewritten(s, 0, kept, i, 0, 0);
    }
    assert forall|j: int, x: int| 0 <= j < kept.len() && 0 <= x < 10 implies #[trigger] t[moved(
        kept,
        (#[trigger] kept[j]).0,
    ) + x] == blocked()[x] by {
        lemma_rewritten(s, 0, kept, 0, j, x);
    }
}

/// A character that is kept, and its neighbour.
pub proof fn lemma_free(s: Seq<char>, t: Seq<char>, kept: Seq<Place>, i: int)
    requires
        patched(s, t, kept),
        0 <= i < s.len(),
        free(kept, i),
    ensures
        0 <= moved(kept, i) < t.len(),
        t[moved(kept, i)] == s[i],
        moved(kept, i + 1) == moved(kept, i) + 1,
        outside(kept, i + 1),
{
    reveal(patched);
    lemma_shift_step(kept, s.len() as int, i);
    assert(outside(kept, i + 1)) by {
        assert forall|j: int| 0 <= j < kept.len()
            implies !((#[trigger] kept[j]).0 < i + 1 < kept[j].1) by {
            assert(!(kept[j].0 <= i < kept[j].1));
        }
    }
}

/// A place that was rewritten.
pub proof fn lemma_block(s: Seq<char>, t: Seq<char>, kept: Seq<Place>, j: int)
    requires
        patched(s, t, kept),
        0 <= j < kept.len(),
    ensures
        moved(kept, kept[j].1) == moved(kept, kept[j].0) + 10,
        forall|x: int|
            0 <= x < 10 ==> #[trigger] t[moved(kept, kept[j].0) + x] == blocked()[x],
        0 <= kept[j].0 < kept[j].1 <= s.len(),
        outside(kept, kept[j].1),
        outside(kept, kept[j].0),
{
    reveal(patched);
    lemma_shift_step(kept, s.len() as int, kept[j].0);
    assert forall|k: int| 0 <= k < kept.len()
        implies !((#[trigger] kept[k]).0 < kept[j].1 < kept[k].1) by {
        if k < j {
            assert(kept[k].1 <= kept[j].0);
        } else if j < k {
            assert(kept[j].1 <= kept[k].0);
        }
    }
    assert forall|k: int| 0 <= k < kept.len()
        implies !((#[trigger] kept[k]).0 < kept[j].0 < kept[k].1) by {
        if k < j {
            assert(kept[k].1 <= kept[j].0);
        } else if j < k {
            assert(kept[j].1 <= kept[k].0);
        }
    }
}

/// Outside of the places a position begins a place or holds a character that is kept.
pub proof fn lemma_either(kept: Seq<Place>, i: int) -> (j: int)
    requires
        outside(kept, i),
    ensures
        free(kept, i) || (0 <= j < kept.len() && kept[j].0 == i && i < kept[j].1),
{
    if free(kept, i) {
        0
    } else {
        let j = choose|j: int| 0 <= j < kept.len() && (#[trigger] kept[j]).0 <= i < kept[j].1;
        assert(!(kept[j].0 < i < kept[j].1));
        j
    }
}

/// Positions outside of the places keep their order.
pub proof fn lemma_moved_order(s: Seq<char>, t: Seq<char>, kept: Seq<Place>, i: int, k: int)
    requires
        patched(s, t, kept),
        0 <= i <= k <= s.len(),
        outside(kept, i),
        outside(kept, k),
    ensures
        moved(kept, i) <= moved(kept, k),
        i < k ==> moved(kept, i) < moved(kept, k),
        clear(kept, i, k) ==> moved(kept, k) == moved(kept, i) + k - i,
    decreases k - i,
{
    if i < k {
        let j = lemma_either(kept, i);
        if free(kept, i) {
            lemma_free(s, t, kept, i);
            lemma_moved_order(s, t, kept, i + 1, k);
            if clear(kept, i, k) {
                assert(clear(kept, i + 1, k)) by {
                    assert forall|x: int| 0 <= x < kept.len()
                        implies (#[trigger] kept[x]).1 <= i + 1 || k <= kept[x].0 by {
                        assert(kept[x].1 <= i || k <= kept[x].0);
                    }
                }
            }
        } else {
            lemma_block(s, t, kept, j);
            assert(kept[j].1 <= k) by {
                assert(!(kept[j].0 < k < kept[j].1));
            }
            lemma_moved_order(s, t, kept, kept[j].1, k);
            assert(!clear(kept, i, k));
        }
    }
}

// ----- What stands around a remote URL -----

/// Whether a character is none of those of the text that replaces a remote URL.
pub open spec fn edge(c: char) -> bool {
    c != 'b' && c != 'l' && c != 'o' && c != 'c' && c != 'k' && c != 'e' && c != 'd' && c != ':'
        && c != '/'
}

/// Whether a text that ends at `end` is cut off there by an edge or with the document.
pub open spec fn ends_edged(s: Seq<char>, end: int) -> bool {
    end == s.len() || (0 <= end < s.len() && edge(s[end]))
}

/// Whether a place lies between `a` and `b`, holds a remote URL, and has edges around.
pub open spec fn holds_remote(s: Seq<char>, q: Place, a: int, b: int) -> bool {
    &&& a <= q.0 < q.1 <= b
    &&& is_remote(s.subrange(q.0, q.1))
    &&& 0 < q.0 && edge(s[q.0 - 1])
    &&& ends_edged(s, q.1)
}

pub proof fn lemma_split_member(x: Seq<Place>, y: Seq<Place>, q: Place)
    requires
        (x + y).contains(q),
    ensures
        x.contains(q) || y.contains(q),
{
    let k = choose|k: int| 0 <= k < (x + y).len() && (x + y)[k] == q;
    if k < x.len() {
        assert(x[k] == q);
    } else {
        assert(y[k - x.len()] == q);
    }
}

pub proof fn lemma_find_stands(s: Seq<char>, p: Seq<char>, at: int, end: int)
    ensures
        find_ci(s, p, at, end) matches Some(k) ==> at <= k && k + p.len() <= end && stands_at_ci(
            s,
            p,
            k,
        ),
    decreases end - at,
{
    if at < end && at + p.len() <= end && !stands_at_ci(s, p, at) {
        lemma_find_stands(s, p, at + 1, end);
    }
}

pub proof fn lemma_lower_bracket(c: char)
    ensures
        lower(c) == '(' ==> c == '(',
        lower(c) == 't' ==> c == 't' || c == 'T',
        lower(c) == '@' ==> c == '@',
{
}

pub proof fn lemma_url_bounds(s: Seq<char>, start: int, end: int, q: Place)
    requires
        0 < start <= end,
        edge(s[start - 1]),
        ends_edged(s, end),
        url_places(s, start, end).contains(q),
    ensures
        holds_remote(s, q, start, end),
{
    let a = skip(s, start, end, Class::Space);
    lemma_skip(s, start, end, Class::Space);
    lemma_skip(s, a, end, Class::NotSpace);
    if start < a {
        assert(Class::Space.has(s[a - 1]));
    }
}

pub proof fn lemma_srcset_bounds(s: Seq<char>, at: int, end: int, q: Place)
    requires
        0 < at,
        edge(s[at - 1]),
        ends_edged(s, end),
        srcset_places(s, at, end).contains(q),
    ensures
        holds_remote(s, q, at, end),
    decreases end + 1 - at,
{
    if at < end {
        let comma = skip(s, at, end, Class::Not(','));
        lemma_skip(s, at, end, Class::Not(','));
        let here = url_places(s, at, comma);
        let rest = srcset_places(s, comma + 1, end);
        lemma_split_member(here, rest, q);
        if here.contains(q) {
            lemma_url_bounds(s, at, comma, q);
        } else {
            assert(comma < end);
            lemma_srcset_bounds(s, comma + 1, end, q);
        }
    }
}

pub proof fn lemma_css_url_bounds(s: Seq<char>, at: int, end: int, q: Place)
    requires
        0 <= at,
        ends_edged(s, end),
        css_url_places(s, at, end).contains(q),
    ensures
        holds_remote(s, q, at + 4, end),
    decreases end - at,
{
    lemma_find_ci_bounds(s, url_open(), at, end);
    lemma_find_stands(s, url_open(), at, end);
    if let Some(p) = find_ci(s, url_open(), at, end) {
        lemma_css_value(s, p + 4, end);
        let a = css_value_start(s, p + 4, end);
        let b = css_value_end(s, p + 4, end);
        lemma_split_member(if_remote(s, a, b), css_url_places(s, b, end), q);
        if css_url_places(s, b, end).contains(q) {
            lemma_css_url_bounds(s, b, end, q);
        } else {
            lemma_stands(s, url_open(), p, 3);
            lemma_lower_bracket(s[p + 3]);
            let v = skip(s, p + 4, end, Class::Space);
            lemma_skip(s, p + 4, end, Class::Space);
            if p + 4 < v {
                assert(Class::Space.has(s[v - 1]));
            }
            if v < end && (s[v] == '"' || s[v] == '\'') {
                lemma_skip(s, v + 1, end, Class::Not(s[v]));
            } else {
                lemma_skip(s, v, end, Class::NotNorSpace(')'));
            }
        }
    }
}

pub proof fn lemma_css_import_bounds(s: Seq<char>, at: int, end: int, q: Place)
    requires
        0 <= at,
        ends_edged(s, end),
        css_import_places(s, at, end).contains(q),
    ensures
        holds_remote(s, q, at, end),
    decreases end - at,
{
    lemma_find_ci_bounds(s, import_word(), at, end);
    if let Some(p) = find_ci(s, import_word(), at, end) {
        let v = skip(s, p + 7, end, Class::Space);
        lemma_skip(s, p + 7, end, Class::Space);
        let here = if v < end && (s[v] == '"' || s[v] == '\'') {
            lemma_skip(s, v + 1, end, Class::Not(s[v]));
            if_remote(s, v + 1, skip(s, v + 1, end, Class::Not(s[v])))
        } else {
            seq![]
        };
        lemma_split_member(here, css_import_places(s, p + 7, end), q);
        if css_import_places(s, p + 7, end).contains(q) {
            lemma_css_import_bounds(s, p + 7, end, q);
        }
    }
}

pub proof fn lemma_css_bounds(s: Seq<char>, start: int, end: int, q: Place)
    requires
        0 <= start,
        ends_edged(s, end),
        css_places(s, start, end).contains(q),
    ensures
        holds_remote(s, q, start, end),
{
    lemma_split_member(css_url_places(s, start, end), css_import_places(s, start, end), q);
    if css_url_places(s, start, end).contains(q) {
        lemma_css_url_bounds(s, start, end, q);
    } else {
        lemma_css_import_bounds(s, start, end, q);
    }
}

pub proof fn lemma_value_bounds(
    s: Seq<char>,
    tag: Seq<char>,
    attr: Seq<char>,
    start: int,
    end: int,
    q: Place,
)
    requires
        0 < start <= end,
        edge(s[start - 1]),
        ends_edged(s, end),
        value_places(s, tag, attr, start, end).contains(q),
    ensures
        holds_remote(s, q, start, end),
{
    if attr == "srcset"@ || attr == "imagesrcset"@ {
        lemma_srcset_bounds(s, start, end, q);
    } else if attr == "style"@ {
        lemma_css_bounds(s, start, end, q);
    } else if fetching(tag, attr) {
        lemma_url_bounds(s, start, end, q);
    }
}

/// An attribute's value has edges around.
pub proof fn lemma_attribute_edged(s: Seq<char>, j: int)
    requires
        0 <= j < s.len(),
        attribute_at(s, j).valued,
    ensures
        ({
            let a = attribute_at(s, j);
            &&& 0 < a.start <= a.end <= s.len()
            &&& edge(s[a.start - 1])
            &&& ends_edged(s, a.end)
        }),
{
    let n = s.len() as int;
    lemma_attribute(s, j);
    let name_end = skip(s, j, n, Class::AttrName);
    let eq = skip(s, name_end, n, Class::Space);
    let v = skip(s, eq + 1, n, Class::Space);
    lemma_skip(s, eq + 1, n, Class::Space);
    if eq + 1 < v {
        assert(Class::Space.has(s[v - 1]));
    }
    if v < n {
        lemma_skip(s, v + 1, n, Class::Not(s[v]));
    }
    lemma_skip(s, v, n, Class::Unquoted);
}

pub proof fn lemma_tag_bounds(s: Seq<char>, tag: Seq<char>, j: int, q: Place)
    requires
        0 <= j <= s.len(),
        tag_places(s, tag, j).0.contains(q),
    ensures
        holds_remote(s, q, j, tag_places(s, tag, j).1),
        skip(s, j, s.len() as int, Class::Space) < q.0,
    decreases s.len() - j,
{
    let n = s.len() as int;
    if j >= n || s[j] == '>' {
    } else if is_space(s[j]) || s[j] == '/' {
        lemma_tag_bounds(s, tag, j + 1, q);
        lemma_skip(s, j + 1, n, Class::Space);
    } else {
        let a = attribute_at(s, j);
        lemma_attribute(s, j);
        lemma_tag_end(s, tag, a.next);
        lemma_skip(s, a.next, n, Class::Space);
        let rest = tag_places(s, tag, a.next).0;
        if a.valued {
            lemma_attribute_edged(s, j);
            let attr = lower_all(s.subrange(j, a.name_end));
            let here = value_places(s, tag, attr, a.start, a.end);
            lemma_split_member(here, rest, q);
            if here.contains(q) {
                lemma_value_bounds(s, tag, attr, a.start, a.end, q);
            } else {
                lemma_tag_bounds(s, tag, a.next, q);
            }
        } else {
            lemma_tag_bounds(s, tag, a.next, q);
        }
    }
}

pub proof fn lemma_walk_bounds(s: Seq<char>, i: int, depth: nat, q: Place)
    requires
        0 <= i,
        walk_places(s, i, depth).contains(q),
    ensures
        holds_remote(s, q, i + 1, s.len() as int),
    decreases s.len() - i,
{
    if i < s.len() {
        let n = s.len() as int;
        let ns = name_start(s, i);
        let ne = skip(s, ns, n, Class::TagName);
        let tag = lower_all(s.subrange(ns, ne));
        let opens = ns == i + 1;
        lemma_walk_step(s, i, depth);
        if opens_declaration(s, i) {
            if let Some(e) = declaration_end(s, i) {
                lemma_walk_bounds(s, e, depth, q);
            }
        } else if s[i] != '<' || ne == ns {
            lemma_walk_bounds(s, i + 1, depth, q);
        } else {
            let inside = tag_places(s, tag, ne);
            let body = sheet_places(s, tag, opens, inside.1);
            let next = behind_element(s, tag, opens, inside.1, depth);
            let under = depth_behind(s, tag, opens, ne, depth);
            lemma_tag_end(s, tag, ne);
            lemma_split_member(inside.0 + body, walk_places(s, next, under), q);
            if walk_places(s, next, under).contains(q) {
                lemma_walk_bounds(s, next, under, q);
            } else {
                lemma_split_member(inside.0, body, q);
                if inside.0.contains(q) {
                    lemma_tag_bounds(s, tag, ne, q);
                } else {
                    let start = body_start(s, inside.1);
                    lemma_body_end(s, start);
                    lemma_css_bounds(s, start, body_end(s, start), q);
                }
            }
        }
    }
}

// ----- Every pass leaves less -----

/// What trimming takes away around a character that is not white space.
pub proof fn lemma_trim_around(w: Seq<char>, g: int) -> (r: (int, int))
    requires
        0 <= g < w.len(),
        !is_blank(w[g]),
    ensures
        r.0 == skip(w, 0, w.len() as int, Class::Blank),
        0 <= r.0 <= g < r.1 <= w.len(),
        trim(w) == w.subrange(r.0, r.1),
        !is_blank(w[r.0]),
{
    let n = w.len() as int;
    let o = skip(w, 0, n, Class::Blank);
    lemma_skip(w, 0, n, Class::Blank);
    if o > g {
        assert(Class::Blank.has(w[g]));
    }
    let rest = w.subrange(o, n);
    let z = tail_start(rest, n - o, Class::Blank);
    lemma_tail_start(rest, n - o, Class::Blank);
    if o + z <= g {
        assert(Class::Blank.has(rest[g - o]));
        assert(rest[g - o] == w[g]);
    }
    assert(trim(w) =~= w.subrange(o, o + z));
    (o, o + z)
}

pub proof fn lemma_begins_blocked(w: Seq<char>)
    requires
        w.len() > 0,
        forall|k: int| 0 <= k < w.len() && k < 10 ==> #[trigger] w[k] == blocked()[k],
    ensures
        !is_remote(w),
{
    lemma_blocked();
    assert(w[0] == 'b');
    let (o, e) = lemma_trim_around(w, 0);
    let u = trim(w);
    assert(o == 0);
    assert(u[0] == 'b');
    if w.len() > 7 {
        assert(w[7] == ':');
        let (p, f) = lemma_trim_around(w, 7);
        assert(w.subrange(0, e).len() == e && w.subrange(0, f).len() == f);
        assert(u =~= w.subrange(0, f));
        assert forall|k: int| 0 <= k < 8 implies #[trigger] u[k] == blocked()[k] by {
            assert(u[k] == w[k]);
        }
        reveal_with_fuel(skip, 9);
        assert(u[0] == 'b' && u[1] == 'l' && u[2] == 'o' && u[3] == 'c' && u[4] == 'k' && u[5] == 'e'
            && u[6] == 'd' && u[7] == ':');
        assert(skip(u, 0, u.len() as int, Class::Not(':')) == 7);
        reveal_strlit("blocked");
        assert(lower_all(u.subrange(0, 7)) =~= "blocked"@);
    } else {
        let colon = skip(u, 0, u.len() as int, Class::Not(':'));
        lemma_skip(u, 0, u.len() as int, Class::Not(':'));
        if colon < u.len() {
            assert(u[colon] == w[colon]);
            assert(w[colon] == blocked()[colon]);
            assert(false);
        }
    }
}

/// How much of a text is not what replaces a remote URL.
pub open spec fn weight(s: Seq<char>) -> nat
    decreases s.len(),
{
    if s.len() == 0 {
        0
    } else if s.len() >= 10 && s.subrange(0, 10) == blocked() {
        weight(s.subrange(10, s.len() as int))
    } else {
        1 + weight(s.drop_first())
    }
}

/// Parted at an edge, a text weighs what its parts weigh.
pub proof fn lemma_weight_parts(x: Seq<char>, y: Seq<char>)
    requires
        x.len() == 0 || y.len() == 0 || edge(x.last()) || edge(y[0]),
    ensures
        weight(x + y) == weight(x) + weight(y),
    decreases x.len(),
{
    let w = x + y;
    lemma_blocked();
    if x.len() == 0 {
        assert(w =~= y);
    } else if x.len() >= 10 && x.subrange(0, 10) == blocked() {
        let rest = x.subrange(10, x.len() as int);
        assert(w.subrange(0, 10) =~= blocked());
        assert(w.subrange(10, w.len() as int) =~= rest + y);
        lemma_weight_parts(rest, y);
    } else {
        if w.len() >= 10 && w.subrange(0, 10) == blocked() {
            if x.len() >= 10 {
                assert(x.subrange(0, 10) =~= w.subrange(0, 10));
            } else {
                let k = x.len() as int;
                assert(w.subrange(0, 10)[k - 1] == x.last());
                assert(w.subrange(0, 10)[k] == y[0]);
            }
            assert(false);
        }
        assert(w.drop_first() =~= x.drop_first() + y);
        lemma_weight_parts(x.drop_first(), y);
    }
}

pub proof fn lemma_rewriting_weighs_less(s: Seq<char>, at: int, found: Seq<Place>)
    requires
        0 <= at <= s.len(),
        forall|k: int|
            0 <= k < found.len() ==> holds_remote(s, #[trigger] found[k], 0, s.len() as int),
    ensures
        weight(rewritten(s, at, found)) <= weight(s.subrange(at, s.len() as int)),
        found.len() > 0 && at <= found[0].0 ==> weight(rewritten(s, at, found)) < weight(
            s.subrange(at, s.len() as int),
        ),
    decreases found.len(),
{
    let n = s.len() as int;
    if found.len() > 0 {
        let rest = found.drop_first();
        assert(forall|k: int| 0 <= k < rest.len() ==> #[trigger] rest[k] == found[k + 1]);
        let (a, b) = found[0];
        assert(holds_remote(s, found[0], 0, n));
        if a < at {
            lemma_rewriting_weighs_less(s, at, rest);
        } else {
            lemma_rewriting_weighs_less(s, b, rest);
            lemma_blocked();
            let lead = s.subrange(at, a);
            let url = s.subrange(a, b);
            let tail = s.subrange(b, n);
            let new_tail = rewritten(s, b, rest);
            assert(s.subrange(at, n) =~= lead + (url + tail));
            assert(rewritten(s, at, found) =~= lead + (blocked() + new_tail));
            lemma_weight_parts(lead, url + tail);
            lemma_weight_parts(url, tail);
            lemma_weight_parts(lead, blocked() + new_tail);
            assert((blocked() + new_tail).subrange(0, 10) =~= blocked());
            assert((blocked() + new_tail).subrange(10, (blocked() + new_tail).len() as int)
                =~= new_tail);
            if url.len() >= 10 && url.subrange(0, 10) == blocked() {
                assert forall|k: int| 0 <= k < url.len() && k < 10 implies #[trigger] url[k]
                    == blocked()[k] by {
                    assert(url.subrange(0, 10)[k] == url[k]);
                }
                lemma_begins_blocked(url);
            }
        }
    }
}

pub proof fn lemma_put(ordered: Seq<Place>, p: Place, q: Place)
    ensures
        put(ordered, p).contains(q) <==> ordered.contains(q) || p == q,
    decreases ordered.len(),
{
    if ordered.len() == 0 {
        assert(put(ordered, p)[0] == p);
    } else if ordered.last() == p {
        assert(ordered[ordered.len() - 1] == p);
    } else if before(ordered.last(), p) {
        let r = ordered.push(p);
        assert(r[ordered.len() as int] == p);
        if ordered.contains(q) {
            let k = choose|k: int| 0 <= k < ordered.len() && ordered[k] == q;
            assert(r[k] == q);
        }
        if r.contains(q) {
            let k = choose|k: int| 0 <= k < r.len() && r[k] == q;
            if k < ordered.len() {
                assert(ordered[k] == q);
            }
        }
    } else {
        lemma_put(ordered.drop_last(), p, q);
        let shorter = put(ordered.drop_last(), p);
        let r = shorter.push(ordered.last());
        if ordered.contains(q) {
            let k = choose|k: int| 0 <= k < ordered.len() && ordered[k] == q;
            if k < ordered.len() - 1 {
                assert(ordered.drop_last()[k] == q);
            } else {
                assert(r[shorter.len() as int] == q);
            }
        }
        if shorter.contains(q) {
            let k = choose|k: int| 0 <= k < shorter.len() && shorter[k] == q;
            assert(r[k] == q);
        }
        if r.contains(q) {
            let k = choose|k: int| 0 <= k < r.len() && r[k] == q;
            if k < shorter.len() {
                assert(shorter[k] == q);
                if ordered.drop_last().contains(q) {
                    let x = choose|x: int| 0 <= x < ordered.drop_last().len() && ordered.drop_last()[x] == q;
                    assert(ordered[x] == q);
                }
            } else {
                assert(ordered[ordered.len() - 1] == q);
            }
        }
    }
}

pub open spec fn ascending(v: Seq<Place>) -> bool {
    forall|i: int, j: int| 0 <= i < j < v.len() ==> (#[trigger] v[i]).0 <= (#[trigger] v[j]).0
}

pub proof fn lemma_put_ascending(ordered: Seq<Place>, p: Place)
    requires
        ascending(ordered),
    ensures
        ascending(put(ordered, p)),
        forall|k: int|
            0 <= k < put(ordered, p).len() ==> (#[trigger] put(ordered, p)[k]).0 <= p.0 || (ordered.len() > 0
                && put(ordered, p)[k].0 <= ordered.last().0),
    decreases ordered.len(),
{
    if ordered.len() > 0 && ordered.last() != p && !before(ordered.last(), p) {
        let head = ordered.drop_last();
        assert(ascending(head));
        lemma_put_ascending(head, p);
        let shorter = put(head, p);
        let r = shorter.push(ordered.last());
        assert forall|i: int, j: int| 0 <= i < j < r.len()
            implies (#[trigger] r[i]).0 <= (#[trigger] r[j]).0 by {
            if j < shorter.len() {
                assert(shorter[i].0 <= shorter[j].0);
            } else {
                assert(shorter[i].0 <= p.0 || (head.len() > 0 && shorter[i].0 <= head.last().0));
                if head.len() > 0 {
                    assert(ordered[ordered.len() - 2].0 <= ordered[ordered.len() - 1].0);
                }
            }
        }
    }
}

pub proof fn lemma_in_order(found: Seq<Place>, q: Place)
    ensures
        in_order(found).contains(q) <==> found.contains(q),
        ascending(in_order(found)),
    decreases found.len(),
{
    if found.len() > 0 {
        lemma_in_order(found.drop_last(), q);
        lemma_put(in_order(found.drop_last()), found.last(), q);
        lemma_put_ascending(in_order(found.drop_last()), found.last());
        if found.contains(q) {
            let k = choose|k: int| 0 <= k < found.len() && found[k] == q;
            if k < found.len() - 1 {
                assert(found.drop_last()[k] == q);
            }
        }
        if found.drop_last().contains(q) {
            let k = choose|k: int| 0 <= k < found.drop_last().len() && found.drop_last()[k] == q;
            assert(found[k] == q);
        }
        assert(found[found.len() - 1] == found.last());
    }
}

/// Every place that is found holds a remote URL, with edges around.
pub proof fn lemma_found(s: Seq<char>)
    ensures
        ascending(remote_places(s)),
        forall|k: int|
            0 <= k < remote_places(s).len() ==> holds_remote(
                s,
                #[trigger] remote_places(s)[k],
                0,
                s.len() as int,
            ),
{
    let found = remote_places(s);
    let all = walk_places(s, 0, 0);
    lemma_in_order(all, (0, 0));
    assert forall|k: int| 0 <= k < found.len() implies holds_remote(
        s,
        #[trigger] found[k],
        0,
        s.len() as int,
    ) by {
        lemma_in_order(all, found[k]);
        assert(found.contains(found[k]));
        lemma_walk_bounds(s, 0, 0, found[k]);
    }
}

/// As long as something is found, a pass leaves less of the text.
pub proof fn lemma_pass_weighs_less(s: Seq<char>)
    requires
        remote_places(s).len() > 0,
    ensures
        weight(pass(s)) < weight(s),
{
    lemma_found(s);
    lemma_rewriting_weighs_less(s, 0, remote_places(s));
    assert(holds_remote(s, remote_places(s)[0], 0, s.len() as int));
    assert(s.subrange(0, s.len() as int) =~= s);
}

// ----- The laws -----

/// Stripping leaves nothing to fetch: a document whose remote references were taken
/// out has none left, whatever the document.
pub proof fn stripped_fetches_nothing(s: Seq<char>)
    ensures
        remote_places(stripped(s)).len() == 0,
    decreases weight(s),
{
    if remote_places(s).len() > 0 {
        lemma_pass_weighs_less(s);
        stripped_fetches_nothing(pass(s));
    }
}

/// The detector and the stripper agree: stripping changes a document if and only if
/// something remote is found in it.
pub proof fn stripping_changes_what_is_found(s: Seq<char>)
    ensures
        stripped(s) == s <==> remote_places(s).len() == 0,
{
    stripped_fetches_nothing(s);
}

/// Stripping a document once more changes nothing.
pub proof fn stripping_twice_is_stripping(s: Seq<char>)
    ensures
        stripped(stripped(s)) == stripped(s),
{
    stripped_fetches_nothing(s);
}

/// Whether the beginning of a place is rewritten.
pub open spec fn covered(kept: Seq<Place>, q: Place) -> bool {
    exists|j: int| 0 <= j < kept.len() && (#[trigger] kept[j]).0 <= q.0 < kept[j].1
}

/// Those of the places that are rewritten: each one that does not begin in one already
/// rewritten.
pub open spec fn chosen(found: Seq<Place>, at: int) -> Seq<Place>
    decreases found.len(),
{
    if found.len() == 0 {
        seq![]
    } else if found[0].0 < at {
        chosen(found.drop_first(), at)
    } else {
        seq![found[0]] + chosen(found.drop_first(), found[0].1)
    }
}

pub proof fn lemma_chosen(s: Seq<char>, found: Seq<Place>, at: int)
    requires
        0 <= at <= s.len(),
        ascending(found),
        forall|k: int| 0 <= k < found.len() ==> 0 <= (#[trigger] found[k]).0 < found[k].1 <= s.len(),
    ensures
        rewritten(s, at, found) == rewritten(s, at, chosen(found, at)),
        apart(chosen(found, at), s.len() as int),
        forall|j: int|
            0 <= j < chosen(found, at).len() ==> at <= (#[trigger] chosen(found, at)[j]).0 && found.contains(
                chosen(found, at)[j],
            ),
        forall|k: int|
            0 <= k < found.len() && at <= (#[trigger] found[k]).0 ==> covered(
                chosen(found, at),
                found[k],
            ),
    decreases found.len(),
{
    let n = s.len() as int;
    if found.len() > 0 {
        let rest = found.drop_first();
        let f = found[0];
        assert(forall|k: int| 0 <= k < rest.len() ==> #[trigger] rest[k] == found[k + 1]);
        if f.0 < at {
            lemma_chosen(s, rest, at);
            let c = chosen(rest, at);
            assert(chosen(found, at) == c);
            assert forall|j: int| 0 <= j < c.len()
                implies at <= (#[trigger] c[j]).0 && found.contains(c[j]) by {
                let k = choose|k: int| 0 <= k < rest.len() && rest[k] == c[j];
                assert(found[k + 1] == c[j]);
            }
            assert forall|k: int| 0 <= k < found.len() && at <= (#[trigger] found[k]).0 implies covered(
                c,
                found[k],
            ) by {
                assert(rest[k - 1] == found[k]);
            }
        } else {
            lemma_chosen(s, rest, f.1);
            let tail = chosen(rest, f.1);
            let c = seq![f] + tail;
            assert(chosen(found, at) == c);
            assert(c.drop_first() =~= tail);
            assert(forall|j: int| 0 < j < c.len() ==> #[trigger] c[j] == tail[j - 1]);
            assert(c[0] == f);
            assert(apart(c, n)) by {
                assert forall|i: int, j: int| 0 <= i < j < c.len()
                    implies (#[trigger] c[i]).1 <= (#[trigger] c[j]).0 by {
                    assert(c[j] == tail[j - 1]);
                    if i > 0 {
                        assert(c[i] == tail[i - 1]);
                        assert(tail[i - 1].1 <= tail[j - 1].0);
                    }
                }
                assert forall|i: int| 0 <= i < c.len()
                    implies 0 <= (#[trigger] c[i]).0 < c[i].1 <= n by {
                    if i > 0 {
                        assert(c[i] == tail[i - 1]);
                    }
                }
            }
            assert forall|j: int| 0 <= j < c.len()
                implies at <= (#[trigger] c[j]).0 && found.contains(c[j]) by {
                if j > 0 {
                    assert(c[j] == tail[j - 1]);
                    let k = choose|k: int| 0 <= k < rest.len() && rest[k] == tail[j - 1];
                    assert(found[k + 1] == c[j]);
                }
            }
            assert forall|k: int| 0 <= k < found.len() && at <= (#[trigger] found[k]).0 implies covered(
                c,
                found[k],
            ) by {
                if found[k].0 < f.1 {
                    if k > 0 {
                        assert(found[0].0 <= found[k].0);
                    }
                    assert(c[0].0 <= found[k].0 < c[0].1);
                } else {
                    assert(rest[k - 1] == found[k]);
                    assert(covered(tail, rest[k - 1]));
                    let j = choose|j: int| 0 <= j < tail.len() && (#[trigger] tail[j]).0 <= found[k].0 < tail[j].1;
                    assert(c[j + 1] == tail[j]);
                }
            }
        }
    }
}

/// Where the character at `i` stands once the document was stripped, if it is not part
/// of a URL that some pass took out.
pub open spec fn place_after(s: Seq<char>, i: int) -> Option<int>
    decreases weight(s),
    via place_after_ends
{
    let kept = chosen(remote_places(s), 0);
    if remote_places(s).len() == 0 {
        Some(i)
    } else if free(kept, i) {
        place_after(pass(s), moved(kept, i))
    } else {
        None
    }
}

#[via_fn]
proof fn place_after_ends(s: Seq<char>, i: int) {
    if remote_places(s).len() > 0 {
        lemma_pass_weighs_less(s);
    }
}

/// Whatever is not part of a remote URL is kept by stripping, in its order.
pub proof fn stripping_keeps_the_rest(s: Seq<char>, i: int, k: int)
    requires
        0 <= i < k < s.len(),
        place_after(s, i) is Some,
        place_after(s, k) is Some,
    ensures
        0 <= place_after(s, i)->0 < place_after(s, k)->0 < stripped(s).len(),
        stripped(s)[place_after(s, i)->0] == s[i],
        stripped(s)[place_after(s, k)->0] == s[k],
    decreases weight(s),
{
    if remote_places(s).len() > 0 {
        let kept = chosen(remote_places(s), 0);
        let t = pass(s);
        lemma_found(s);
        lemma_chosen(s, remote_places(s), 0);
        lemma_patched(s, kept);
        lemma_pass_weighs_less(s);
        lemma_free(s, t, kept, i);
        lemma_free(s, t, kept, k);
        assert(outside(kept, i) && outside(kept, k)) by {
            assert forall|j: int| 0 <= j < kept.len() implies !((#[trigger] kept[j]).0 < i
                < kept[j].1) && !(kept[j].0 < k < kept[j].1) by {
                assert(!(kept[j].0 <= i < kept[j].1));
                assert(!(kept[j].0 <= k < kept[j].1));
            }
        }
        lemma_moved_order(s, t, kept, i, k);
        stripping_keeps_the_rest(t, moved(kept, i), moved(kept, k));
    }
}

} // verus!
