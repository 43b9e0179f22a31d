//! A document without an `@import` needs one pass: what is rewritten in it once has
//! nothing left to fetch.

use vstd::prelude::*;

use crate::markup::{
    comment_close, declaration_end, lemma_declaration, opens_declaration, tag_stands,
};
use crate::remote::{
    attribute_at, behind_element, blocked, body_end, body_start, closes_itself, closing_tag,
    css_places, css_url_places, css_value_end, css_value_start, depth_behind, fetching, holds_text,
    if_remote, import_word, in_order, is_remote, lemma_attribute, lemma_body_end, lemma_css_value,
    lemma_tag_end, lemma_text_end, lemma_walk_step, name_start, pass, remote_places, rewritten,
    sheet_places, srcset_places, stripped, style_close, tag_places, text_end, url_open, url_places,
    value_places, walk_places, Place,
};
use crate::stripping::{
    apart, chosen, clear, covered, edge, ends_edged, free, holds_remote, lemma_attribute_edged,
    lemma_begins_blocked, lemma_block, lemma_blocked, lemma_chosen,
    lemma_css_bounds, lemma_css_url_bounds, lemma_either, lemma_find_stands, lemma_found,
    lemma_free, lemma_in_order, lemma_moved_order, lemma_patched, lemma_shift_before,
    lemma_split_member, lemma_srcset_bounds, lemma_tag_bounds, lemma_url_bounds,
    lemma_value_bounds, lemma_walk_bounds, moved, outside, patched,
};
use crate::text::{
    find_ci, is_space, lemma_skip, lemma_stands, lower, lower_all, skip, stands_at, stands_at_ci,
    Class,
};

verus! {

/// Whether no `@import`, in whatever case, stands in the text.
pub open spec fn no_imports(s: Seq<char>) -> bool {
    find_ci(s, import_word(), 0, s.len() as int) is None
}

// ----- Both texts -----

/// The whole text.
proof fn lemma_moved_end(s: Seq<char>, t: Seq<char>, kept: Seq<Place>)
    requires
        patched(s, t, kept),
    ensures
        t.len() == moved(kept, s.len() as int),
        outside(kept, s.len() as int),
        outside(kept, 0),
        moved(kept, 0) == 0,
{
    reveal(patched);
    assert forall|j: int| 0 <= j < kept.len() implies 0 < (#[trigger] kept[j]).1 by {
    }
    lemma_shift_before(kept, 0);
}

/// A text that is kept as a whole stays the same.
proof fn lemma_same_text(s: Seq<char>, t: Seq<char>, kept: Seq<Place>, a: int, b: int)
    requires
        patched(s, t, kept),
        0 <= a <= b <= s.len(),
        clear(kept, a, b),
        outside(kept, a),
        outside(kept, b),
    ensures
        0 <= moved(kept, a) <= moved(kept, b) <= t.len(),
        moved(kept, b) == moved(kept, a) + b - a,
        t.subrange(moved(kept, a), moved(kept, b)) == s.subrange(a, b),
    decreases b - a,
{
    lemma_moved_end(s, t, kept);
    lemma_moved_order(s, t, kept, a, b);
    lemma_moved_order(s, t, kept, 0, a);
    lemma_moved_order(s, t, kept, b, s.len() as int);
    if a < b {
        assert(free(kept, a)) by {
            assert forall|j: int| 0 <= j < kept.len()
                implies !((#[trigger] kept[j]).0 <= a < kept[j].1) by {
                assert(kept[j].1 <= a || b <= kept[j].0);
            }
        }
        lemma_free(s, t, kept, a);
        assert(clear(kept, a + 1, b)) by {
            assert forall|x: int| 0 <= x < kept.len()
                implies (#[trigger] kept[x]).1 <= a + 1 || b <= kept[x].0 by {
                assert(kept[x].1 <= a || b <= kept[x].0);
            }
        }
        lemma_same_text(s, t, kept, a + 1, b);
        let m = moved(kept, a);
        assert(t.subrange(m, moved(kept, b)) =~= seq![t[m]] + t.subrange(m + 1, moved(kept, b)));
        assert(s.subrange(a, b) =~= seq![s[a]] + s.subrange(a + 1, b));
    } else {
        assert(t.subrange(moved(kept, a), moved(kept, b)) =~= s.subrange(a, b));
    }
}

// ----- Scans and searches over both texts -----

/// Whether a scan passes over what stands in place of a remote URL.
pub open spec fn neutral(class: Class) -> bool {
    forall|x: int| 0 <= x < 10 ==> class.has(#[trigger] blocked()[x])
}

/// The classes whose scans pass over what stands in place of a remote URL.
proof fn lemma_neutral(c: char)
    ensures
        c == '"' || c == '\'' || c == ',' || c == ')' ==> neutral(Class::Not(c)) && neutral(
            Class::NotNorSpace(c),
        ),
        neutral(Class::NotSpace),
        neutral(Class::Unquoted),
{
    lemma_blocked();
}

proof fn lemma_skip_from(s: Seq<char>, i: int, k: int, lim: int, class: Class)
    requires
        i <= k <= skip(s, i, lim, class),
    ensures
        skip(s, k, lim, class) == skip(s, i, lim, class),
    decreases k - i,
{
    if i < k {
        lemma_skip_from(s, i + 1, k, lim, class);
    }
}

proof fn lemma_skip_run(s: Seq<char>, i: int, k: int, lim: int, class: Class)
    requires
        i <= k <= lim,
        forall|x: int| i <= x < k ==> class.has(#[trigger] s[x]),
    ensures
        skip(s, i, lim, class) == skip(s, k, lim, class),
    decreases k - i,
{
    if i < k {
        lemma_skip_run(s, i + 1, k, lim, class);
    }
}

/// A scan over the rewritten text stops where it stopped before.
proof fn lemma_skip_moved(
    s: Seq<char>,
    t: Seq<char>,
    kept: Seq<Place>,
    i: int,
    lim: int,
    class: Class,
)
    requires
        patched(s, t, kept),
        0 <= i <= lim <= s.len(),
        outside(kept, i),
        outside(kept, lim),
        ({
            let e = skip(s, i, lim, class);
            &&& forall|j: int|
                0 <= j < kept.len() && i <= (#[trigger] kept[j]).0 < e ==> kept[j].1 <= e
                    && neutral(class)
            &&& e < lim ==> free(kept, e) || !class.has('b')
        }),
    ensures
        ({
            let e = skip(s, i, lim, class);
            &&& skip(t, moved(kept, i), moved(kept, lim), class) == moved(kept, e)
            &&& outside(kept, e)
            &&& i <= e <= lim
        }),
    decreases lim - i,
{
    let e = skip(s, i, lim, class);
    lemma_skip(s, i, lim, class);
    lemma_blocked();
    assert(outside(kept, e)) by {
        assert forall|j: int| 0 <= j < kept.len() implies !((#[trigger] kept[j]).0 < e < kept[j].1) by {
            assert(!(kept[j].0 < i < kept[j].1));
        }
    }
    lemma_moved_order(s, t, kept, i, lim);
    if i < lim {
        let j = lemma_either(kept, i);
        if free(kept, i) {
            lemma_free(s, t, kept, i);
            if i < e {
                lemma_skip_moved(s, t, kept, i + 1, lim, class);
            }
        } else {
            lemma_block(s, t, kept, j);
            let (a, b) = kept[j];
            assert(t[moved(kept, a) + 0] == blocked()[0]);
            if i < e {
                lemma_skip_from(s, i, b, lim, class);
                assert(forall|k: int|
                    0 <= k < kept.len() && b <= (#[trigger] kept[k]).0 < e ==> kept[k].1 <= e && neutral(
                        class,
                    ));
                lemma_skip_moved(s, t, kept, b, lim, class);
                lemma_moved_order(s, t, kept, b, lim);
                assert forall|x: int| moved(kept, a) <= x < moved(kept, a) + 10 implies class.has(
                    #[trigger] t[x],
                ) by {
                    let y = x - moved(kept, a);
                    assert(t[moved(kept, a) + y] == blocked()[y]);
                }
                lemma_skip_run(t, moved(kept, a), moved(kept, b), moved(kept, lim), class);
            }
        }
    }
}

/// Whether a pattern cannot stand on anything that replaces a remote URL.
pub open spec fn alien(p: Seq<char>) -> bool {
    &&& p.len() > 0
    &&& forall|x: int| 0 <= x < 10 ==> #[trigger] blocked()[x] != p[0]
    &&& forall|y: int| 0 <= y < p.len() ==> #[trigger] p[y] != 'b'
}

/// The first place from `i` on where the pattern stands and is kept.
pub open spec fn find_clear(s: Seq<char>, kept: Seq<Place>, p: Seq<char>, i: int, lim: int) -> Option<int>
    decreases lim - i,
{
    if i >= lim {
        None
    } else if i + p.len() <= lim && clear(kept, i, i + p.len()) && stands_at_ci(s, p, i) {
        Some(i)
    } else {
        find_clear(s, kept, p, i + 1, lim)
    }
}

/// A pattern in the rewritten text stands where everything was kept.
proof fn lemma_stands_clear(
    s: Seq<char>,
    t: Seq<char>,
    kept: Seq<Place>,
    p: Seq<char>,
    i: int,
    y: int,
)
    requires
        patched(s, t, kept),
        alien(p),
        0 <= i < s.len(),
        free(kept, i),
        stands_at_ci(t, p, moved(kept, i)),
        0 < y <= p.len(),
    ensures
        clear(kept, i, i + y),
        i + y <= s.len(),
        moved(kept, i + y) == moved(kept, i) + y,
        outside(kept, i + y),
        outside(kept, i),
    decreases y,
{
    lemma_moved_end(s, t, kept);
    assert(outside(kept, i)) by {
        assert forall|j: int| 0 <= j < kept.len() implies !((#[trigger] kept[j]).0 < i < kept[j].1) by {
            assert(!(kept[j].0 <= i < kept[j].1));
        }
    }
    if y == 1 {
        lemma_free(s, t, kept, i);
        assert forall|j: int| 0 <= j < kept.len()
            implies (#[trigger] kept[j]).1 <= i || i + 1 <= kept[j].0 by {
            assert(!(kept[j].0 <= i < kept[j].1));
        }
    } else {
        lemma_stands_clear(s, t, kept, p, i, y - 1);
        let k = i + y - 1;
        lemma_moved_order(s, t, kept, k, s.len() as int);
        if k == s.len() {
            assert(moved(kept, k) == t.len());
            assert(false);
        }
        let j = lemma_either(kept, k);
        lemma_stands(t, p, moved(kept, i), y - 1);
        if !free(kept, k) {
            lemma_block(s, t, kept, j);
            lemma_blocked();
            assert(t[moved(kept, k) + 0] == blocked()[0]);
            assert(lower('b') == 'b');
            assert(p[y - 1] == 'b');
            assert(false);
        }
        lemma_free(s, t, kept, k);
        assert forall|x: int| 0 <= x < kept.len()
            implies (#[trigger] kept[x]).1 <= i || i + y <= kept[x].0 by {
            assert(kept[x].1 <= i || i + (y - 1) <= kept[x].0);
            assert(!(kept[x].0 <= k < kept[x].1));
            lemma_block(s, t, kept, x);
        }
    }
}

proof fn lemma_find_run(t: Seq<char>, p: Seq<char>, x: int, y: int, lim: int)
    requires
        x <= y,
        forall|k: int| x <= k < y ==> !#[trigger] stands_at_ci(t, p, k),
    ensures
        find_ci(t, p, x, lim) == find_ci(t, p, y, lim),
    decreases y - x,
{
    if x < y {
        lemma_find_run(t, p, x + 1, y, lim);
        if x >= lim || x + p.len() > lim {
            lemma_find_beyond(t, p, x + 1, y, lim);
        }
    }
}

proof fn lemma_find_beyond(t: Seq<char>, p: Seq<char>, x: int, y: int, lim: int)
    requires
        x <= y,
        x - 1 >= lim || x - 1 + p.len() > lim,
    ensures
        find_ci(t, p, y, lim) is None,
{
}

proof fn lemma_find_moved(
    s: Seq<char>,
    t: Seq<char>,
    kept: Seq<Place>,
    p: Seq<char>,
    i: int,
    lim: int,
)
    requires
        patched(s, t, kept),
        alien(p),
        0 <= i <= lim <= s.len(),
        outside(kept, i),
        outside(kept, lim),
    ensures
        match find_clear(s, kept, p, i, lim) {
            Some(k) => find_ci(t, p, moved(kept, i), moved(kept, lim)) == Some(moved(kept, k)),
            None => find_ci(t, p, moved(kept, i), moved(kept, lim)) is None,
        },
    decreases lim - i,
{
    lemma_moved_order(s, t, kept, i, lim);
    lemma_moved_end(s, t, kept);
    lemma_moved_order(s, t, kept, lim, s.len() as int);
    if i < lim {
        let j = lemma_either(kept, i);
        let x = moved(kept, i);
        if free(kept, i) {
            lemma_free(s, t, kept, i);
            lemma_find_moved(s, t, kept, p, i + 1, lim);
            if stands_at_ci(t, p, x) {
                lemma_stands_clear(s, t, kept, p, i, p.len() as int);
                lemma_same_text(s, t, kept, i, i + p.len());
                assert(stands_at_ci(s, p, i));
                if i + p.len() > lim {
                    lemma_moved_order(s, t, kept, lim, i + p.len());
                    assert(find_ci(t, p, x, moved(kept, lim)) is None);
                    lemma_find_beyond(t, p, x + 1, x + 1, moved(kept, lim));
                } else {
                    lemma_moved_order(s, t, kept, i + p.len(), lim);
                }
            } else {
                if i + p.len() <= lim && clear(kept, i, i + p.len()) && stands_at_ci(s, p, i) {
                    assert(outside(kept, i + p.len())) by {
                        assert forall|k: int| 0 <= k < kept.len()
                            implies !((#[trigger] kept[k]).0 < i + p.len() < kept[k].1) by {
                            assert(kept[k].1 <= i || i + p.len() <= kept[k].0);
                        }
                    }
                    lemma_same_text(s, t, kept, i, i + p.len());
                    assert(false);
                }
                if x + p.len() > moved(kept, lim) {
                    lemma_find_beyond(t, p, x + 1, x + 1, moved(kept, lim));
                }
            }
        } else {
            let (a, b) = kept[j];
            lemma_block(s, t, kept, j);
            lemma_blocked();
            assert(b <= lim) by {
                assert(!(kept[j].0 < lim < kept[j].1));
            }
            lemma_find_moved(s, t, kept, p, b, lim);
            lemma_clear_beyond(s, kept, p, j, a, lim);
            assert forall|k: int| x <= k < x + 10 implies !#[trigger] stands_at_ci(t, p, k) by {
                if stands_at_ci(t, p, k) {
                    lemma_stands(t, p, k, 0);
                    let y = k - x;
                    assert(t[moved(kept, a) + y] == blocked()[y]);
                    assert(lower(blocked()[y]) == blocked()[y]);
                }
            }
            lemma_find_run(t, p, x, x + 10, moved(kept, lim));
        }
    }
}

/// No pattern is kept where a place begins or goes on.
proof fn lemma_clear_beyond(
    s: Seq<char>,
    kept: Seq<Place>,
    p: Seq<char>,
    j: int,
    i: int,
    lim: int,
)
    requires
        0 <= j < kept.len(),
        kept[j].0 <= i <= kept[j].1 <= lim,
        p.len() > 0,
    ensures
        find_clear(s, kept, p, i, lim) == find_clear(s, kept, p, kept[j].1, lim),
    decreases kept[j].1 - i,
{
    if i < kept[j].1 {
        lemma_clear_beyond(s, kept, p, j, i + 1, lim);
        assert(!clear(kept, i, i + p.len())) by {
            assert(!(kept[j].1 <= i || i + p.len() <= kept[j].0));
        }
    }
}

/// A pattern that is kept is found where it stood, and one that was not there is not
/// found.
proof fn lemma_find_same(
    s: Seq<char>,
    t: Seq<char>,
    kept: Seq<Place>,
    p: Seq<char>,
    i: int,
    lim: int,
)
    requires
        patched(s, t, kept),
        alien(p),
        0 <= i <= lim <= s.len(),
        outside(kept, i),
        outside(kept, lim),
        find_ci(s, p, i, lim) matches Some(k) ==> clear(kept, k, k + p.len()),
    ensures
        match find_ci(s, p, i, lim) {
            Some(k) => find_ci(t, p, moved(kept, i), moved(kept, lim)) == Some(moved(kept, k)),
            None => find_ci(t, p, moved(kept, i), moved(kept, lim)) is None,
        },
{
    lemma_find_moved(s, t, kept, p, i, lim);
    lemma_clear_same(s, kept, p, i, lim);
}

proof fn lemma_clear_same(s: Seq<char>, kept: Seq<Place>, p: Seq<char>, i: int, lim: int)
    requires
        p.len() > 0,
        find_ci(s, p, i, lim) matches Some(k) ==> clear(kept, k, k + p.len()),
    ensures
        find_clear(s, kept, p, i, lim) == find_ci(s, p, i, lim),
    decreases lim - i,
{
    if i < lim {
        if i + p.len() > lim {
            lemma_clear_none(s, kept, p, i, lim);
        } else if stands_at_ci(s, p, i) {
        } else {
            lemma_clear_same(s, kept, p, i + 1, lim);
        }
    }
}

proof fn lemma_clear_none(s: Seq<char>, kept: Seq<Place>, p: Seq<char>, i: int, lim: int)
    requires
        i + p.len() > lim,
    ensures
        find_clear(s, kept, p, i, lim) is None,
    decreases lim - i,
{
    if i < lim {
        lemma_clear_none(s, kept, p, i + 1, lim);
    }
}

proof fn lemma_alien()
    ensures
        alien(url_open()),
        alien(import_word()),
        alien(style_close()),
{
    lemma_blocked();
}

proof fn lemma_find_first(s: Seq<char>, p: Seq<char>, at: int, end: int, k: int)
    requires
        at <= k,
        k + p.len() <= end,
        p.len() > 0,
        stands_at_ci(s, p, k),
    ensures
        find_ci(s, p, at, end) matches Some(f) && at <= f <= k,
    decreases k - at,
{
    if at < k && !stands_at_ci(s, p, at) {
        lemma_find_first(s, p, at + 1, end, k);
    }
}

proof fn lemma_find_none(s: Seq<char>, p: Seq<char>, i: int, lim: int, a: int, b: int)
    requires
        find_ci(s, p, i, lim) is None,
        p.len() > 0,
        i <= a,
        b <= lim,
    ensures
        find_ci(s, p, a, b) is None,
{
    lemma_find_stands(s, p, a, b);
    if let Some(k) = find_ci(s, p, a, b) {
        lemma_find_first(s, p, i, lim, k);
    }
}

// ----- What was rewritten -----

/// Whether the beginning of each place is rewritten.
pub open spec fn settled(kept: Seq<Place>, found: Seq<Place>) -> bool {
    forall|k: int| 0 <= k < found.len() ==> covered(kept, #[trigger] found[k])
}

/// Whether each of the places from `a` up to `b` is among those that were found there.
pub open spec fn owned(kept: Seq<Place>, found: Seq<Place>, a: int, b: int) -> bool {
    forall|j: int|
        0 <= j < kept.len() ==> (#[trigger] kept[j]).1 <= a || b <= kept[j].0 || (a <= kept[j].0
            && kept[j].1 <= b && found.contains(kept[j]))
}

proof fn lemma_settled_split(kept: Seq<Place>, x: Seq<Place>, y: Seq<Place>)
    requires
        settled(kept, x + y),
    ensures
        settled(kept, x),
        settled(kept, y),
{
    assert forall|k: int| 0 <= k < x.len() implies covered(kept, #[trigger] x[k]) by {
        assert((x + y)[k] == x[k]);
    }
    assert forall|k: int| 0 <= k < y.len() implies covered(kept, #[trigger] y[k]) by {
        assert((x + y)[x.len() + k] == y[k]);
    }
}

/// The text of a place that was rewritten.
proof fn lemma_block_text(s: Seq<char>, t: Seq<char>, kept: Seq<Place>, j: int)
    requires
        patched(s, t, kept),
        0 <= j < kept.len(),
    ensures
        0 <= moved(kept, kept[j].0) < moved(kept, kept[j].1) <= t.len(),
        t.subrange(moved(kept, kept[j].0), moved(kept, kept[j].1)) == blocked(),
{
    lemma_block(s, t, kept, j);
    lemma_blocked();
    lemma_moved_end(s, t, kept);
    lemma_moved_order(s, t, kept, 0, kept[j].0);
    lemma_moved_order(s, t, kept, kept[j].1, s.len() as int);
    let m = moved(kept, kept[j].0);
    let r = t.subrange(m, m + 10);
    assert forall|x: int| 0 <= x < 10 implies r[x] == blocked()[x] by {
        assert(t[m + x] == blocked()[x]);
    }
    assert(r =~= blocked());
}

proof fn lemma_blocked_is_harmless()
    ensures
        !is_remote(blocked()),
{
    lemma_blocked();
    lemma_begins_blocked(blocked());
}

// ----- Stylesheets -----

/// No `url(…)` of a rewritten stylesheet is remote.
proof fn lemma_css_urls_clean(s: Seq<char>, t: Seq<char>, kept: Seq<Place>, at: int, end: int)
    requires
        patched(s, t, kept),
        0 <= at <= end <= s.len(),
        outside(kept, at),
        outside(kept, end),
        ends_edged(s, end),
        owned(kept, css_url_places(s, at, end), at, end),
        settled(kept, css_url_places(s, at, end)),
    ensures
        css_url_places(t, moved(kept, at), moved(kept, end)) == Seq::<Place>::empty(),
    decreases end - at,
{
    lemma_alien();
    lemma_find_stands(s, url_open(), at, end);
    match find_ci(s, url_open(), at, end) {
        None => {
            lemma_find_same(s, t, kept, url_open(), at, end);
        },
        Some(p) => {
            let a = css_value_start(s, p + 4, end);
            let b = css_value_end(s, p + 4, end);
            let v = skip(s, p + 4, end, Class::Space);
            lemma_css_value(s, p + 4, end);
            lemma_skip(s, p + 4, end, Class::Space);
            let here = if_remote(s, a, b);
            let rest = css_url_places(s, b, end);
            lemma_settled_split(kept, here, rest);
            assert forall|j: int| 0 <= j < kept.len() implies (#[trigger] kept[j]).0 < kept[j].1 && (
            kept[j].1 <= at || end <= kept[j].0 || kept[j] == (a, b) || (b + 4 <= kept[j].0
                && kept[j].1 <= end && rest.contains(kept[j]))) by {
                lemma_block(s, t, kept, j);
                if !(kept[j].1 <= at || end <= kept[j].0) {
                    lemma_split_member(here, rest, kept[j]);
                    if rest.contains(kept[j]) {
                        lemma_css_url_bounds(s, b, end, kept[j]);
                    }
                }
            }
            assert(clear(kept, p, p + 4));
            assert(outside(kept, p) && outside(kept, p + 4));
            lemma_find_same(s, t, kept, url_open(), at, end);
            lemma_same_text(s, t, kept, p, p + 4);
            lemma_moved_order(s, t, kept, p + 4, end);
            lemma_skip_moved(s, t, kept, p + 4, end, Class::Space);
            lemma_moved_order(s, t, kept, v, end);
            lemma_neutral('"');
            lemma_neutral('\'');
            lemma_neutral(')');
            assert(b < end ==> free(kept, b));
            if v < end && (s[v] == '"' || s[v] == '\'') {
                assert(free(kept, v));
                lemma_free(s, t, kept, v);
                lemma_skip(s, v + 1, end, Class::Not(s[v]));
                lemma_skip_moved(s, t, kept, v + 1, end, Class::Not(s[v]));
            } else {
                lemma_skip(s, v, end, Class::NotNorSpace(')'));
                lemma_skip_moved(s, t, kept, v, end, Class::NotNorSpace(')'));
                if v < end {
                    let j = lemma_either(kept, v);
                    if free(kept, v) {
                        lemma_free(s, t, kept, v);
                    } else {
                        lemma_block(s, t, kept, j);
                        lemma_blocked();
                        assert(t[moved(kept, kept[j].0) + 0] == blocked()[0]);
                    }
                }
            }
            assert(css_value_start(t, moved(kept, p) + 4, moved(kept, end)) == moved(kept, a));
            assert(css_value_end(t, moved(kept, p) + 4, moved(kept, end)) == moved(kept, b));
            assert(outside(kept, a) && outside(kept, b));
            if exists|j: int| 0 <= j < kept.len() && kept[j] == (a, b) {
                let j = choose|j: int| 0 <= j < kept.len() && kept[j] == (a, b);
                lemma_block_text(s, t, kept, j);
                lemma_blocked_is_harmless();
            } else {
                assert(clear(kept, a, b));
                lemma_same_text(s, t, kept, a, b);
                if a < b && is_remote(s.subrange(a, b)) {
                    assert(here[0] == (a, b));
                    assert(covered(kept, here[0]));
                    let j = choose|j: int|
                        0 <= j < kept.len() && (#[trigger] kept[j]).0 <= a < kept[j].1;
                    assert(false);
                }
            }
            assert(owned(kept, rest, b, end));
            lemma_css_urls_clean(s, t, kept, b, end);
            assert(if_remote(t, moved(kept, a), moved(kept, b)) =~= Seq::<Place>::empty());
            assert(css_url_places(t, moved(kept, at), moved(kept, end)) =~= Seq::<Place>::empty());
        },
    }
}

/// Nothing in a rewritten stylesheet is remote.
proof fn lemma_css_clean(s: Seq<char>, t: Seq<char>, kept: Seq<Place>, start: int, end: int)
    requires
        patched(s, t, kept),
        no_imports(s),
        0 <= start <= end <= s.len(),
        outside(kept, start),
        outside(kept, end),
        ends_edged(s, end),
        owned(kept, css_places(s, start, end), start, end),
        settled(kept, css_places(s, start, end)),
    ensures
        css_places(t, moved(kept, start), moved(kept, end)) == Seq::<Place>::empty(),
{
    lemma_alien();
    lemma_find_none(s, import_word(), 0, s.len() as int, start, end);
    assert(css_places(s, start, end) =~= css_url_places(s, start, end));
    lemma_css_urls_clean(s, t, kept, start, end);
    lemma_find_same(s, t, kept, import_word(), start, end);
    assert(css_places(t, moved(kept, start), moved(kept, end)) =~= Seq::<Place>::empty());
}

// ----- Values of attributes -----

/// The URL of a rewritten value is not remote.
proof fn lemma_url_clean(s: Seq<char>, t: Seq<char>, kept: Seq<Place>, start: int, end: int)
    requires
        patched(s, t, kept),
        0 <= start <= end <= s.len(),
        outside(kept, start),
        outside(kept, end),
        owned(kept, url_places(s, start, end), start, end),
        settled(kept, url_places(s, start, end)),
    ensures
        url_places(t, moved(kept, start), moved(kept, end)) == Seq::<Place>::empty(),
{
    let a = skip(s, start, end, Class::Space);
    let b = skip(s, a, end, Class::NotSpace);
    let found = url_places(s, start, end);
    lemma_skip(s, start, end, Class::Space);
    lemma_skip(s, a, end, Class::NotSpace);
    lemma_neutral('"');
    assert forall|j: int| 0 <= j < kept.len()
        implies (#[trigger] kept[j]).1 <= start || end <= kept[j].0
        || kept[j] == (a, b) by {
        assert(kept[j].1 <= start || end <= kept[j].0 || found.contains(kept[j]));
    }
    assert forall|j: int| 0 <= j < kept.len() && start <= (#[trigger] kept[j]).0 < a implies kept[j].1
        <= a && neutral(Class::Space) by {
        lemma_block(s, t, kept, j);
    }
    lemma_skip_moved(s, t, kept, start, end, Class::Space);
    assert forall|j: int| 0 <= j < kept.len() && a <= (#[trigger] kept[j]).0 < b implies kept[j].1 <= b
        && neutral(Class::NotSpace) by {
        lemma_block(s, t, kept, j);
    }
    assert(b < end ==> free(kept, b));
    lemma_skip_moved(s, t, kept, a, end, Class::NotSpace);
    if exists|j: int| 0 <= j < kept.len() && kept[j] == (a, b) {
        let j = choose|j: int| 0 <= j < kept.len() && kept[j] == (a, b);
        lemma_block_text(s, t, kept, j);
        lemma_blocked_is_harmless();
    } else {
        lemma_same_text(s, t, kept, a, b);
        if a < b && is_remote(s.subrange(a, b)) {
            assert(found[0] == (a, b));
            assert(covered(kept, found[0]));
            let j = choose|j: int| 0 <= j < kept.len() && (#[trigger] kept[j]).0 <= a < kept[j].1;
            assert(false);
        }
    }
}

/// No URL of a rewritten `srcset` is remote.
#[verifier::rlimit(30)]
proof fn lemma_srcset_clean(s: Seq<char>, t: Seq<char>, kept: Seq<Place>, at: int, end: int)
    requires
        patched(s, t, kept),
        0 < at <= end <= s.len(),
        edge(s[at - 1]),
        ends_edged(s, end),
        outside(kept, at),
        outside(kept, end),
        owned(kept, srcset_places(s, at, end), at, end),
        settled(kept, srcset_places(s, at, end)),
    ensures
        srcset_places(t, moved(kept, at), moved(kept, end)) == Seq::<Place>::empty(),
    decreases end - at,
{
    lemma_moved_order(s, t, kept, at, end);
    if at < end {
        let comma = skip(s, at, end, Class::Not(','));
        lemma_skip(s, at, end, Class::Not(','));
        let here = url_places(s, at, comma);
        let rest = srcset_places(s, comma + 1, end);
        lemma_settled_split(kept, here, rest);
        lemma_neutral(',');
        assert(ends_edged(s, comma));
        assert forall|j: int| 0 <= j < kept.len()
            implies (#[trigger] kept[j]).1 <= at || end <= kept[j].0
            || (at <= kept[j].0 && kept[j].1 <= comma && here.contains(kept[j])) || (comma < kept[j].0
            && kept[j].1 <= end && rest.contains(kept[j])) by {
            if !(kept[j].1 <= at || end <= kept[j].0) {
                lemma_split_member(here, rest, kept[j]);
                if here.contains(kept[j]) {
                    lemma_url_bounds(s, at, comma, kept[j]);
                } else {
                    assert(comma < end);
                    lemma_srcset_bounds(s, comma + 1, end, kept[j]);
                }
            }
        }
        assert forall|j: int| 0 <= j < kept.len() && at <= (#[trigger] kept[j]).0 < comma
            implies kept[j].1
            <= comma && neutral(Class::Not(',')) by {
            lemma_block(s, t, kept, j);
        }
        assert(comma < end ==> free(kept, comma));
        lemma_skip_moved(s, t, kept, at, end, Class::Not(','));
        assert(owned(kept, here, at, comma));
        lemma_url_clean(s, t, kept, at, comma);
        lemma_moved_order(s, t, kept, comma, end);
        if comma < end {
            lemma_free(s, t, kept, comma);
            assert(owned(kept, rest, comma + 1, end));
            lemma_srcset_clean(s, t, kept, comma + 1, end);
        } else {
            assert(srcset_places(t, moved(kept, end) + 1, moved(kept, end)) =~= Seq::<Place>::empty());
        }
        assert(srcset_places(t, moved(kept, at), moved(kept, end)) =~= Seq::<Place>::empty());
    }
}

/// Nothing in the rewritten value of an attribute is remote.
proof fn lemma_value_clean(
    s: Seq<char>,
    t: Seq<char>,
    kept: Seq<Place>,
    tag: Seq<char>,
    attr: Seq<char>,
    start: int,
    end: int,
)
    requires
        patched(s, t, kept),
        no_imports(s),
        0 < start <= end <= s.len(),
        edge(s[start - 1]),
        ends_edged(s, end),
        outside(kept, start),
        outside(kept, end),
        owned(kept, value_places(s, tag, attr, start, end), start, end),
        settled(kept, value_places(s, tag, attr, start, end)),
    ensures
        value_places(t, tag, attr, moved(kept, start), moved(kept, end)) == Seq::<Place>::empty(),
{
    if attr == "srcset"@ || attr == "imagesrcset"@ {
        lemma_srcset_clean(s, t, kept, start, end);
    } else if attr == "style"@ {
        lemma_css_clean(s, t, kept, start, end);
    } else if fetching(tag, attr) {
        lemma_url_clean(s, t, kept, start, end);
    }
}

// ----- Tags -----

/// Whether the places around the attribute at `j` lie before it, in its value, or
/// behind it and the white space that follows.
spec fn around_attribute(s: Seq<char>, kept: Seq<Place>, j: int) -> bool {
    let a = attribute_at(s, j);
    forall|x: int|
        0 <= x < kept.len() ==> (#[trigger] kept[x]).1 <= j || (a.valued && a.start <= kept[x].0
            && kept[x].1 <= a.end) || skip(s, a.next, s.len() as int, Class::Space) < kept[x].0
}

/// An attribute in the rewritten text.
proof fn lemma_attribute_moved(s: Seq<char>, t: Seq<char>, kept: Seq<Place>, j: int)
    requires
        patched(s, t, kept),
        0 <= j < s.len(),
        s[j] != '>' && s[j] != '/' && !is_space(s[j]),
        around_attribute(s, kept, j),
    ensures
        ({
            let a = attribute_at(s, j);
            let b = attribute_at(t, moved(kept, j));
            &&& b.name_end == moved(kept, a.name_end)
            &&& b.valued == a.valued
            &&& b.next == moved(kept, a.next)
            &&& a.valued ==> b.start == moved(kept, a.start) && b.end == moved(kept, a.end)
            &&& free(kept, j)
            &&& clear(kept, j, a.name_end)
            &&& outside(kept, j) && outside(kept, a.name_end) && outside(kept, a.next)
            &&& a.valued ==> outside(kept, a.start) && outside(kept, a.end)
        }),
{
    let n = s.len() as int;
    let a = attribute_at(s, j);
    let after = skip(s, a.next, n, Class::Space);
    lemma_attribute(s, j);
    lemma_skip(s, a.next, n, Class::Space);
    lemma_moved_end(s, t, kept);
    assert forall|x: int| 0 <= x < kept.len() implies ((#[trigger] kept[x]).1 <= j || (a.valued
        && a.start <= kept[x].0 && kept[x].1 <= a.end) || after < kept[x].0) && kept[x].0 < kept[x].1 by {
        lemma_block(s, t, kept, x);
    }
    assert(free(kept, j) && outside(kept, j));
    let name_end = skip(s, j, n, Class::AttrName);
    lemma_skip(s, j, n, Class::AttrName);
    assert(a.name_end == name_end);
    lemma_free(s, t, kept, j);
    assert(name_end < n ==> free(kept, name_end));
    lemma_skip_moved(s, t, kept, j, n, Class::AttrName);
    lemma_moved_order(s, t, kept, j, name_end);
    lemma_moved_order(s, t, kept, name_end, n);
    if name_end > j {
        let eq = skip(s, name_end, n, Class::Space);
        lemma_skip(s, name_end, n, Class::Space);
        lemma_moved_order(s, t, kept, name_end, n);
        assert(forall|x: int|
            0 <= x < kept.len() ==> !(name_end <= (#[trigger] kept[x]).0 < eq));
        lemma_skip_moved(s, t, kept, name_end, n, Class::Space);
        lemma_moved_order(s, t, kept, eq, n);
        if eq < n {
            lemma_skip(s, eq + 1, n, Class::Space);
            assert(free(kept, eq));
            lemma_free(s, t, kept, eq);
            if s[eq] == '=' {
                let v = skip(s, eq + 1, n, Class::Space);
                lemma_skip(s, eq + 1, n, Class::Space);
                assert(forall|x: int|
                    0 <= x < kept.len() ==> !(eq + 1 <= (#[trigger] kept[x]).0 < v));
                lemma_skip_moved(s, t, kept, eq + 1, n, Class::Space);
                lemma_moved_order(s, t, kept, v, n);
                lemma_attribute_value(s, t, kept, j, v);
            }
        }
    }
}

/// The value of an attribute in the rewritten text; it begins at `v` or behind a quote
/// there.
proof fn lemma_attribute_value(s: Seq<char>, t: Seq<char>, kept: Seq<Place>, j: int, v: int)
    requires
        patched(s, t, kept),
        0 <= j < s.len(),
        around_attribute(s, kept, j),
        attribute_at(s, j).valued,
        ({
            let n = s.len() as int;
            let eq = skip(s, skip(s, j, n, Class::AttrName), n, Class::Space);
            eq < n && v == skip(s, eq + 1, n, Class::Space)
        }),
        j < v <= s.len(),
        outside(kept, v),
    ensures
        ({
            let n = s.len() as int;
            let a = attribute_at(s, j);
            let quote = v < n && (s[v] == '"' || s[v] == '\'');
            let m = moved(kept, v);
            &&& quote == (m < t.len() && (t[m] == '"' || t[m] == '\''))
            &&& quote ==> t[m] == s[v] && skip(t, m + 1, t.len() as int, Class::Not(s[v])) == moved(
                kept,
                a.end,
            ) && m + 1 == moved(kept, a.start)
            &&& !quote ==> skip(t, m, t.len() as int, Class::Unquoted) == moved(kept, a.end)
            &&& a.end < n ==> moved(kept, a.end) < t.len() && moved(kept, a.end + 1) == moved(
                kept,
                a.end,
            ) + 1
            &&& a.end == n ==> moved(kept, a.end) == t.len()
            &&& outside(kept, a.start) && outside(kept, a.end) && outside(kept, a.next)
        }),
{
    let n = s.len() as int;
    let a = attribute_at(s, j);
    let after = skip(s, a.next, n, Class::Space);
    lemma_attribute(s, j);
    lemma_skip(s, a.next, n, Class::Space);
    lemma_moved_end(s, t, kept);
    lemma_moved_order(s, t, kept, v, n);
    assert forall|x: int| 0 <= x < kept.len() implies ((#[trigger] kept[x]).1 <= j || (a.start
        <= kept[x].0 && kept[x].1 <= a.end) || after < kept[x].0) && kept[x].0 < kept[x].1 by {
        lemma_block(s, t, kept, x);
    }
    lemma_neutral('"');
    lemma_neutral('\'');
    assert(a.end < n ==> free(kept, a.end));
    assert(outside(kept, a.end) && outside(kept, a.next));
    if a.end < n {
        lemma_free(s, t, kept, a.end);
    }
    if v < n && (s[v] == '"' || s[v] == '\'') {
        assert(free(kept, v));
        lemma_free(s, t, kept, v);
        lemma_skip(s, v + 1, n, Class::Not(s[v]));
        lemma_skip_moved(s, t, kept, v + 1, n, Class::Not(s[v]));
    } else {
        lemma_skip(s, v, n, Class::Unquoted);
        lemma_skip_moved(s, t, kept, v, n, Class::Unquoted);
        if v < n {
            let x = lemma_either(kept, v);
            if free(kept, v) {
                lemma_free(s, t, kept, v);
            } else {
                lemma_block(s, t, kept, x);
                lemma_blocked();
                assert(t[moved(kept, v) + 0] == blocked()[0]);
            }
        }
    }
}

/// Whether the places behind `j` are among those that were found or lie behind `end`.
spec fn rest_owned(kept: Seq<Place>, found: Seq<Place>, j: int, end: int) -> bool {
    forall|x: int|
        0 <= x < kept.len() ==> (#[trigger] kept[x]).1 <= j || found.contains(kept[x]) || end < kept[x].0
}

proof fn lemma_tag_space(s: Seq<char>, tag: Seq<char>, j: int)
    requires
        0 <= j <= s.len(),
    ensures
        skip(s, j, s.len() as int, Class::Space) <= tag_places(s, tag, j).1,
    decreases s.len() - j,
{
    let n = s.len() as int;
    lemma_tag_end(s, tag, j);
    if j >= n || s[j] == '>' {
    } else if is_space(s[j]) || s[j] == '/' {
        lemma_tag_space(s, tag, j + 1);
    }
}

/// Nothing in a rewritten tag is remote, and it ends where it ended.
proof fn lemma_tag_clean(
    s: Seq<char>,
    t: Seq<char>,
    kept: Seq<Place>,
    tag: Seq<char>,
    j: int,
)
    requires
        patched(s, t, kept),
        no_imports(s),
        0 <= j <= s.len(),
        outside(kept, j),
        rest_owned(kept, tag_places(s, tag, j).0, j, tag_places(s, tag, j).1),
        settled(kept, tag_places(s, tag, j).0),
    ensures
        tag_places(t, tag, moved(kept, j)) == (
            Seq::<Place>::empty(),
            moved(kept, tag_places(s, tag, j).1),
        ),
        outside(kept, tag_places(s, tag, j).1),
        tag_places(s, tag, j).1 < s.len() ==> free(kept, tag_places(s, tag, j).1),
        closes_itself(t, moved(kept, j)) == closes_itself(s, j),
        j < s.len() ==> free(kept, j),
    decreases s.len() - j,
{
    let n = s.len() as int;
    let found = tag_places(s, tag, j).0;
    let end = tag_places(s, tag, j).1;
    lemma_tag_end(s, tag, j);
    lemma_tag_space(s, tag, j);
    lemma_moved_end(s, t, kept);
    lemma_moved_order(s, t, kept, 0, j);
    let first = skip(s, j, n, Class::Space);
    lemma_skip(s, j, n, Class::Space);
    assert forall|x: int| 0 <= x < kept.len() implies (#[trigger] kept[x]).1 <= j || (found.contains(
        kept[x],
    ) && first < kept[x].0 && kept[x].1 <= end) || end < kept[x].0 by {
        if found.contains(kept[x]) {
            lemma_tag_bounds(s, tag, j, kept[x]);
        }
    }
    if j < n {
        assert(free(kept, j)) by {
            assert forall|x: int| 0 <= x < kept.len()
                implies !((#[trigger] kept[x]).0 <= j < kept[x].1) by {
                assert(kept[x].1 <= j || first < kept[x].0 || end < kept[x].0);
            }
        }
        lemma_free(s, t, kept, j);
        if s[j] == '>' {
        } else if is_space(s[j]) || s[j] == '/' {
            assert(rest_owned(kept, found, j + 1, end)) by {
                assert forall|x: int| 0 <= x < kept.len() implies (#[trigger] kept[x]).1 <= j + 1
                    || found.contains(kept[x]) || end < kept[x].0 by {
                    assert(kept[x].1 <= j || found.contains(kept[x]) || end < kept[x].0);
                }
            }
            lemma_tag_clean(s, t, kept, tag, j + 1);
            if j + 1 < n {
                lemma_free(s, t, kept, j + 1);
            }
            assert(closes_itself(t, moved(kept, j)) == closes_itself(s, j));
        } else {
            lemma_tag_attribute_clean(s, t, kept, tag, j);
            let next = attribute_at(s, j).next;
            lemma_tag_clean(s, t, kept, tag, next);
            lemma_attribute(s, j);
            lemma_attribute(t, moved(kept, j));
            assert(closes_itself(s, j) == closes_itself(s, next));
            assert(closes_itself(t, moved(kept, j)) == closes_itself(t, moved(kept, next)));
        }
    }
}

/// Nothing in the rewritten attribute at `j` is remote.
proof fn lemma_tag_attribute_clean(
    s: Seq<char>,
    t: Seq<char>,
    kept: Seq<Place>,
    tag: Seq<char>,
    j: int,
)
    requires
        patched(s, t, kept),
        no_imports(s),
        0 <= j < s.len(),
        s[j] != '>' && s[j] != '/' && !is_space(s[j]),
        rest_owned(kept, tag_places(s, tag, j).0, j, tag_places(s, tag, j).1),
        settled(kept, tag_places(s, tag, j).0),
    ensures
        ({
            let a = attribute_at(s, j);
            let rest = tag_places(s, tag, a.next);
            &&& tag_places(t, tag, moved(kept, j)) == tag_places(t, tag, moved(kept, a.next))
            &&& attribute_at(t, moved(kept, j)).next == moved(kept, a.next)
            &&& t[moved(kept, j)] == s[j] && 0 <= moved(kept, j) < t.len()
            &&& j < a.next <= s.len()
            &&& outside(kept, a.next)
            &&& rest_owned(kept, rest.0, a.next, rest.1)
            &&& settled(kept, rest.0)
        }),
{
    let n = s.len() as int;
    let a = attribute_at(s, j);
    let found = tag_places(s, tag, j).0;
    let end = tag_places(s, tag, j).1;
    let rest = tag_places(s, tag, a.next).0;
    let attr = lower_all(s.subrange(j, a.name_end));
    let here = if a.valued {
        value_places(s, tag, attr, a.start, a.end)
    } else {
        seq![]
    };
    let after = skip(s, a.next, n, Class::Space);
    lemma_attribute(s, j);
    lemma_tag_space(s, tag, a.next);
    lemma_tag_end(s, tag, a.next);
    lemma_skip(s, a.next, n, Class::Space);
    assert(found =~= here + rest);
    lemma_settled_split(kept, here, rest);
    assert forall|x: int| 0 <= x < kept.len() implies (#[trigger] kept[x]).1 <= j || (a.valued
        && here.contains(kept[x]) && a.start <= kept[x].0 && kept[x].1 <= a.end) || (after < kept[x].0
        && rest.contains(kept[x])) || end < kept[x].0 by {
        assert(kept[x].1 <= j || found.contains(kept[x]) || end < kept[x].0);
        if found.contains(kept[x]) {
            lemma_split_member(here, rest, kept[x]);
            if rest.contains(kept[x]) {
                lemma_tag_bounds(s, tag, a.next, kept[x]);
            } else {
                assert(a.valued) by {
                    if !a.valued {
                        assert(here.len() == 0);
                    }
                }
                lemma_attribute_edged(s, j);
                lemma_value_bounds(s, tag, attr, a.start, a.end, kept[x]);
            }
        }
    }
    assert(around_attribute(s, kept, j));
    lemma_attribute_moved(s, t, kept, j);
    assert(rest_owned(kept, rest, a.next, end));
    lemma_moved_end(s, t, kept);
    lemma_moved_order(s, t, kept, 0, j);
    lemma_free(s, t, kept, j);
    if a.valued {
        assert(owned(kept, here, a.start, a.end));
        lemma_attribute_edged(s, j);
        lemma_value_clean(s, t, kept, tag, attr, a.start, a.end);
        lemma_same_text(s, t, kept, j, a.name_end);
    }
    let m = moved(kept, j);
    let b = attribute_at(t, m);
    lemma_attribute(t, m);
    let tail = tag_places(t, tag, b.next);
    assert(Seq::<Place>::empty() + tail.0 =~= tail.0);
    assert(tag_places(t, tag, m) == tail);
}

// ----- Documents -----

/// Whether the places behind `i` are among those that were found.
spec fn all_owned(kept: Seq<Place>, found: Seq<Place>, i: int) -> bool {
    forall|x: int|
        0 <= x < kept.len() ==> (#[trigger] kept[x]).1 <= i || found.contains(kept[x])
}

/// The name of the tag at `i` in the rewritten text.
proof fn lemma_name_moved(s: Seq<char>, t: Seq<char>, kept: Seq<Place>, i: int)
    requires
        patched(s, t, kept),
        0 <= i < s.len(),
        ({
            let ne = skip(s, name_start(s, i), s.len() as int, Class::TagName);
            forall|x: int|
                0 <= x < kept.len() ==> (#[trigger] kept[x]).1 <= i || ne < kept[x].0
        }),
        name_start(s, i) <= s.len(),
    ensures
        ({
            let ns = name_start(s, i);
            let ne = skip(s, ns, s.len() as int, Class::TagName);
            let ms = name_start(t, moved(kept, i));
            let me = skip(t, ms, t.len() as int, Class::TagName);
            &&& t[moved(kept, i)] == s[i]
            &&& moved(kept, i) < t.len()
            &&& moved(kept, i + 1) == moved(kept, i) + 1
            &&& ms == moved(kept, ns)
            &&& me == moved(kept, ne)
            &&& t.subrange(ms, me) == s.subrange(ns, ne)
            &&& (ms == me) == (ns == ne)
            &&& (ms == moved(kept, i) + 1) == (ns == i + 1)
            &&& outside(kept, ne) && outside(kept, i + 1)
        }),
{
    let n = s.len() as int;
    let ns = name_start(s, i);
    let ne = skip(s, ns, n, Class::TagName);
    lemma_skip(s, ns, n, Class::TagName);
    lemma_moved_end(s, t, kept);
    assert forall|x: int| 0 <= x < kept.len() implies (#[trigger] kept[x]).0 < kept[x].1 by {
        lemma_block(s, t, kept, x);
    }
    assert(free(kept, i) && outside(kept, i));
    lemma_free(s, t, kept, i);
    lemma_moved_order(s, t, kept, i + 1, n);
    if i + 1 < n {
        assert(free(kept, i + 1));
        lemma_free(s, t, kept, i + 1);
    }
    assert(outside(kept, ns));
    assert(ne < n ==> free(kept, ne));
    lemma_skip_moved(s, t, kept, ns, n, Class::TagName);
    lemma_moved_order(s, t, kept, ns, ne);
    lemma_same_text(s, t, kept, ns, ne);
}

/// What is known of the places behind `i` in the rewritten document.
spec fn document(s: Seq<char>, t: Seq<char>, kept: Seq<Place>, i: int, depth: nat) -> bool {
    &&& patched(s, t, kept)
    &&& no_imports(s)
    &&& 0 <= i <= s.len()
    &&& outside(kept, i)
    &&& all_owned(kept, walk_places(s, i, depth), i)
    &&& settled(kept, walk_places(s, i, depth))
}

/// What is no tag stays none.
proof fn lemma_text_clean(s: Seq<char>, t: Seq<char>, kept: Seq<Place>, i: int, depth: nat)
    requires
        document(s, t, kept, i, depth),
        i < s.len(),
        !opens_declaration(s, i),
        s[i] != '<' || skip(s, name_start(s, i), s.len() as int, Class::TagName) == name_start(s, i),
    ensures
        document(s, t, kept, i + 1, depth),
        walk_places(t, moved(kept, i), depth) == walk_places(t, moved(kept, i + 1), depth),
{
    let n = s.len() as int;
    let found = walk_places(s, i, depth);
    assert(found == walk_places(s, i + 1, depth));
    lemma_moved_end(s, t, kept);
    lemma_moved_order(s, t, kept, 0, i);
    assert forall|x: int| 0 <= x < kept.len()
        implies (#[trigger] kept[x]).1 <= i || i + 1 < kept[x].0 by {
        if kept[x].1 > i {
            assert(found.contains(kept[x]));
            lemma_walk_bounds(s, i + 1, depth, kept[x]);
        }
    }
    assert(free(kept, i));
    lemma_free(s, t, kept, i);
    if i + 1 < n {
        assert(free(kept, i + 1));
        lemma_free(s, t, kept, i + 1);
    }
    lemma_moved_order(s, t, kept, i + 1, n);
    assert(all_owned(kept, found, i + 1)) by {
        assert forall|x: int| 0 <= x < kept.len()
            implies (#[trigger] kept[x]).1 <= i + 1 || found.contains(
            kept[x],
        ) by {
            assert(kept[x].1 <= i || found.contains(kept[x]));
        }
    }
    if s[i] == '<' {
        let ns = name_start(s, i);
        if ns == i + 2 {
            assert forall|x: int| 0 <= x < kept.len()
                implies (#[trigger] kept[x]).1 <= i || i + 2 < kept[x].0 by {
                if kept[x].1 > i {
                    assert(found.contains(kept[x]));
                    assert(walk_places(s, i + 1, depth) == walk_places(s, i + 2, depth));
                    lemma_walk_bounds(s, i + 2, depth, kept[x]);
                }
            }
        }
        lemma_name_moved(s, t, kept, i);
    }
}

/// Whether the text from `a` up to `b` stands in the other text too, `d` further on, and
/// ends it if it ends this one.
spec fn shifted(s: Seq<char>, t: Seq<char>, a: int, b: int, d: int) -> bool {
    &&& 0 <= a <= b <= s.len()
    &&& 0 <= a + d
    &&& b + d <= t.len()
    &&& forall|x: int| a <= x < b ==> #[trigger] s[x] == t[x + d]
    &&& b == s.len() ==> t.len() == b + d
}

/// A text that is kept as a whole stands in the rewritten text.
proof fn lemma_shifted(s: Seq<char>, t: Seq<char>, kept: Seq<Place>, a: int, b: int)
    requires
        patched(s, t, kept),
        0 <= a <= b <= s.len(),
        clear(kept, a, b),
        outside(kept, a),
        outside(kept, b),
    ensures
        shifted(s, t, a, b, moved(kept, a) - a),
        moved(kept, b) == moved(kept, a) + b - a,
{
    lemma_same_text(s, t, kept, a, b);
    lemma_moved_end(s, t, kept);
    let m = moved(kept, a);
    assert forall|x: int| a <= x < b implies #[trigger] s[x] == t[x + (m - a)] by {
        assert(s.subrange(a, b)[x - a] == t.subrange(m, m + b - a)[x - a]);
    }
}

proof fn lemma_stands_shifted(
    s: Seq<char>,
    t: Seq<char>,
    p: Seq<char>,
    i: int,
    a: int,
    b: int,
    d: int,
)
    requires
        shifted(s, t, a, b, d),
        a <= i,
        i + p.len() <= b || b == s.len(),
    ensures
        stands_at(t, p, i + d) == stands_at(s, p, i),
        stands_at_ci(t, p, i + d) == stands_at_ci(s, p, i),
{
    if i + p.len() <= b {
        assert(t.subrange(i + d, i + d + p.len()) =~= s.subrange(i, i + p.len())) by {
            assert forall|x: int| 0 <= x < p.len() implies #[trigger] t.subrange(
                i + d,
                i + d + p.len(),
            )[x] == s.subrange(i, i + p.len())[x] by {
                assert(s[i + x] == t[i + x + d]);
            }
        }
    }
}

proof fn lemma_skip_shifted(
    s: Seq<char>,
    t: Seq<char>,
    i: int,
    a: int,
    b: int,
    d: int,
    class: Class,
)
    requires
        shifted(s, t, a, b, d),
        a <= i <= b,
        skip(s, i, s.len() as int, class) < b || b == s.len(),
    ensures
        skip(t, i + d, t.len() as int, class) == skip(s, i, s.len() as int, class) + d,
    decreases b - i,
{
    lemma_skip(s, i, s.len() as int, class);
    if i < b {
        assert(s[i] == t[i + d]);
        if class.has(s[i]) {
            lemma_skip_shifted(s, t, i + 1, a, b, d, class);
        }
    }
}

proof fn lemma_close_wide(s: Seq<char>, k: int, body: int)
    ensures
        comment_close(s, k, body) matches Some(e) ==> k + 3 <= e <= s.len(),
    decreases s.len() - k,
{
    if k < s.len() {
        lemma_close_wide(s, k + 1, body);
    }
}

proof fn lemma_close_shifted(
    s: Seq<char>,
    t: Seq<char>,
    k: int,
    body: int,
    a: int,
    b: int,
    d: int,
)
    requires
        shifted(s, t, a, b, d),
        a <= k,
        match comment_close(s, k, body) {
            Some(e) => e <= b,
            None => b == s.len(),
        },
    ensures
        comment_close(t, k + d, body + d) == (match comment_close(s, k, body) {
            Some(e) => Some(e + d),
            None => None,
        }),
    decreases s.len() - k,
{
    lemma_close_wide(s, k, body);
    lemma_close_wide(s, k + 1, body);
    if k < s.len() {
        let short = seq!['-', '-', '>'];
        let long = seq!['-', '-', '!', '>'];
        lemma_stands_shifted(s, t, short, k, a, b, d);
        if stands_at(s, short, k) {
        } else {
            if k + 4 <= b || b == s.len() {
                lemma_stands_shifted(s, t, long, k, a, b, d);
            }
            if !(k >= body && stands_at(s, long, k)) {
                lemma_close_shifted(s, t, k + 1, body, a, b, d);
            }
        }
    }
}

/// A comment or declaration that is kept as a whole ends where it ended.
proof fn lemma_declaration_shifted(s: Seq<char>, t: Seq<char>, i: int, b: int, d: int)
    requires
        shifted(s, t, i, b, d),
        opens_declaration(s, i),
        match declaration_end(s, i) {
            Some(e) => e <= b,
            None => b == s.len(),
        },
    ensures
        opens_declaration(t, i + d),
        declaration_end(t, i + d) == (match declaration_end(s, i) {
            Some(e) => Some(e + d),
            None => None,
        }),
{
    let n = s.len() as int;
    let open = seq!['<', '!', '-', '-'];
    lemma_close_wide(s, i + 2, i + 4);
    lemma_skip(s, i, n, Class::Not('>'));
    let close = skip(s, i, n, Class::Not('>'));
    if stands_at(s, open, i) {
        assert(s.subrange(i, i + 4)[1] == s[i + 1]);
        assert(i + 4 <= b);
        lemma_stands_shifted(s, t, open, i, i, b, d);
        lemma_close_shifted(s, t, i + 2, i + 4, i, b, d);
    } else {
        if close < n {
            assert(s[close] == '>');
            assert(i + 2 <= close);
        }
        lemma_skip_shifted(s, t, i, i, b, d, Class::Not('>'));
        if i + 4 <= b || b == n {
            lemma_stands_shifted(s, t, open, i, i, b, d);
        } else {
            // The declaration ends with its third character.
            assert(close == i + 2);
            assert(s[i + 2] == t[i + 2 + d]);
            if stands_at(t, open, i + d) {
                assert(t.subrange(i + d, i + d + 4)[2] == t[i + d + 2]);
                assert(false);
            }
        }
    }
    assert(s[i] == t[i + d] && s[i + 1] == t[i + 1 + d]);
}

/// A comment stays one.
proof fn lemma_declared_clean(s: Seq<char>, t: Seq<char>, kept: Seq<Place>, i: int, depth: nat)
    requires
        document(s, t, kept, i, depth),
        i < s.len(),
        opens_declaration(s, i),
    ensures
        match declaration_end(s, i) {
            Some(e) => {
                &&& i < e <= s.len()
                &&& document(s, t, kept, e, depth)
                &&& walk_places(t, moved(kept, i), depth) == walk_places(t, moved(kept, e), depth)
            },
            None => walk_places(t, moved(kept, i), depth) == Seq::<Place>::empty(),
        },
{
    let n = s.len() as int;
    let e = match declaration_end(s, i) {
        Some(e) => e,
        None => n,
    };
    lemma_declaration(s, i);
    lemma_moved_end(s, t, kept);
    lemma_moved_order(s, t, kept, 0, i);
    assert forall|x: int| 0 <= x < kept.len() implies (#[trigger] kept[x]).1 <= i || (e < kept[x].0
        && walk_places(s, e, depth).contains(kept[x])) by {
        if kept[x].1 > i {
            assert(walk_places(s, i, depth).contains(kept[x]));
            lemma_walk_bounds(s, e, depth, kept[x]);
        }
    }
    assert(clear(kept, i, e) && outside(kept, e));
    lemma_shifted(s, t, kept, i, e);
    lemma_declaration_shifted(s, t, i, e, moved(kept, i) - i);
}

/// The letters of a tag's name as it is compared.
proof fn lemma_lower_name(c: char)
    ensures
        Class::TagName.has(lower(c)) == Class::TagName.has(c),
{
}

/// The walk goes on behind the name of the tag that closes an element.
proof fn lemma_walk_after_close(s: Seq<char>, tag: Seq<char>, k: int, depth: nat, q: Place)
    requires
        0 <= k < s.len(),
        tag.len() > 0,
        forall|x: int| 0 <= x < tag.len() ==> Class::TagName.has(#[trigger] tag[x]),
        tag_stands(s, closing_tag(tag), k),
        walk_places(s, k, depth).contains(q),
    ensures
        k + closing_tag(tag).len() < q.0,
{
    let n = s.len() as int;
    let close = closing_tag(tag);
    let after = k + close.len();
    lemma_stands(s, close, k, 0);
    lemma_stands(s, close, k, 1);
    assert(s[k] == '<' && s[k + 1] == '/');
    assert forall|x: int| k + 2 <= x < after implies Class::TagName.has(#[trigger] s[x]) by {
        lemma_stands(s, close, k, x - k);
        assert(close[x - k] == tag[x - k - 2]);
        lemma_lower_name(s[x]);
    }
    let ns = name_start(s, k);
    let ne = skip(s, ns, n, Class::TagName);
    lemma_skip_run(s, ns, after, n, Class::TagName);
    lemma_skip(s, after, n, Class::TagName);
    assert(ne == after);
    let name = lower_all(s.subrange(ns, ne));
    let inside = tag_places(s, name, ne);
    let body = sheet_places(s, name, false, inside.1);
    let next = behind_element(s, name, false, inside.1, depth);
    let under = depth_behind(s, name, false, ne, depth);
    lemma_walk_step(s, k, depth);
    lemma_tag_end(s, name, ne);
    lemma_skip(s, ne, n, Class::Space);
    lemma_split_member(inside.0 + body, walk_places(s, next, under), q);
    if walk_places(s, next, under).contains(q) {
        lemma_walk_bounds(s, next, under, q);
    } else {
        lemma_split_member(inside.0, body, q);
        lemma_tag_bounds(s, name, ne, q);
    }
}

/// The text of an element in a text of which nothing is rewritten.
proof fn lemma_text_end_shifted(
    s: Seq<char>,
    t: Seq<char>,
    close: Seq<char>,
    k: int,
    a: int,
    b: int,
    d: int,
)
    requires
        shifted(s, t, a, b, d),
        a <= k <= s.len(),
        ({
            let end = text_end(s, close, k);
            end + close.len() < b || b == s.len()
        }),
    ensures
        text_end(t, close, k + d) == text_end(s, close, k) + d,
    decreases s.len() - k,
{
    lemma_text_end(s, close, k);
    let n = s.len() as int;
    if k < n {
        let after = k + close.len();
        lemma_stands_shifted(s, t, close, k, a, b, d);
        if after < b {
            assert(s[after] == t[after + d]);
        }
        assert(tag_stands(s, close, k) == tag_stands(t, close, k + d));
        if !tag_stands(s, close, k) {
            lemma_text_end_shifted(s, t, close, k + 1, a, b, d);
        }
    }
}

proof fn lemma_text_end_run(t: Seq<char>, close: Seq<char>, x: int, y: int)
    requires
        0 <= x <= y <= t.len(),
        forall|k: int| x <= k < y ==> !#[trigger] tag_stands(t, close, k),
    ensures
        text_end(t, close, x) == text_end(t, close, y),
    decreases y - x,
{
    if x < y {
        lemma_text_end_run(t, close, x + 1, y);
    }
}

/// The body of a stylesheet in the rewritten text.
proof fn lemma_body_moved(s: Seq<char>, t: Seq<char>, kept: Seq<Place>, k: int, end: int)
    requires
        patched(s, t, kept),
        0 <= k <= end,
        end == body_end(s, k),
        outside(kept, k),
        outside(kept, end),
        end < s.len() ==> clear(kept, end, end + 8) && end + 7 <= s.len(),
    ensures
        body_end(t, moved(kept, k)) == moved(kept, end),
    decreases end - k,
{
    let n = s.len() as int;
    let close = style_close();
    lemma_text_end(s, close, k);
    lemma_moved_end(s, t, kept);
    lemma_moved_order(s, t, kept, 0, k);
    lemma_moved_order(s, t, kept, k, n);
    lemma_alien();
    if k < n {
        let x = moved(kept, k);
        if tag_stands(s, close, k) {
            assert(k == end);
            let lim = if end + 8 <= n {
                end + 8
            } else {
                n
            };
            assert(clear(kept, end, lim));
            assert(outside(kept, lim));
            lemma_shifted(s, t, kept, end, lim);
            lemma_text_end_shifted(s, t, close, end, end, lim, x - end);
        } else {
            let j = lemma_either(kept, k);
            if free(kept, k) {
                lemma_free(s, t, kept, k);
                lemma_body_moved(s, t, kept, k + 1, end);
                if tag_stands(t, close, x) {
                    lemma_stands_clear(s, t, kept, close, k, 7);
                    lemma_same_text(s, t, kept, k, k + 7);
                    assert(stands_at_ci(s, close, k));
                    if k + 7 < n {
                        let h = lemma_either(kept, k + 7);
                        lemma_moved_order(s, t, kept, k + 7, n);
                        if free(kept, k + 7) {
                            lemma_free(s, t, kept, k + 7);
                        } else {
                            lemma_block(s, t, kept, h);
                            lemma_blocked();
                            assert(t[moved(kept, kept[h].0) + 0] == blocked()[0]);
                        }
                    }
                    assert(false);
                }
            } else {
                let (a, b) = kept[j];
                lemma_block(s, t, kept, j);
                lemma_blocked();
                assert(b <= end) by {
                    assert(!(kept[j].0 < end < kept[j].1));
                }
                lemma_text_end_within(s, k, b);
                lemma_body_moved(s, t, kept, b, end);
                lemma_moved_order(s, t, kept, b, n);
                assert forall|y: int| x <= y < x + 10 implies !#[trigger] tag_stands(t, close, y) by {
                    if tag_stands(t, close, y) {
                        lemma_stands(t, close, y, 0);
                        let z = y - x;
                        assert(t[moved(kept, a) + z] == blocked()[z]);
                        assert(lower(blocked()[z]) == blocked()[z]);
                    }
                }
                lemma_text_end_run(t, close, x, x + 10);
            }
        }
    }
}

proof fn lemma_text_end_within(s: Seq<char>, k: int, m: int)
    requires
        0 <= k <= m <= body_end(s, k) <= s.len(),
    ensures
        body_end(s, m) == body_end(s, k),
    decreases m - k,
{
    if k < m {
        lemma_text_end(s, style_close(), k);
        lemma_text_end_within(s, k + 1, m);
    }
}

/// Where the places behind a tag lie whose name ends at `ne`: in the tag, in the
/// stylesheet that it opens, or behind the element's text and the name of the tag that
/// closes it.
spec fn parts(
    s: Seq<char>,
    kept: Seq<Place>,
    tag: Seq<char>,
    opens: bool,
    i: int,
    ne: int,
    depth: nat,
) -> bool {
    let inside = tag_places(s, tag, ne);
    let next = behind_element(s, tag, opens, inside.1, depth);
    let start = body_start(s, inside.1);
    forall|x: int|
        0 <= x < kept.len() ==> (#[trigger] kept[x]).0 < kept[x].1 && (kept[x].1 <= i || (ne
            < kept[x].0 && kept[x].1 <= inside.1 && inside.0.contains(kept[x])) || (opens && tag
            == "style"@ && inside.1 < kept[x].0 && start <= kept[x].0 && kept[x].1 <= next
            && sheet_places(s, tag, opens, inside.1).contains(kept[x])) || (next < kept[x].0
            && walk_places(s, next, depth_behind(s, tag, opens, ne, depth)).contains(kept[x]) && (
        inside.1 < next && next < s.len() ==> next + closing_tag(tag).len() < kept[x].0)))
}

proof fn lemma_parts(
    s: Seq<char>,
    t: Seq<char>,
    kept: Seq<Place>,
    tag: Seq<char>,
    opens: bool,
    i: int,
    ne: int,
    depth: nat,
)
    requires
        patched(s, t, kept),
        0 <= i < ne <= s.len(),
        tag.len() > 0,
        forall|x: int| 0 <= x < tag.len() ==> Class::TagName.has(#[trigger] tag[x]),
        ({
            let inside = tag_places(s, tag, ne);
            let next = behind_element(s, tag, opens, inside.1, depth);
            all_owned(
                kept,
                inside.0 + sheet_places(s, tag, opens, inside.1) + walk_places(
                    s,
                    next,
                    depth_behind(s, tag, opens, ne, depth),
                ),
                i,
            )
        }),
    ensures
        parts(s, kept, tag, opens, i, ne, depth),
{
    let n = s.len() as int;
    let inside = tag_places(s, tag, ne);
    let next = behind_element(s, tag, opens, inside.1, depth);
    let under = depth_behind(s, tag, opens, ne, depth);
    let start = body_start(s, inside.1);
    let body = sheet_places(s, tag, opens, inside.1);
    let rest = walk_places(s, next, under);
    lemma_tag_end(s, tag, ne);
    lemma_skip(s, ne, n, Class::Space);
    lemma_body_end(s, start);
    lemma_text_end(s, closing_tag(tag), start);
    lemma_text_end(s, style_close(), start);
    lemma_style_close();
    assert forall|x: int| 0 <= x < kept.len() implies (#[trigger] kept[x]).0 < kept[x].1 && (
    kept[x].1 <= i || (ne < kept[x].0 && kept[x].1 <= inside.1 && inside.0.contains(kept[x])) || (
    opens && tag == "style"@ && inside.1 < kept[x].0 && start <= kept[x].0 && kept[x].1 <= next
        && body.contains(kept[x])) || (next < kept[x].0 && rest.contains(kept[x]) && (inside.1
        < next && next < n ==> next + closing_tag(tag).len() < kept[x].0))) by {
        lemma_block(s, t, kept, x);
        if kept[x].1 > i {
            lemma_split_member(inside.0 + body, rest, kept[x]);
            if rest.contains(kept[x]) {
                lemma_walk_bounds(s, next, under, kept[x]);
                if inside.1 < next && next < n {
                    lemma_walk_after_close(s, tag, next, under, kept[x]);
                }
            } else {
                lemma_split_member(inside.0, body, kept[x]);
                if inside.0.contains(kept[x]) {
                    lemma_tag_bounds(s, tag, ne, kept[x]);
                } else {
                    lemma_css_bounds(s, start, body_end(s, start), kept[x]);
                }
            }
        }
    }
}

proof fn lemma_style_close()
    ensures
        style_close() == closing_tag("style"@),
{
    reveal_strlit("style");
    assert(style_close() =~= closing_tag("style"@));
}

/// Nothing in a rewritten element and in what follows it is remote.
proof fn lemma_element_clean(s: Seq<char>, t: Seq<char>, kept: Seq<Place>, i: int, depth: nat)
    requires
        document(s, t, kept, i, depth),
        i < s.len(),
        s[i] == '<',
        !opens_declaration(s, i),
        skip(s, name_start(s, i), s.len() as int, Class::TagName) != name_start(s, i),
    ensures
        ({
            let ns = name_start(s, i);
            let ne = skip(s, ns, s.len() as int, Class::TagName);
            let tag = lower_all(s.subrange(ns, ne));
            let next = behind_element(s, tag, ns == i + 1, tag_places(s, tag, ne).1, depth);
            let under = depth_behind(s, tag, ns == i + 1, ne, depth);
            &&& i < next <= s.len()
            &&& document(s, t, kept, next, under)
            &&& walk_places(t, moved(kept, i), depth) == walk_places(t, moved(kept, next), under)
        }),
{
    let n = s.len() as int;
    let ns = name_start(s, i);
    let ne = skip(s, ns, n, Class::TagName);
    let tag = lower_all(s.subrange(ns, ne));
    let opens = ns == i + 1;
    let inside = tag_places(s, tag, ne);
    let body = sheet_places(s, tag, opens, inside.1);
    let next = behind_element(s, tag, opens, inside.1, depth);
    let under = depth_behind(s, tag, opens, ne, depth);
    let start = body_start(s, inside.1);
    let rest = walk_places(s, next, under);
    lemma_walk_step(s, i, depth);
    lemma_tag_end(s, tag, ne);
    lemma_skip(s, ns, n, Class::TagName);
    assert forall|x: int| 0 <= x < tag.len() implies Class::TagName.has(#[trigger] tag[x]) by {
        assert(tag[x] == lower(s[ns + x]));
        assert(Class::TagName.has(s[ns + x]));
        lemma_lower_name(s[ns + x]);
    }
    assert(walk_places(s, i, depth) == inside.0 + body + rest);
    lemma_settled_split(kept, inside.0 + body, rest);
    lemma_settled_split(kept, inside.0, body);
    lemma_parts(s, t, kept, tag, opens, i, ne, depth);
    assert forall|x: int| 0 <= x < kept.len() implies (#[trigger] kept[x]).1 <= i || ne
        < kept[x].0 by {}
    lemma_name_moved(s, t, kept, i);
    assert(rest_owned(kept, inside.0, ne, inside.1));
    lemma_tag_clean(s, t, kept, tag, ne);
    lemma_moved_end(s, t, kept);
    lemma_moved_order(s, t, kept, 0, i);
    lemma_element_moved(s, t, kept, tag, opens, i, ne, depth);
    assert(all_owned(kept, rest, next));
    let m = moved(kept, i);
    let ms = name_start(t, m);
    let me = skip(t, ms, t.len() as int, Class::TagName);
    assert(!opens_declaration(t, m)) by {
        assert(free(kept, i + 1));
        lemma_free(s, t, kept, i + 1);
        lemma_skip(s, ns, n, Class::TagName);
        if opens {
            assert(Class::TagName.has(s[ns]));
        }
    }
    assert(lower_all(t.subrange(ms, me)) == tag);
    assert(tag_places(t, tag, me) == (Seq::<Place>::empty(), moved(kept, inside.1)));
    assert(depth_behind(t, tag, opens, me, depth) == under);
    lemma_walk_step(t, m, depth);
    let tail = walk_places(t, moved(kept, next), under);
    assert(Seq::<Place>::empty() + Seq::<Place>::empty() + tail =~= tail);
    assert(walk_places(t, m, depth) == tail);
}

/// An element's text in the rewritten text.
proof fn lemma_element_moved(
    s: Seq<char>,
    t: Seq<char>,
    kept: Seq<Place>,
    tag: Seq<char>,
    opens: bool,
    i: int,
    ne: int,
    depth: nat,
)
    requires
        patched(s, t, kept),
        no_imports(s),
        0 <= i < ne <= s.len(),
        parts(s, kept, tag, opens, i, ne, depth),
        settled(kept, sheet_places(s, tag, opens, tag_places(s, tag, ne).1)),
        outside(kept, tag_places(s, tag, ne).1),
        tag_places(s, tag, ne).1 < s.len() ==> free(kept, tag_places(s, tag, ne).1),
    ensures
        ({
            let close = tag_places(s, tag, ne).1;
            let next = behind_element(s, tag, opens, close, depth);
            &&& behind_element(t, tag, opens, moved(kept, close), depth) == moved(kept, next)
            &&& sheet_places(t, tag, opens, moved(kept, close)) == Seq::<Place>::empty()
            &&& outside(kept, next)
        }),
{
    let n = s.len() as int;
    let close = tag_places(s, tag, ne).1;
    let next = behind_element(s, tag, opens, close, depth);
    let start = body_start(s, close);
    lemma_tag_end(s, tag, ne);
    lemma_moved_end(s, t, kept);
    lemma_body_end(s, start);
    lemma_text_end(s, closing_tag(tag), start);
    lemma_text_end(s, style_close(), start);
    lemma_style_close();
    if close < n {
        lemma_free(s, t, kept, close);
    }
    assert(outside(kept, start));
    assert(outside(kept, next));
    lemma_moved_order(s, t, kept, close, n);
    lemma_moved_order(s, t, kept, start, n);
    assert(body_start(t, moved(kept, close)) == moved(kept, start));
    if opens && tag == "style"@ {
        let body = css_places(s, start, next);
        assert(owned(kept, body, start, next));
        assert(ends_edged(s, next));
        if next < n {
            assert(next + 7 <= n);
            assert(clear(kept, next, next + 8));
        }
        lemma_body_moved(s, t, kept, start, next);
        lemma_css_clean(s, t, kept, start, next);
    } else if opens && depth == 0 && holds_text(tag) {
        let c = closing_tag(tag);
        let lim = if next < n && next + c.len() + 1 <= n {
            next + c.len() + 1
        } else {
            n
        };
        assert(clear(kept, start, lim)) by {
            assert forall|x: int| 0 <= x < kept.len() implies (#[trigger] kept[x]).1 <= start || lim
                <= kept[x].0 by {
                if next == n {
                    lemma_block(s, t, kept, x);
                }
            }
        }
        assert(outside(kept, lim));
        lemma_shifted(s, t, kept, start, lim);
        lemma_text_end_shifted(s, t, c, start, start, lim, moved(kept, start) - start);
        assert(clear(kept, start, next));
        lemma_same_text(s, t, kept, start, next);
    }
}

/// Nothing in a rewritten document is remote.
proof fn lemma_walk_clean(s: Seq<char>, t: Seq<char>, kept: Seq<Place>, i: int, depth: nat)
    requires
        document(s, t, kept, i, depth),
    ensures
        walk_places(t, moved(kept, i), depth) == Seq::<Place>::empty(),
    decreases s.len() - i,
{
    let n = s.len() as int;
    lemma_moved_end(s, t, kept);
    lemma_moved_order(s, t, kept, 0, i);
    if i < n {
        let ns = name_start(s, i);
        let ne = skip(s, ns, n, Class::TagName);
        let tag = lower_all(s.subrange(ns, ne));
        if opens_declaration(s, i) {
            lemma_declared_clean(s, t, kept, i, depth);
            if let Some(e) = declaration_end(s, i) {
                lemma_walk_clean(s, t, kept, e, depth);
            }
        } else if s[i] != '<' || ne == ns {
            lemma_text_clean(s, t, kept, i, depth);
            lemma_walk_clean(s, t, kept, i + 1, depth);
        } else {
            lemma_element_clean(s, t, kept, i, depth);
            lemma_walk_clean(
                s,
                t,
                kept,
                behind_element(s, tag, ns == i + 1, tag_places(s, tag, ne).1, depth),
                depth_behind(s, tag, ns == i + 1, ne, depth),
            );
        }
    }
}

// ----- The places that are found -----

/// Whether the places follow one another between `lo` and `hi`, none of them empty.
spec fn strung(v: Seq<Place>, lo: int, hi: int) -> bool {
    &&& forall|k: int| 0 <= k < v.len() ==> lo <= (#[trigger] v[k]).0 < v[k].1 <= hi
    &&& forall|j: int, k: int|
        0 <= j < k < v.len() ==> (#[trigger] v[j]).1 <= (#[trigger] v[k]).0
}

proof fn lemma_strung_parts(x: Seq<Place>, y: Seq<Place>, lo: int, mid: int, hi: int)
    requires
        strung(x, lo, mid),
        strung(y, mid, hi),
        lo <= mid <= hi,
    ensures
        strung(x + y, lo, hi),
{
    let v = x + y;
    assert forall|k: int| 0 <= k < v.len() implies lo <= (#[trigger] v[k]).0 < v[k].1 <= hi by {
        if k < x.len() {
            assert(v[k] == x[k]);
        } else {
            assert(v[k] == y[k - x.len()]);
        }
    }
    assert forall|j: int, k: int| 0 <= j < k < v.len() implies (#[trigger] v[j]).1 <= (
    #[trigger] v[k]).0 by {
        if k < x.len() {
            assert(v[j] == x[j] && v[k] == x[k]);
        } else if j >= x.len() {
            assert(v[j] == y[j - x.len()] && v[k] == y[k - x.len()]);
        } else {
            assert(v[j] == x[j] && v[k] == y[k - x.len()]);
        }
    }
}

proof fn lemma_url_strung(s: Seq<char>, start: int, end: int)
    requires
        start <= end,
    ensures
        strung(url_places(s, start, end), start, end),
{
    lemma_skip(s, start, end, Class::Space);
    lemma_skip(s, skip(s, start, end, Class::Space), end, Class::NotSpace);
}

proof fn lemma_srcset_strung(s: Seq<char>, at: int, end: int)
    requires
        at <= end,
    ensures
        strung(srcset_places(s, at, end), at, end),
    decreases end - at,
{
    if at < end {
        let comma = skip(s, at, end, Class::Not(','));
        lemma_skip(s, at, end, Class::Not(','));
        lemma_url_strung(s, at, comma);
        if comma < end {
            lemma_srcset_strung(s, comma + 1, end);
        }
        lemma_strung_parts(
            url_places(s, at, comma),
            srcset_places(s, comma + 1, end),
            at,
            comma,
            end,
        );
    }
}

proof fn lemma_css_strung(s: Seq<char>, at: int, end: int)
    requires
        at <= end,
    ensures
        strung(css_url_places(s, at, end), at, end),
    decreases end - at,
{
    lemma_find_stands(s, url_open(), at, end);
    if let Some(p) = find_ci(s, url_open(), at, end) {
        let a = css_value_start(s, p + 4, end);
        let b = css_value_end(s, p + 4, end);
        lemma_css_value(s, p + 4, end);
        lemma_css_strung(s, b, end);
        lemma_strung_parts(if_remote(s, a, b), css_url_places(s, b, end), at, b, end);
    }
}

proof fn lemma_value_strung(s: Seq<char>, tag: Seq<char>, attr: Seq<char>, start: int, end: int)
    requires
        no_imports(s),
        0 <= start <= end <= s.len(),
    ensures
        strung(value_places(s, tag, attr, start, end), start, end),
{
    lemma_url_strung(s, start, end);
    lemma_srcset_strung(s, start, end);
    lemma_css_strung(s, start, end);
    lemma_alien();
    lemma_find_none(s, import_word(), 0, s.len() as int, start, end);
    assert(css_places(s, start, end) =~= css_url_places(s, start, end));
}

proof fn lemma_tag_strung(s: Seq<char>, tag: Seq<char>, j: int)
    requires
        no_imports(s),
        0 <= j <= s.len(),
    ensures
        strung(tag_places(s, tag, j).0, j, tag_places(s, tag, j).1),
    decreases s.len() - j,
{
    lemma_tag_end(s, tag, j);
    if j >= s.len() || s[j] == '>' {
    } else if is_space(s[j]) || s[j] == '/' {
        lemma_tag_strung(s, tag, j + 1);
    } else {
        let a = attribute_at(s, j);
        let attr = lower_all(s.subrange(j, a.name_end));
        lemma_attribute(s, j);
        lemma_tag_strung(s, tag, a.next);
        lemma_tag_end(s, tag, a.next);
        if a.valued {
            lemma_value_strung(s, tag, attr, a.start, a.end);
            lemma_strung_parts(
                value_places(s, tag, attr, a.start, a.end),
                tag_places(s, tag, a.next).0,
                j,
                a.next,
                tag_places(s, tag, j).1,
            );
        }
    }
}

proof fn lemma_walk_strung(s: Seq<char>, i: int, depth: nat)
    requires
        no_imports(s),
        0 <= i <= s.len(),
    ensures
        strung(walk_places(s, i, depth), i, s.len() as int),
    decreases s.len() - i,
{
    if i < s.len() {
        let n = s.len() as int;
        let ns = name_start(s, i);
        let ne = skip(s, ns, n, Class::TagName);
        let tag = lower_all(s.subrange(ns, ne));
        let opens = ns == i + 1;
        lemma_walk_step(s, i, depth);
        if opens_declaration(s, i) {
            if let Some(e) = declaration_end(s, i) {
                lemma_walk_strung(s, e, depth);
            }
        } else if s[i] != '<' || ne == ns {
            lemma_walk_strung(s, i + 1, depth);
        } else {
            let inside = tag_places(s, tag, ne);
            let body = sheet_places(s, tag, opens, inside.1);
            let next = behind_element(s, tag, opens, inside.1, depth);
            let under = depth_behind(s, tag, opens, ne, depth);
            lemma_tag_strung(s, tag, ne);
            if opens && tag == "style"@ {
                let start = body_start(s, inside.1);
                lemma_css_strung(s, start, next);
                lemma_alien();
                lemma_find_none(s, import_word(), 0, n, start, next);
                assert(css_places(s, start, next) =~= css_url_places(s, start, next));
            }
            assert(strung(body, inside.1, next));
            lemma_strung_parts(inside.0, body, i, inside.1, next);
            lemma_walk_strung(s, next, under);
            lemma_strung_parts(inside.0 + body, walk_places(s, next, under), i, next, n);
        }
    }
}

/// Places that follow one another are in order.
proof fn lemma_strung_in_order(v: Seq<Place>, lo: int, hi: int)
    requires
        strung(v, lo, hi),
    ensures
        in_order(v) == v,
    decreases v.len(),
{
    if v.len() > 0 {
        let rest = v.drop_last();
        assert forall|j: int, k: int| 0 <= j < k < rest.len() implies (#[trigger] rest[j]).1 <= (
        #[trigger] rest[k]).0 by {
            assert(v[j].1 <= v[k].0);
        }
        assert forall|k: int| 0 <= k < rest.len() implies lo <= (#[trigger] rest[k]).0 < rest[k].1
            <= hi by {
            assert(v[k].0 < v[k].1);
        }
        lemma_strung_in_order(rest, lo, hi);
        if rest.len() > 0 {
            assert(v[v.len() - 2].1 <= v[v.len() - 1].0);
            assert(rest.last() == v[v.len() - 2]);
            assert(v[v.len() - 2].0 < v[v.len() - 2].1);
        }
        assert(in_order(v) =~= v);
    } else {
        assert(in_order(v) =~= v);
    }
}

// ----- The law -----

/// What is rewritten, and the rewritten text.
proof fn lemma_kept(s: Seq<char>)
    requires
        no_imports(s),
    ensures
        document(s, pass(s), chosen(remote_places(s), 0), 0, 0),
{
    let all = walk_places(s, 0, 0);
    let found = remote_places(s);
    let kept = chosen(found, 0);
    lemma_found(s);
    assert forall|k: int| 0 <= k < found.len() implies 0 <= (#[trigger] found[k]).0 < found[k].1
        <= s.len() by {
        assert(holds_remote(s, found[k], 0, s.len() as int));
    }
    lemma_chosen(s, found, 0);
    lemma_patched(s, kept);
    lemma_moved_end(s, pass(s), kept);
    assert forall|j: int| 0 <= j < kept.len() implies all.contains(#[trigger] kept[j]) by {
        lemma_in_order(all, kept[j]);
    }
    assert forall|k: int| 0 <= k < all.len() implies covered(kept, #[trigger] all[k]) by {
        lemma_in_order(all, all[k]);
        let x = choose|x: int| 0 <= x < found.len() && found[x] == all[k];
        assert(0 <= found[x].0);
        assert(covered(kept, found[x]));
    }
}

/// In a document without an `@import` every remote URL that is found is rewritten, since
/// none reaches into another, and nothing else is touched: stripping it is that one pass,
/// and nothing is left to fetch.
pub proof fn one_pass_is_enough(s: Seq<char>)
    requires
        no_imports(s),
    ensures
        apart(remote_places(s), s.len() as int),
        stripped(s) == rewritten(s, 0, remote_places(s)),
        remote_places(stripped(s)).len() == 0,
        stripped(stripped(s)) == stripped(s),
{
    let kept = chosen(remote_places(s), 0);
    let t = pass(s);
    lemma_kept(s);
    lemma_moved_end(s, t, kept);
    lemma_walk_clean(s, t, kept, 0, 0);
    assert(in_order(walk_places(t, 0, 0)) =~= Seq::<Place>::empty());
    assert(remote_places(t).len() == 0);
    if remote_places(s).len() == 0 {
        assert(rewritten(s, 0, remote_places(s)) =~= s);
    }
    assert(stripped(t) == t);
    lemma_walk_strung(s, 0, 0);
    lemma_strung_in_order(walk_places(s, 0, 0), 0, s.len() as int);
}

} // verus!
