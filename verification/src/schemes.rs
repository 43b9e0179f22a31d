//! The colour scheme that a message asks for: its media queries, settled by the ground
//! that it is shown on.

use vstd::prelude::*;
use vstd::slice::slice_subrange;

use crate::markup::{
    declaration_end, lemma_markup_step, opens_declaration, read_declaration, tag_end,
};
use crate::remote::{
    attribute_at, behind_element, body_end, body_start, find_behind_element, find_body_end,
    lemma_attribute, name_start, read_attribute,
};
use crate::sheets::{
    bare_url_at, gap_end, in_name, lemma_gap, lemma_piece, name_char, opens_bare_url, piece_end,
    read_gap, read_piece, word_at, word_stands,
};
use crate::text::{
    chars_of, copy_of, find_ci, is_space, lemma_find_ci, lemma_skip, lemma_stands,
    lemma_tally_none, lemma_tally_parts, lemma_tally_some, lower, lower_all, lower_chars,
    matches_in_ci, opt_int, push_range, same, skip, skip_over, space, stands_at_ci, stands_in_ci, string_of,
    tally, Class,
};

verus! {

// ----- What asks for a scheme -----

/// A query for a scheme: where it stands, and whether it asks for the dark one.
pub struct Query {
    pub start: int,
    pub end: int,
    pub dark: bool,
}

/// What a `prefers-color-scheme` at `p` asks for: where that ends, and whether it is the
/// dark scheme. Nothing where it asks for neither.
pub open spec fn asked(s: Seq<char>, p: int, lim: int) -> Option<(int, bool)> {
    let colon = gap_end(s, p + 20, lim);
    let v = gap_end(s, colon + 1, lim);
    if colon >= lim || s[colon] != ':' {
        None
    } else if word_stands(s, "dark"@, v, lim) {
        Some((v + 4, true))
    } else if word_stands(s, "light"@, v, lim) {
        Some((v + 5, false))
    } else {
        None
    }
}

/// The query at `i`, if the name of the feature stands there, as a word of its own, and
/// asks for the dark or the light scheme.
pub open spec fn query_at(s: Seq<char>, i: int, lim: int) -> Option<Query> {
    if stands_in_ci(s, "prefers-color-scheme"@, i, lim) && (i == 0 || !in_name(s[i - 1])) {
        match asked(s, i, lim) {
            Some((end, dark)) => Some(Query { start: i, end, dark }),
            None => None,
        }
    } else {
        None
    }
}

/// Whether a rule that takes media queries begins at `i`.
pub open spec fn media_rule(s: Seq<char>, i: int, lim: int) -> bool {
    word_stands(s, "@media"@, i, lim) || word_stands(s, "@import"@, i, lim)
}

/// Where the contents of a `data:` URL begin that stands at `i` as a string or as a bare
/// URL.
pub open spec fn data_start(s: Seq<char>, i: int, lim: int) -> Option<int> {
    let v = if s[i] == '"' || s[i] == '\'' {
        i + 1
    } else {
        skip(s, i + 4, lim, Class::Space)
    };
    if (s[i] == '"' || s[i] == '\'' || opens_bare_url(s, i, lim)) && stands_in_ci(
        s,
        "data:"@,
        v,
        lim,
    ) && v + 5 <= piece_end(s, i, lim) {
        Some(v + 5)
    } else {
        None
    }
}

/// The queries in a stylesheet from `i` on. They stand between a `@media` or `@import`
/// and the brace or semicolon behind it, outside of comments and strings; `prelude`
/// tells whether the reading begins there. Where `deep` is set, the contents of `data:`
/// URLs are read too: they may be stylesheets, or drawings with one.
pub open spec fn sheet_queries(s: Seq<char>, i: int, lim: int, prelude: bool, deep: bool) -> Seq<
    Query,
>
    decreases lim - i,
    when 0 <= i && lim <= s.len()
    via sheet_queries_ends
{
    if i >= lim {
        seq![]
    } else if prelude && query_at(s, i, lim) is Some {
        let q = query_at(s, i, lim)->0;
        seq![q] + sheet_queries(s, q.end, lim, prelude, deep)
    } else {
        let e = piece_end(s, i, lim);
        let rest = sheet_queries(s, e, lim, in_prelude(s, i, lim, prelude), deep);
        match data_start(s, i, lim) {
            Some(a) => if deep {
                sheet_queries(s, a, e, false, false) + rest
            } else {
                rest
            },
            None => rest,
        }
    }
}

/// Whether what follows the piece at `i` stands in the prelude of a rule that takes media
/// queries.
pub open spec fn in_prelude(s: Seq<char>, i: int, lim: int, prelude: bool) -> bool {
    if s[i] == '{' || s[i] == '}' || s[i] == ';' {
        false
    } else {
        prelude || media_rule(s, i, lim)
    }
}

#[via_fn]
proof fn sheet_queries_ends(s: Seq<char>, i: int, lim: int, prelude: bool, deep: bool) {
    if i < lim {
        lemma_piece(s, i, lim);
        lemma_query(s, i, lim);
        lemma_skip(s, i + 4, lim, Class::Space);
    }
}

/// The letters of the words.
proof fn lemma_words()
    ensures
        "prefers-color-scheme"@.len() == 20,
        "prefers-color-scheme"@[3] == 'f',
        "dark"@.len() == 4,
        "light"@.len() == 5,
{
    reveal_strlit("prefers-color-scheme");
    reveal_strlit("dark");
    reveal_strlit("light");
}

/// A query lies in what is read and begins with the feature's name.
proof fn lemma_query(s: Seq<char>, i: int, lim: int)
    requires
        0 <= i < lim <= s.len(),
    ensures
        query_at(s, i, lim) matches Some(q) ==> q.start == i && i + 20 < q.end <= lim
            && stands_at_ci(s, "prefers-color-scheme"@, i),
{
    lemma_words();
    if i + 20 <= lim {
        lemma_gap(s, i + 20, lim);
        let colon = gap_end(s, i + 20, lim);
        if colon < lim {
            lemma_gap(s, colon + 1, lim);
        }
    }
}

/// The queries in the value of an attribute of that name: all of `media`, `sizes` and
/// `imagesizes` is queries, `style` and `srcdoc` may hold a stylesheet, and so may every
/// `data:` URL.
pub open spec fn value_queries(s: Seq<char>, name: Seq<char>, start: int, end: int) -> Seq<Query> {
    let v = skip(s, start, end, Class::Space);
    if name == "media"@ || name == "sizes"@ || name == "imagesizes"@ {
        sheet_queries(s, start, end, true, true)
    } else if name == "style"@ || name == "srcdoc"@ {
        sheet_queries(s, start, end, false, true)
    } else if stands_in_ci(s, "data:"@, v, end) {
        sheet_queries(s, v, end, false, true)
    } else {
        seq![]
    }
}

/// The queries in the attributes of a tag from `j` on.
pub open spec fn tag_queries(s: Seq<char>, j: int) -> Seq<Query>
    decreases s.len() - j,
    when 0 <= j
    via tag_queries_ends
{
    if j >= s.len() || s[j] == '>' {
        seq![]
    } else if is_space(s[j]) || s[j] == '/' {
        tag_queries(s, j + 1)
    } else {
        let a = attribute_at(s, j);
        if a.valued {
            value_queries(s, lower_all(s.subrange(j, a.name_end)), a.start, a.end) + tag_queries(
                s,
                a.next,
            )
        } else {
            tag_queries(s, a.next)
        }
    }
}

#[via_fn]
proof fn tag_queries_ends(s: Seq<char>, j: int) {
    if j < s.len() {
        lemma_attribute(s, j);
    }
}

/// The queries in the document from `i` on: in its `<style>` elements and in the
/// attributes of its tags. Text, the text of elements and comments hold none.
pub open spec fn document_queries(s: Seq<char>, i: int) -> Seq<Query>
    decreases s.len() - i,
    when 0 <= i
    via document_queries_ends
{
    let ns = name_start(s, i);
    let ne = skip(s, ns, s.len() as int, Class::TagName);
    let close = tag_end(s, ne);
    if i >= s.len() {
        seq![]
    } else if opens_declaration(s, i) {
        match declaration_end(s, i) {
            Some(e) => document_queries(s, e),
            None => seq![],
        }
    } else if s[i] != '<' || ne == ns {
        document_queries(s, i + 1)
    } else if lower_all(s.subrange(ns, ne)) == "style"@ && ns == i + 1 {
        let start = body_start(s, close);
        let end = body_end(s, start);
        tag_queries(s, ne) + sheet_queries(s, start, end, false, true) + document_queries(s, end)
    } else {
        tag_queries(s, ne) + document_queries(
            s,
            behind_element(s, lower_all(s.subrange(ns, ne)), ns == i + 1, close, 0),
        )
    }
}

#[via_fn]
proof fn document_queries_ends(s: Seq<char>, i: int) {
    lemma_markup_step(s, i);
}

/// All queries for the dark or the light scheme. A text without any tag is a stylesheet.
pub open spec fn scheme_queries(s: Seq<char>) -> Seq<Query> {
    if skip(s, 0, s.len() as int, Class::Not('<')) < s.len() {
        document_queries(s, 0)
    } else {
        sheet_queries(s, 0, s.len() as int, false, true)
    }
}

// ----- Settling them -----

/// What stands for the dark and for the light scheme: a width test that is always
/// or never true.
pub open spec fn scheme_test(wanted: bool) -> Seq<char> {
    if wanted {
        "min-width:0px"@
    } else {
        "min-width:999999px"@
    }
}

/// The text from `at` on with each of the queries settled by the ground that was chosen.
pub open spec fn settled(s: Seq<char>, at: int, found: Seq<Query>, dark: bool) -> Seq<char>
    decreases found.len(),
{
    if found.len() == 0 {
        s.subrange(at, s.len() as int)
    } else if found[0].start < at {
        settled(s, at, found.drop_first(), dark)
    } else {
        let q = found[0];
        s.subrange(at, q.start) + scheme_test(q.dark == dark) + settled(
            s,
            q.end,
            found.drop_first(),
            dark,
        )
    }
}

/// The number of `f`s in a text, of which every query has one and a width test none.
pub open spec fn effs(s: Seq<char>) -> nat {
    tally(s, seq!['f'])
}

/// The document with every query for the dark or the light scheme settled by the ground
/// that was chosen.
pub open spec fn pinned(s: Seq<char>, dark: bool) -> Seq<char>
    decreases effs(s),
    via pinned_ends
{
    let found = scheme_queries(s);
    if found.len() == 0 {
        s
    } else {
        pinned(settled(s, 0, found, dark), dark)
    }
}

#[via_fn]
proof fn pinned_ends(s: Seq<char>, dark: bool) {
    if scheme_queries(s).len() > 0 {
        lemma_settling_takes_effs(s, dark);
    }
}

proof fn lemma_test_has_no_eff(wanted: bool)
    ensures
        effs(scheme_test(wanted)) == 0,
{
    reveal_strlit("min-width:0px");
    reveal_strlit("min-width:999999px");
    lemma_tally_none(scheme_test(wanted), seq!['f']);
}

/// Whether a query lies between `a` and `b` and begins with the feature's name.
spec fn is_query(s: Seq<char>, q: Query, a: int, b: int) -> bool {
    a <= q.start && q.start + 20 < q.end <= b && stands_at_ci(s, "prefers-color-scheme"@, q.start)
}

proof fn lemma_split_member(x: Seq<Query>, y: Seq<Query>, q: Query)
    requires
        (x + y).contains(q),
    ensures
        x.contains(q) || y.contains(q),
{
    let k = choose|k: int| 0 <= k < (x + y).len() && (x + y)[k] == q;
    if k < x.len() {
        assert(x[k] == q);
    } else {
        assert(y[k - x.len()] == q);
    }
}

proof fn lemma_sheet_bounds(s: Seq<char>, i: int, lim: int, prelude: bool, deep: bool, q: Query)
    requires
        0 <= i,
        lim <= s.len(),
        sheet_queries(s, i, lim, prelude, deep).contains(q),
    ensures
        is_query(s, q, i, lim),
    decreases lim - i,
{
    if i < lim {
        lemma_piece(s, i, lim);
        lemma_query(s, i, lim);
        lemma_skip(s, i + 4, lim, Class::Space);
        if prelude && query_at(s, i, lim) is Some {
            let here = query_at(s, i, lim)->0;
            let rest = sheet_queries(s, here.end, lim, prelude, deep);
            lemma_split_member(seq![here], rest, q);
            if rest.contains(q) {
                lemma_sheet_bounds(s, here.end, lim, prelude, deep, q);
            }
        } else {
            let e = piece_end(s, i, lim);
            let after = in_prelude(s, i, lim, prelude);
            let rest = sheet_queries(s, e, lim, after, deep);
            if deep && data_start(s, i, lim) is Some {
                let a = data_start(s, i, lim)->0;
                let inner = sheet_queries(s, a, e, false, false);
                lemma_split_member(inner, rest, q);
                if inner.contains(q) {
                    lemma_sheet_bounds(s, a, e, false, false, q);
                } else {
                    lemma_sheet_bounds(s, e, lim, after, deep, q);
                }
            } else {
                lemma_sheet_bounds(s, e, lim, after, deep, q);
            }
        }
    }
}

proof fn lemma_value_bounds(s: Seq<char>, name: Seq<char>, start: int, end: int, q: Query)
    requires
        0 <= start <= end <= s.len(),
        value_queries(s, name, start, end).contains(q),
    ensures
        is_query(s, q, start, end),
{
    let v = skip(s, start, end, Class::Space);
    lemma_skip(s, start, end, Class::Space);
    if name == "media"@ || name == "sizes"@ || name == "imagesizes"@ {
        lemma_sheet_bounds(s, start, end, true, true, q);
    } else if name == "style"@ || name == "srcdoc"@ {
        lemma_sheet_bounds(s, start, end, false, true, q);
    } else if stands_in_ci(s, "data:"@, v, end) {
        lemma_sheet_bounds(s, v, end, false, true, q);
    }
}

proof fn lemma_tag_bounds(s: Seq<char>, j: int, q: Query)
    requires
        0 <= j,
        tag_queries(s, j).contains(q),
    ensures
        is_query(s, q, j, s.len() as int),
    decreases s.len() - j,
{
    if j >= s.len() || s[j] == '>' {
    } else if is_space(s[j]) || s[j] == '/' {
        lemma_tag_bounds(s, j + 1, q);
    } else {
        let a = attribute_at(s, j);
        lemma_attribute(s, j);
        if a.valued {
            let name = lower_all(s.subrange(j, a.name_end));
            let here = value_queries(s, name, a.start, a.end);
            lemma_split_member(here, tag_queries(s, a.next), q);
            if here.contains(q) {
                lemma_value_bounds(s, name, a.start, a.end, q);
            } else {
                lemma_tag_bounds(s, a.next, q);
            }
        } else {
            lemma_tag_bounds(s, a.next, q);
        }
    }
}

proof fn lemma_document_bounds(s: Seq<char>, i: int, q: Query)
    requires
        0 <= i,
        document_queries(s, i).contains(q),
    ensures
        is_query(s, q, i, s.len() as int),
    decreases s.len() - i,
{
    if i < s.len() {
        lemma_markup_step(s, i);
        let ns = name_start(s, i);
        let ne = skip(s, ns, s.len() as int, Class::TagName);
        let close = tag_end(s, ne);
        if opens_declaration(s, i) {
            if let Some(e) = declaration_end(s, i) {
                lemma_document_bounds(s, e, q);
            }
        } else if s[i] != '<' || ne == ns {
            lemma_document_bounds(s, i + 1, q);
        } else if lower_all(s.subrange(ns, ne)) == "style"@ && ns == i + 1 {
            let start = body_start(s, close);
            let end = body_end(s, start);
            let tag = tag_queries(s, ne);
            let sheet = sheet_queries(s, start, end, false, true);
            lemma_split_member(tag + sheet, document_queries(s, end), q);
            if document_queries(s, end).contains(q) {
                lemma_document_bounds(s, end, q);
            } else {
                lemma_split_member(tag, sheet, q);
                if tag.contains(q) {
                    lemma_tag_bounds(s, ne, q);
                } else {
                    lemma_sheet_bounds(s, start, end, false, true, q);
                }
            }
        } else {
            let tag = tag_queries(s, ne);
            let next = behind_element(s, lower_all(s.subrange(ns, ne)), ns == i + 1, close, 0);
            lemma_split_member(tag, document_queries(s, next), q);
            if tag.contains(q) {
                lemma_tag_bounds(s, ne, q);
            } else {
                lemma_document_bounds(s, next, q);
            }
        }
    }
}

proof fn lemma_queries_bounds(s: Seq<char>)
    ensures
        forall|k: int|
            0 <= k < scheme_queries(s).len() ==> is_query(
                s,
                #[trigger] scheme_queries(s)[k],
                0,
                s.len() as int,
            ),
{
    let found = scheme_queries(s);
    assert forall|k: int| 0 <= k < found.len() implies is_query(
        s,
        #[trigger] found[k],
        0,
        s.len() as int,
    ) by {
        assert(found.contains(found[k]));
        if skip(s, 0, s.len() as int, Class::Not('<')) < s.len() {
            lemma_document_bounds(s, 0, found[k]);
        } else {
            lemma_sheet_bounds(s, 0, s.len() as int, false, true, found[k]);
        }
    }
}

proof fn lemma_settled_effs(s: Seq<char>, at: int, found: Seq<Query>, dark: bool)
    requires
        0 <= at <= s.len(),
        forall|k: int|
            0 <= k < found.len() ==> is_query(s, #[trigger] found[k], 0, s.len() as int),
    ensures
        effs(settled(s, at, found, dark)) <= effs(s.subrange(at, s.len() as int)),
        found.len() > 0 && at <= found[0].start ==> effs(settled(s, at, found, dark)) < effs(
            s.subrange(at, s.len() as int),
        ),
    decreases found.len(),
{
    let n = s.len() as int;
    if found.len() > 0 {
        let rest = found.drop_first();
        let q = found[0];
        assert(forall|k: int| 0 <= k < rest.len() ==> #[trigger] rest[k] == found[k + 1]);
        assert(is_query(s, found[0], 0, n));
        if q.start < at {
            lemma_settled_effs(s, at, rest, dark);
        } else {
            lemma_settled_effs(s, q.end, rest, dark);
            let lead = s.subrange(at, q.start);
            let query = s.subrange(q.start, q.end);
            let tail = s.subrange(q.end, n);
            let test = scheme_test(q.dark == dark);
            let new_tail = settled(s, q.end, rest, dark);
            assert(s.subrange(at, n) =~= lead + query + tail);
            lemma_tally_parts(lead + query, tail, seq!['f']);
            lemma_tally_parts(lead, query, seq!['f']);
            lemma_tally_parts(lead + test, new_tail, seq!['f']);
            lemma_tally_parts(lead, test, seq!['f']);
            lemma_test_has_no_eff(q.dark == dark);
            lemma_words();
            lemma_stands(s, "prefers-color-scheme"@, q.start, 3);
            assert(seq!['f'][0] == lower(query[3]));
            lemma_tally_some(query, seq!['f'], 3);
        }
    }
}

proof fn lemma_settling_takes_effs(s: Seq<char>, dark: bool)
    requires
        scheme_queries(s).len() > 0,
    ensures
        effs(settled(s, 0, scheme_queries(s), dark)) < effs(s),
{
    lemma_queries_bounds(s);
    assert(is_query(s, scheme_queries(s)[0], 0, s.len() as int));
    lemma_settled_effs(s, 0, scheme_queries(s), dark);
    assert(s.subrange(0, s.len() as int) =~= s);
}

// ----- The laws -----

/// A message cannot ask for the colour scheme of the desktop: once the ground was
/// chosen, no query for the dark or the light scheme is left.
pub proof fn no_scheme_is_asked_for(doc: Seq<char>, dark: bool)
    ensures
        scheme_queries(pinned(doc, dark)).len() == 0,
    decreases effs(doc),
{
    if scheme_queries(doc).len() > 0 {
        lemma_settling_takes_effs(doc, dark);
        no_scheme_is_asked_for(settled(doc, 0, scheme_queries(doc), dark), dark);
    }
}

/// A document that nowhere names the feature stays as it is.
pub proof fn plain_documents_stay(doc: Seq<char>, dark: bool)
    requires
        find_ci(doc, "prefers-color-scheme"@, 0, doc.len() as int) is None,
    ensures
        pinned(doc, dark) == doc,
{
    lemma_queries_bounds(doc);
    lemma_words();
    if scheme_queries(doc).len() > 0 {
        let q = scheme_queries(doc)[0];
        assert(is_query(doc, q, 0, doc.len() as int));
        lemma_find_ci(doc, "prefers-color-scheme"@, 0, doc.len() as int);
        assert(stands_at_ci(doc, "prefers-color-scheme"@, q.start));
    }
}

/// Text that merely holds the words stays as it is: a document without a rule or an
/// attribute that takes media queries asks for nothing, whatever it says.
pub proof fn mere_words_stay(doc: Seq<char>, dark: bool)
    requires
        find_ci(doc, "media"@, 0, doc.len() as int) is None,
        find_ci(doc, "@import"@, 0, doc.len() as int) is None,
        find_ci(doc, "sizes"@, 0, doc.len() as int) is None,
    ensures
        pinned(doc, dark) == doc,
{
    if skip(doc, 0, doc.len() as int, Class::Not('<')) < doc.len() {
        lemma_no_document_query(doc, 0);
    } else {
        lemma_no_sheet_query(doc, 0, doc.len() as int, true);
    }
}

/// Whether no rule or attribute that takes media queries is named.
spec fn names_none(s: Seq<char>) -> bool {
    &&& find_ci(s, "media"@, 0, s.len() as int) is None
    &&& find_ci(s, "@import"@, 0, s.len() as int) is None
    &&& find_ci(s, "sizes"@, 0, s.len() as int) is None
}

proof fn lemma_no_media(s: Seq<char>, i: int)
    requires
        names_none(s),
        0 <= i,
    ensures
        !stands_at_ci(s, "media"@, i),
        !stands_at_ci(s, "@media"@, i),
        !stands_at_ci(s, "@import"@, i),
        !stands_at_ci(s, "sizes"@, i),
        !stands_at_ci(s, "imagesizes"@, i),
{
    reveal_strlit("media");
    reveal_strlit("@media");
    reveal_strlit("@import");
    reveal_strlit("sizes");
    reveal_strlit("imagesizes");
    lemma_find_ci(s, "media"@, 0, s.len() as int);
    lemma_find_ci(s, "@import"@, 0, s.len() as int);
    lemma_find_ci(s, "sizes"@, 0, s.len() as int);
    if stands_at_ci(s, "@media"@, i) {
        assert(lower_all(s.subrange(i + 1, i + 6)) =~= "media"@) by {
            lemma_stands(s, "@media"@, i, 1);
            lemma_stands(s, "@media"@, i, 2);
            lemma_stands(s, "@media"@, i, 3);
            lemma_stands(s, "@media"@, i, 4);
            lemma_stands(s, "@media"@, i, 5);
        }
        assert(stands_at_ci(s, "media"@, i + 1));
    }
    if stands_at_ci(s, "imagesizes"@, i) {
        assert(lower_all(s.subrange(i + 5, i + 10)) =~= "sizes"@) by {
            lemma_stands(s, "imagesizes"@, i, 5);
            lemma_stands(s, "imagesizes"@, i, 6);
            lemma_stands(s, "imagesizes"@, i, 7);
            lemma_stands(s, "imagesizes"@, i, 8);
            lemma_stands(s, "imagesizes"@, i, 9);
        }
        assert(stands_at_ci(s, "sizes"@, i + 5));
    }
}

proof fn lemma_no_sheet_query(s: Seq<char>, i: int, lim: int, deep: bool)
    requires
        names_none(s),
        0 <= i,
        lim <= s.len(),
    ensures
        sheet_queries(s, i, lim, false, deep) == Seq::<Query>::empty(),
    decreases lim - i,
{
    if i < lim {
        lemma_piece(s, i, lim);
        lemma_no_media(s, i);
        lemma_skip(s, i + 4, lim, Class::Space);
        let e = piece_end(s, i, lim);
        lemma_no_sheet_query(s, e, lim, deep);
        if let Some(a) = data_start(s, i, lim) {
            lemma_no_sheet_query(s, a, e, false);
        }
        assert(sheet_queries(s, i, lim, false, deep) =~= Seq::<Query>::empty());
    }
}

proof fn lemma_no_tag_query(s: Seq<char>, j: int)
    requires
        names_none(s),
        0 <= j,
    ensures
        tag_queries(s, j) == Seq::<Query>::empty(),
    decreases s.len() - j,
{
    if j >= s.len() || s[j] == '>' {
    } else if is_space(s[j]) || s[j] == '/' {
        lemma_no_tag_query(s, j + 1);
    } else {
        let a = attribute_at(s, j);
        let name = lower_all(s.subrange(j, a.name_end));
        lemma_attribute(s, j);
        lemma_no_tag_query(s, a.next);
        lemma_no_media(s, j);
        assert(name.len() == a.name_end - j);
        assert(name == "media"@ ==> stands_at_ci(s, "media"@, j));
        assert(name == "sizes"@ ==> stands_at_ci(s, "sizes"@, j));
        assert(name == "imagesizes"@ ==> stands_at_ci(s, "imagesizes"@, j));
        if a.valued {
            lemma_skip(s, a.start, a.end, Class::Space);
            lemma_no_sheet_query(s, a.start, a.end, true);
            lemma_no_sheet_query(s, skip(s, a.start, a.end, Class::Space), a.end, true);
        }
        assert(tag_queries(s, j) =~= Seq::<Query>::empty());
    }
}

proof fn lemma_no_document_query(s: Seq<char>, i: int)
    requires
        names_none(s),
        0 <= i,
    ensures
        document_queries(s, i) == Seq::<Query>::empty(),
    decreases s.len() - i,
{
    if i < s.len() {
        lemma_markup_step(s, i);
        let ns = name_start(s, i);
        let ne = skip(s, ns, s.len() as int, Class::TagName);
        let close = tag_end(s, ne);
        if opens_declaration(s, i) {
            if let Some(e) = declaration_end(s, i) {
                lemma_no_document_query(s, e);
            }
        } else if s[i] != '<' || ne == ns {
            lemma_no_document_query(s, i + 1);
        } else {
            lemma_no_tag_query(s, ne);
            let tag = lower_all(s.subrange(ns, ne));
            if tag == "style"@ && ns == i + 1 {
                let start = body_start(s, close);
                let end = body_end(s, start);
                lemma_no_sheet_query(s, start, end, true);
                lemma_no_document_query(s, end);
            } else {
                lemma_no_document_query(s, behind_element(s, tag, ns == i + 1, close, 0));
            }
            assert(document_queries(s, i) =~= Seq::<Query>::empty());
        }
    }
}

// ----- Finding them -----

/// A query by its positions.
#[derive(Clone, Copy)]
pub struct QuerySpan {
    pub start: usize,
    pub end: usize,
    pub dark: bool,
}

impl QuerySpan {
    pub open spec fn query(self) -> Query {
        Query { start: self.start as int, end: self.end as int, dark: self.dark }
    }
}

pub open spec fn queries(v: Seq<QuerySpan>) -> Seq<Query> {
    v.map_values(|q: QuerySpan| q.query())
}

fn read_query(s: &[char], i: usize, lim: usize) -> (r: Option<QuerySpan>)
    requires
        i < lim <= s.len(),
    ensures
        r is Some == query_at(s@, i as int, lim as int) is Some,
        r matches Some(q) ==> Some(q.query()) == query_at(s@, i as int, lim as int) && i < q.end
            <= lim,
{
    proof {
        lemma_words();
        lemma_query(s@, i as int, lim as int);
    }
    let feature = chars_of("prefers-color-scheme");
    if !matches_in_ci(s, &feature, i, lim) || (i > 0 && name_char(s[i - 1])) {
        return None;
    }
    let colon = read_gap(s, i + 20, lim);
    if colon >= lim || s[colon] != ':' {
        return None;
    }
    let v = read_gap(s, colon + 1, lim);
    if word_at(s, &chars_of("dark"), v, lim) {
        Some(QuerySpan { start: i, end: v + 4, dark: true })
    } else if word_at(s, &chars_of("light"), v, lim) {
        Some(QuerySpan { start: i, end: v + 5, dark: false })
    } else {
        None
    }
}

/// Finds where the contents of a `data:` URL begin that stands at `i`.
fn find_data(s: &[char], i: usize, lim: usize) -> (r: Option<usize>)
    requires
        i < lim <= s.len(),
    ensures
        opt_int(r) == data_start(s@, i as int, lim as int),
        r matches Some(a) ==> i < a <= lim,
{
    proof {
        reveal_strlit("data:");
        lemma_piece(s@, i as int, lim as int);
        lemma_skip(s@, i + 4, lim as int, Class::Space);
    }
    let quoted = s[i] == '"' || s[i] == '\'';
    let v: usize = if quoted {
        i + 1
    } else {
        if !bare_url_at(s, i, lim) {
            return None;
        }
        skip_over(s, i + 4, lim, Class::Space)
    };
    let end = read_piece(s, i, lim);
    if matches_in_ci(s, &chars_of("data:"), v, lim) && v + 5 <= end {
        Some(v + 5)
    } else {
        None
    }
}

fn push_sheet_queries(
    s: &[char],
    from: usize,
    lim: usize,
    within: bool,
    deep: bool,
    found: &mut Vec<QuerySpan>,
)
    requires
        from <= lim <= s.len(),
    ensures
        queries(final(found)@) == queries(old(found)@) + sheet_queries(
            s@,
            from as int,
            lim as int,
            within,
            deep,
        ),
    decreases lim - from,
{
    let media = chars_of("@media");
    let import = chars_of("@import");
    let ghost want = queries(found@) + sheet_queries(s@, from as int, lim as int, within, deep);
    let mut i: usize = from;
    let mut prelude: bool = within;
    while i < lim
        invariant
            from <= i <= lim <= s.len(),
            media@ == "@media"@,
            import@ == "@import"@,
            queries(found@) + sheet_queries(s@, i as int, lim as int, prelude, deep) == want,
        decreases lim - i,
    {
        if prelude {
            if let Some(q) = read_query(s, i, lim) {
                let ghost before = queries(found@);
                found.push(q);
                proof {
                    let rest = sheet_queries(s@, q.end as int, lim as int, prelude, deep);
                    assert(queries(found@) =~= before.push(q.query()));
                    assert(before.push(q.query()) + rest =~= before + (seq![q.query()] + rest));
                }
                i = q.end;
                continue ;
            }
        }
        let c = s[i];
        let after: bool = if c == '{' || c == '}' || c == ';' {
            false
        } else {
            prelude || word_at(s, &media, i, lim) || word_at(s, &import, i, lim)
        };
        let end = read_piece(s, i, lim);
        let ghost before = queries(found@);
        let ghost rest = sheet_queries(s@, end as int, lim as int, after, deep);
        if deep {
            if let Some(a) = find_data(s, i, lim) {
                push_sheet_queries(s, a, end, false, false, found);
                proof {
                    let inner = sheet_queries(s@, a as int, end as int, false, false);
                    assert((before + inner) + rest =~= before + (inner + rest));
                }
            }
        }
        prelude = after;
        i = end;
    }
    proof {
        assert(queries(found@) + seq![] =~= queries(found@));
    }
}

fn push_value_queries(
    s: &[char],
    name: &str,
    start: usize,
    end: usize,
    found: &mut Vec<QuerySpan>,
)
    requires
        start <= end <= s.len(),
    ensures
        queries(final(found)@) == queries(old(found)@) + value_queries(
            s@,
            name@,
            start as int,
            end as int,
        ),
{
    let v = skip_over(s, start, end, Class::Space);
    if same(name, "media") || same(name, "sizes") || same(name, "imagesizes") {
        push_sheet_queries(s, start, end, true, true, found);
    } else if same(name, "style") || same(name, "srcdoc") {
        push_sheet_queries(s, start, end, false, true, found);
    } else if matches_in_ci(s, &chars_of("data:"), v, end) {
        push_sheet_queries(s, v, end, false, true, found);
    } else {
        proof {
            assert(queries(found@) + seq![] =~= queries(found@));
        }
    }
}

/// Records the queries of a tag's attributes from `from` on; the result is where the tag
/// ends.
fn push_tag_queries(s: &[char], from: usize, found: &mut Vec<QuerySpan>) -> (r: usize)
    requires
        from <= s.len(),
    ensures
        r == tag_end(s@, from as int),
        from <= r <= s.len(),
        queries(final(found)@) == queries(old(found)@) + tag_queries(s@, from as int),
{
    let ghost want = queries(found@) + tag_queries(s@, from as int);
    let mut j: usize = from;
    while j < s.len() && s[j] != '>'
        invariant
            from <= j <= s.len(),
            tag_end(s@, j as int) == tag_end(s@, from as int),
            queries(found@) + tag_queries(s@, j as int) == want,
        decreases s.len() - j,
    {
        if space(s[j]) || s[j] == '/' {
            j = j + 1;
        } else {
            let a = read_attribute(s, j);
            if a.valued {
                let lowered = lower_chars(slice_subrange(s, j, a.name_end));
                let name = string_of(&lowered);
                let ghost before = queries(found@);
                push_value_queries(s, name.as_str(), a.start, a.end, found);
                proof {
                    let here = value_queries(s@, name@, a.start as int, a.end as int);
                    let rest = tag_queries(s@, a.next as int);
                    assert((before + here) + rest =~= before + (here + rest));
                }
            }
            j = a.next;
        }
    }
    proof {
        assert(queries(found@) + seq![] =~= queries(found@));
    }
    j
}

fn push_document_queries(s: &[char], found: &mut Vec<QuerySpan>)
    ensures
        queries(final(found)@) == queries(old(found)@) + document_queries(s@, 0),
{
    let ghost want = queries(found@) + document_queries(s@, 0);
    let n = s.len();
    let mut i: usize = 0;
    while i < n
        invariant
            i <= n,
            n == s.len(),
            want == queries(old(found)@) + document_queries(s@, 0),
            queries(found@) + document_queries(s@, i as int) == want,
        decreases n - i,
    {
        proof {
            lemma_markup_step(s@, i as int);
        }
        if n - i > 1 && s[i] == '<' && (s[i + 1] == '!' || s[i + 1] == '?') {
            match read_declaration(s, i) {
                Some(e) => {
                    i = e;
                },
                None => {
                    proof {
                        assert(declaration_end(s@, i as int) is None);
                        assert(document_queries(s@, i as int) == Seq::<Query>::empty());
                        assert(queries(found@) + Seq::<Query>::empty() =~= queries(found@));
                    }
                    return ;
                },
            }
            continue ;
        }
        let closing = n - i > 1 && s[i + 1] == '/';
        let name_from: usize = if closing {
            i + 2
        } else {
            i + 1
        };
        let name_to = skip_over(s, name_from, n, Class::TagName);
        if s[i] != '<' || name_to == name_from {
            i = i + 1;
        } else {
            let lowered = lower_chars(slice_subrange(s, name_from, name_to));
            let tag = string_of(&lowered);
            let ghost before = queries(found@);
            let close = push_tag_queries(s, name_to, found);
            let ghost inside = tag_queries(s@, name_to as int);
            if same(tag.as_str(), "style") && !closing {
                let start: usize = if close < n {
                    close + 1
                } else {
                    n
                };
                let end = find_body_end(s, start);
                push_sheet_queries(s, start, end, false, true, found);
                proof {
                    let sheet = sheet_queries(s@, start as int, end as int, false, true);
                    let rest = document_queries(s@, end as int);
                    assert(((before + inside) + sheet) + rest =~= before + (inside + sheet + rest));
                }
                i = end;
            } else {
                let next = find_behind_element(s, tag.as_str(), !closing, close, false);
                proof {
                    let rest = document_queries(s@, next as int);
                    assert((before + inside) + rest =~= before + (inside + rest));
                }
                i = next;
            }
        }
    }
    proof {
        assert(queries(found@) + seq![] =~= queries(found@));
    }
}

/// Finds the queries for the dark or the light scheme.
pub fn find_scheme_queries(s: &[char]) -> (found: Vec<QuerySpan>)
    ensures
        queries(found@) == scheme_queries(s@),
{
    let mut found: Vec<QuerySpan> = Vec::new();
    proof {
        assert(queries(found@) + scheme_queries(s@) =~= scheme_queries(s@));
    }
    if skip_over(s, 0, s.len(), Class::Not('<')) < s.len() {
        push_document_queries(s, &mut found);
    } else {
        push_sheet_queries(s, 0, s.len(), false, true, &mut found);
    }
    found
}

fn scheme_test_text(wanted: bool) -> (out: &'static str)
    ensures
        out@ == scheme_test(wanted),
{
    if wanted {
        "min-width:0px"
    } else {
        "min-width:999999px"
    }
}

fn settle(s: &[char], found: &Vec<QuerySpan>, dark: bool) -> (out: String)
    requires
        queries(found@) == scheme_queries(s@),
    ensures
        out@ == settled(s@, 0, scheme_queries(s@), dark),
{
    let mut out = String::new();
    let mut at: usize = 0;
    let mut k: usize = 0;
    let ghost all = scheme_queries(s@);
    let ghost want = settled(s@, 0, all, dark);
    proof {
        lemma_queries_bounds(s@);
        assert(all.skip(0) =~= all);
        assert(out@ + want =~= want);
    }
    while k < found.len()
        invariant
            k <= found.len(),
            at <= s.len(),
            all == queries(found@),
            forall|j: int| 0 <= j < all.len() ==> is_query(s@, #[trigger] all[j], 0, s@.len() as int),
            out@ + settled(s@, at as int, all.skip(k as int), dark) == want,
        decreases found.len() - k,
    {
        let q = found[k];
        proof {
            assert(all[k as int] == q.query());
            assert(is_query(s@, all[k as int], 0, s@.len() as int));
            assert(all.skip(k as int)[0] == all[k as int]);
            assert(all.skip(k as int).drop_first() =~= all.skip(k + 1));
        }
        if q.start >= at {
            let ghost had = out@;
            push_range(&mut out, s, at, q.start);
            out.append(scheme_test_text(q.dark == dark));
            proof {
                let kept = s@.subrange(at as int, q.start as int);
                let test = scheme_test(q.dark == dark);
                let tail = settled(s@, q.end as int, all.skip(k + 1), dark);
                assert(((had + kept) + test) + tail =~= had + (kept + test + tail));
            }
            at = q.end;
        }
        k = k + 1;
    }
    proof {
        assert(all.skip(k as int).len() == 0);
    }
    push_range(&mut out, s, at, s.len());
    out
}

/// Pins every `prefers-color-scheme` media query in the document to the ground
/// that the reader actually chose, rather than the setting of the desktop: the
/// media feature becomes a width test that is always or never true, and any
/// surrounding `only screen and …` is kept. Text that merely holds the words is left
/// alone.
pub fn pin_color_scheme(doc: &str, dark: bool) -> (out: String)
    ensures
        out@ == pinned(doc@, dark),
{
    let mut out = copy_of(doc);
    loop
        invariant
            pinned(out@, dark) == pinned(doc@, dark),
        decreases effs(out@),
    {
        let s = chars_of(out.as_str());
        let found = find_scheme_queries(&s);
        if found.len() == 0 {
            return out;
        }
        proof {
            lemma_settling_takes_effs(s@, dark);
        }
        out = settle(&s, &found, dark);
    }
}

} // verus!
