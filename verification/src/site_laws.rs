//! Which colours of a message are found, told from the documents themselves.

use vstd::prelude::*;

use crate::colors::{
    adapted, attribute_sites, bearer, colours, declaration_sites, declarations_sites, document_sites,
    list_sites, property_start, recolored, tag_sites, value_end, value_sites, word_end,
    Site,
};
use crate::markup::tag_end;
use crate::remote::{behind_element, url_open};
use crate::remote_laws::{
    fits, is_attribute_name, is_tag_name, laid_out, lemma_attribute_here, lemma_behind_end,
    lemma_laid_out, lemma_tag_begins, lone_tag, value_place,
};
use crate::text::{
    find_ci, is_blank, lemma_find_ci, lemma_not_trimmed, lemma_skip_to, lemma_stands, lower_all, skip,
    stands_at_ci, Class,
};

verus! {

// ----- A document of one tag -----

proof fn lemma_tag_here(
    s: Seq<char>,
    body: bool,
    t: Seq<char>,
    a: Seq<char>,
    q: Seq<char>,
    w: Seq<char>,
)
    requires
        laid_out(s, t, a, q, w),
        is_attribute_name(a),
        fits(q, w),
    ensures
        tag_sites(s, body, t.len() as int + 1) == attribute_sites(
            s,
            bearer(lower_all(a), body),
            value_place(t, a, q, w).0,
            value_place(t, a, q, w).1,
        ),
        tag_end(s, t.len() as int + 1) == s.len() - 1,
{
    lemma_attribute_here(s, t, a, q, w);
    reveal(laid_out);
    let n = s.len() as int;
    let j = t.len() as int + 2;
    let p = value_place(t, a, q, w);
    let found = attribute_sites(s, bearer(lower_all(a), body), p.0, p.1);
    assert(s[j] == a[0]);
    assert(Class::AttrName.has(a[0]));
    assert(tag_sites(s, body, n - 1) == Seq::<Site>::empty());
    assert(tag_sites(s, body, j) == found + Seq::<Site>::empty());
    assert(found + Seq::<Site>::empty() =~= found);
    assert(tag_end(s, n - 1) == n - 1);
    assert(tag_end(s, j) == n - 1);
}

proof fn lemma_sites_end(s: Seq<char>)
    ensures
        document_sites(s, s.len() as int) == Seq::<Site>::empty(),
        s.len() > 0 && s.last() == '>' ==> document_sites(s, s.len() - 1) == Seq::<Site>::empty(),
{
    assert(document_sites(s, s.len() as int) == Seq::<Site>::empty());
}

proof fn lemma_sites_tag(s: Seq<char>, ne: int)
    requires
        s.len() > 2,
        s[0] == '<',
        s[1] != '/' && s[1] != '!' && s[1] != '?',
        s.last() == '>',
        1 < ne == skip(s, 1, s.len() as int, Class::TagName),
        lower_all(s.subrange(1, ne)) != "style"@,
        tag_end(s, ne) == s.len() - 1,
    ensures
        document_sites(s, 0) == tag_sites(s, lower_all(s.subrange(1, ne)) == "body"@, ne),
{
    let n = s.len() as int;
    let tag = lower_all(s.subrange(1, ne));
    lemma_behind_end(s, tag);
    lemma_sites_end(s);
    let found = tag_sites(s, tag == "body"@, ne);
    assert(document_sites(s, 0) == found + document_sites(s, behind_element(s, tag, true, n - 1, 0)));
    assert(found + Seq::<Site>::empty() =~= found);
}

/// What is coloured in the document of one tag is what its attribute colours.
proof fn lemma_lone_sites(t: Seq<char>, a: Seq<char>, q: Seq<char>, w: Seq<char>)
    requires
        is_tag_name(t),
        lower_all(t) != "style"@,
        is_attribute_name(a),
        fits(q, w),
    ensures
        ({
            let s = lone_tag(t, a, q, w);
            let p = value_place(t, a, q, w);
            &&& s.subrange(p.0, p.1) == w
            &&& p.1 <= s.len()
            &&& document_sites(s, 0) == attribute_sites(
                s,
                bearer(lower_all(a), lower_all(t) == "body"@),
                p.0,
                p.1,
            )
        }),
{
    let s = lone_tag(t, a, q, w);
    lemma_laid_out(t, a, q, w);
    lemma_tag_begins(s, t, a, q, w);
    lemma_tag_here(s, lower_all(t) == "body"@, t, a, q, w);
    lemma_sites_tag(s, t.len() as int + 1);
}

proof fn lemma_quoted(t: Seq<char>, a: Seq<char>, q: Seq<char>, w: Seq<char>)
    requires
        fits(q, w),
        q.len() > 0,
    ensures
        ({
            let s = lone_tag(t, a, q, w);
            let k = value_place(t, a, q, w).0;
            k > 0 && (s[k - 1] == '"' || s[k - 1] == '\'')
        }),
{
    lemma_laid_out(t, a, q, w);
    reveal(laid_out);
}

// ----- Attributes -----

/// Whether an attribute colours, and then whether it colours the background; `text` does so
/// on the body alone.
pub open spec fn paints(tag: Seq<char>, attr: Seq<char>) -> Option<bool> {
    if attr == "bgcolor"@ {
        Some(true)
    } else if attr == "color"@ || (attr == "text"@ && tag == "body"@) {
        Some(false)
    } else {
        None
    }
}

proof fn lemma_names()
    ensures
        "bgcolor"@ != "style"@,
        "color"@ != "style"@,
        "text"@ != "style"@,
        "bgcolor"@ != "color"@,
        "bgcolor"@ != "text"@,
        "color"@ != "text"@,
{
    reveal_strlit("bgcolor");
    reveal_strlit("color");
    reveal_strlit("text");
    reveal_strlit("style");
    assert("bgcolor"@.len() == 7 && "color"@.len() == 5 && "text"@.len() == 4 && "style"@.len() == 5);
    assert("color"@[0] == 'c' && "style"@[0] == 's');
}

/// The colour of an attribute is found as what it colours, the ground or the text, and the
/// new colour takes its place; of the document nothing else changes.
pub proof fn attribute_colors_are_found(
    t: Seq<char>,
    a: Seq<char>,
    q: Seq<char>,
    w: Seq<char>,
    new: Seq<char>,
)
    requires
        is_tag_name(t),
        lower_all(t) != "style"@,
        is_attribute_name(a),
        paints(lower_all(t), lower_all(a)) is Some,
        q.len() > 0,
        fits(q, w),
        fits(q, new),
    ensures
        ({
            let s = lone_tag(t, a, q, w);
            let p = value_place(t, a, q, w);
            &&& document_sites(s, 0) == seq![
                Site {
                    start: p.0,
                    end: p.1,
                    background: paints(lower_all(t), lower_all(a))->0,
                    bare_hex: true,
                },
            ]
            &&& adapted(s, seq![Some(new)]) == lone_tag(t, a, q, new)
            &&& adapted(s, seq![None]) == s
        }),
{
    let s = lone_tag(t, a, q, w);
    let p = value_place(t, a, q, w);
    lemma_names();
    lemma_lone_sites(t, a, q, w);
    lemma_quoted(t, a, q, w);
    let found = document_sites(s, 0);
    assert(found.len() == 1);
    reveal_with_fuel(recolored, 2);
    lemma_replaced(t, a, q, w, new);
    let n = s.len() as int;
    assert(adapted(s, seq![Some(new)]) =~= s.subrange(0, p.0) + new + s.subrange(p.1, n));
    assert(adapted(s, seq![None]) =~= s.subrange(0, p.0) + s.subrange(p.0, p.1) + s.subrange(p.1, n));
    assert(s.subrange(0, p.0) + s.subrange(p.0, p.1) + s.subrange(p.1, n) =~= s);
}

proof fn lemma_replaced(t: Seq<char>, a: Seq<char>, q: Seq<char>, w: Seq<char>, new: Seq<char>)
    ensures
        ({
            let s = lone_tag(t, a, q, w);
            let p = value_place(t, a, q, w);
            lone_tag(t, a, q, new) == s.subrange(0, p.0) + new + s.subrange(p.1, s.len() as int)
        }),
{
    reveal(lone_tag);
    reveal_strlit("<");
    reveal_strlit(" ");
    reveal_strlit("=");
    reveal_strlit(">");
    let s = lone_tag(t, a, q, w);
    let p = value_place(t, a, q, w);
    assert(s.subrange(0, p.0) =~= "<"@ + t + " "@ + a + "="@ + q);
    assert(s.subrange(p.1, s.len() as int) =~= q + ">"@);
    assert(lone_tag(t, a, q, new) =~= ("<"@ + t + " "@ + a + "="@ + q) + new + (q + ">"@));
}

/// An attribute that does not colour is left alone.
pub proof fn other_attributes_color_nothing(t: Seq<char>, a: Seq<char>, q: Seq<char>, w: Seq<char>)
    requires
        is_tag_name(t),
        lower_all(t) != "style"@,
        is_attribute_name(a),
        paints(lower_all(t), lower_all(a)) is None,
        lower_all(a) != "style"@,
        fits(q, w),
    ensures
        document_sites(lone_tag(t, a, q, w), 0) == Seq::<Site>::empty(),
{
    lemma_lone_sites(t, a, q, w);
}

// ----- Declarations -----

/// Whether a property colours, and then whether it colours the background.
pub open spec fn tints(property: Seq<char>) -> Option<bool> {
    if property == "color"@ {
        Some(false)
    } else if property == "background"@ || property == "background-color"@ {
        Some(true)
    } else {
        None
    }
}

/// Whether a text can be a property's name.
pub open spec fn is_property(p: Seq<char>) -> bool {
    p.len() > 0 && forall|k: int| 0 <= k < p.len() ==> Class::Host.has(#[trigger] p[k])
}

/// Whether a character can stand in a value of one word.
pub open spec fn wordly(c: char) -> bool {
    &&& !is_blank(c)
    &&& c != ',' && c != '(' && c != ')' && c != '"' && c != '\''
    &&& c != ';' && c != '!' && c != '/'
}

/// Whether a text can be a value of one word, such as a colour's name or its digits.
pub open spec fn is_word(v: Seq<char>) -> bool {
    v.len() > 0 && forall|k: int| 0 <= k < v.len() ==> wordly(#[trigger] v[k])
}

/// One declaration.
pub open spec fn declaration(p: Seq<char>, v: Seq<char>) -> Seq<char> {
    p + seq![':'] + v
}

proof fn lemma_word_end(s: Seq<char>, i: int, lim: int)
    requires
        0 <= i <= lim <= s.len(),
        forall|x: int| i <= x < lim ==> wordly(#[trigger] s[x]),
    ensures
        word_end(s, i, lim) == lim,
    decreases lim - i,
{
    if i < lim {
        assert(wordly(s[i]));
        lemma_word_end(s, i + 1, lim);
    }
}

proof fn lemma_value(s: Seq<char>, i: int, lim: int, background: bool)
    requires
        0 <= i < lim <= s.len(),
        forall|x: int| i <= x < lim ==> wordly(#[trigger] s[x]),
    ensures
        value_sites(s, i, lim, background) == seq![
            Site { start: i, end: lim, background, bare_hex: false },
        ],
        value_end(s, i, lim) == lim,
{
    lemma_word_end(s, i, lim);
    assert(wordly(s[i]));
    if stands_at_ci(s, url_open(), i) && i + 4 <= lim {
        lemma_stands(s, url_open(), i, 3);
        assert(wordly(s[i + 3]));
    }
    assert(value_sites(s, lim, lim, background) == Seq::<Site>::empty());
    let one = seq![Site { start: i, end: lim, background, bare_hex: false }];
    assert(one + Seq::<Site>::empty() =~= one);
    reveal_strlit("!important");
    lemma_find_ci(s, "!important"@, i, lim);
    if let Some(k) = find_ci(s, "!important"@, i, lim) {
        lemma_stands(s, "!important"@, k, 0);
        assert(wordly(s[k]));
    }
}

proof fn lemma_declaration(s: Seq<char>, a: int, p: Seq<char>, v: Seq<char>)
    requires
        is_property(p),
        is_word(v),
        0 <= a,
        a + declaration(p, v).len() <= s.len(),
        s.subrange(a, a + declaration(p, v).len()) == declaration(p, v),
    ensures
        ({
            let e = a + declaration(p, v).len();
            declaration_sites(s, a, e) == (match tints(lower_all(p)) {
                Some(background) => seq![
                    Site { start: a + p.len() + 1, end: e, background, bare_hex: false },
                ],
                None => seq![],
            })
        }),
{
    let d = declaration(p, v);
    let e = a + d.len();
    let colon = a + p.len();
    assert forall|x: int| a <= x < e implies #[trigger] s[x] == d[x - a] by {
        assert(s.subrange(a, e)[x - a] == s[x]);
    }
    assert(s[a] == p[0]);
    assert(Class::Host.has(p[0]) && Class::Host.has(p[p.len() - 1]));
    assert(skip(s, a, e, Class::Blank) == a);
    assert(property_start(s, a, e) == Some(a));
    assert forall|x: int| a <= x < colon implies Class::Not(':').has(#[trigger] s[x]) by {
        assert(s[x] == p[x - a]);
        assert(Class::Host.has(p[x - a]));
    }
    assert(s[colon] == ':');
    lemma_skip_to(s, a, colon, e, Class::Not(':'));
    assert(s.subrange(a, colon) =~= p);
    lemma_not_trimmed(p);
    assert forall|x: int| colon + 1 <= x < e implies wordly(#[trigger] s[x]) by {
        assert(s[x] == v[x - colon - 1]);
    }
    if let Some(background) = colours(lower_all(p)) {
        lemma_value(s, colon + 1, e, background);
    }
}

/// Whether nothing at a place parts declarations or hides what would part them.
spec fn runs_on(c: char) -> bool {
    c != ';' && c != '"' && c != '\'' && c != '(' && c != ')' && c != '/'
}

proof fn lemma_list_run(s: Seq<char>, start: int, i: int, stop: int, lim: int)
    requires
        0 <= i <= stop <= lim <= s.len(),
        forall|x: int| i <= x < stop ==> runs_on(#[trigger] s[x]),
    ensures
        list_sites(s, start, i, lim, 0, None) == list_sites(s, start, stop, lim, 0, None),
    decreases stop - i,
{
    if i < stop {
        assert(runs_on(s[i]));
        lemma_list_run(s, start, i + 1, stop, lim);
    }
}

proof fn lemma_runs(s: Seq<char>, a: int, p: Seq<char>, v: Seq<char>)
    requires
        is_property(p),
        is_word(v),
        0 <= a,
        a + declaration(p, v).len() <= s.len(),
        s.subrange(a, a + declaration(p, v).len()) == declaration(p, v),
    ensures
        forall|x: int| a <= x < a + declaration(p, v).len() ==> runs_on(#[trigger] s[x]),
{
    let d = declaration(p, v);
    let e = a + d.len();
    assert forall|x: int| a <= x < e implies runs_on(#[trigger] s[x]) by {
        assert(s.subrange(a, e)[x - a] == s[x]);
        if x < a + p.len() {
            assert(d[x - a] == p[x - a]);
            assert(Class::Host.has(p[x - a]));
        } else if x > a + p.len() {
            assert(d[x - a] == v[x - a - p.len() - 1]);
            assert(wordly(v[x - a - p.len() - 1]));
        }
    }
}

/// Two declarations.
pub open spec fn two_declarations(p: Seq<char>, v: Seq<char>, r: Seq<char>, w: Seq<char>) -> Seq<
    char,
> {
    declaration(p, v) + seq![';'] + declaration(r, w)
}

/// The places of one declaration's colour, from `a` on.
pub open spec fn colored_at(a: int, p: Seq<char>, v: Seq<char>) -> Seq<Site> {
    match tints(lower_all(p)) {
        Some(background) => seq![
            Site {
                start: a + p.len() + 1,
                end: a + p.len() + 1 + v.len(),
                background,
                bare_hex: false,
            },
        ],
        None => seq![],
    }
}

proof fn lemma_two_declarations(
    s: Seq<char>,
    a: int,
    p: Seq<char>,
    v: Seq<char>,
    r: Seq<char>,
    w: Seq<char>,
)
    requires
        is_property(p) && is_word(v),
        is_property(r) && is_word(w),
        0 <= a,
        a + two_declarations(p, v, r, w).len() <= s.len(),
        s.subrange(a, a + two_declarations(p, v, r, w).len()) == two_declarations(p, v, r, w),
    ensures
        declarations_sites(s, a, a + two_declarations(p, v, r, w).len()) == colored_at(a, p, v)
            + colored_at(a + declaration(p, v).len() + 1, r, w),
{
    let all = two_declarations(p, v, r, w);
    let one = declaration(p, v);
    let two = declaration(r, w);
    let e = a + all.len();
    let m = a + one.len();
    assert forall|x: int| a <= x < e implies #[trigger] s[x] == all[x - a] by {
        assert(s.subrange(a, e)[x - a] == s[x]);
    }
    assert(s.subrange(a, m) =~= one);
    assert(s.subrange(m + 1, e) =~= two);
    assert(s[m] == ';');
    lemma_runs(s, a, p, v);
    lemma_runs(s, m + 1, r, w);
    lemma_declaration(s, a, p, v);
    lemma_declaration(s, m + 1, r, w);
    lemma_list_run(s, a, a, m, e);
    lemma_list_run(s, m + 1, m + 1, e, e);
    assert(list_sites(s, m + 1, e, e, 0, None) == declaration_sites(s, m + 1, e));
    assert(list_sites(s, a, m, e, 0, None) == declaration_sites(s, a, m) + list_sites(
        s,
        m + 1,
        m + 1,
        e,
        0,
        None,
    ));
}

/// Of the declarations of a `style` attribute, each that colours is found as what it
/// colours, the ground or the text, and the others are not.
pub proof fn styled_colors_are_found(
    t: Seq<char>,
    a: Seq<char>,
    q: Seq<char>,
    p: Seq<char>,
    v: Seq<char>,
    r: Seq<char>,
    w: Seq<char>,
)
    requires
        is_tag_name(t),
        lower_all(t) != "style"@,
        is_attribute_name(a),
        lower_all(a) == "style"@,
        q.len() > 0,
        fits(q, two_declarations(p, v, r, w)),
        is_property(p) && is_word(v),
        is_property(r) && is_word(w),
    ensures
        ({
            let all = two_declarations(p, v, r, w);
            let k = value_place(t, a, q, all).0;
            document_sites(lone_tag(t, a, q, all), 0) == colored_at(k, p, v) + colored_at(
                k + declaration(p, v).len() + 1,
                r,
                w,
            )
        }),
{
    let all = two_declarations(p, v, r, w);
    let s = lone_tag(t, a, q, all);
    let k = value_place(t, a, q, all).0;
    lemma_lone_sites(t, a, q, all);
    lemma_quoted(t, a, q, all);
    lemma_two_declarations(s, k, p, v, r, w);
}

} // verus!
