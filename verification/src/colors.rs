//! The colours that a message declares: where they stand in its document, and
//! the document with some of them replaced.
//!
//! Mail is designed for light rendering. On a dark ground every colour that a
//! message declares is looked at and, where its lightness is wrong for that
//! ground, replaced; everything else stays as it was written.

use vstd::prelude::*;
use vstd::slice::slice_subrange;

use crate::markup::{
    declaration_end, lemma_markup_step, opens_declaration, read_declaration, read_tag_end, tag_end,
};
use crate::remote::{
    attribute_at, behind_element, body_end, body_start, find_behind_element, find_body_end,
    lemma_attribute, name_start, read_attribute, url_open,
};
use crate::sheets::{piece_end, read_piece};
use crate::text::{
    blank, chars_of, find, find_ci, find_from, find_from_ci, is_space, lemma_find, lemma_skip,
    lower_all, lower_chars, matches_in_ci, opt_int, push_range, same, skip, skip_over, space,
    stands_in_ci, string_of, texts, opt_text, trim, trimmed, Class,
};

verus! {

/// A place in a document where a colour may stand: whether it colours a
/// background or text, and whether a hexadecimal colour may go without its `#`
/// there.
pub struct Site {
    pub start: int,
    pub end: int,
    pub background: bool,
    pub bare_hex: bool,
}

/// A [`Site`] by its positions in the document.
#[derive(Clone, Copy)]
pub struct ColorSite {
    pub start: usize,
    pub end: usize,
    pub background: bool,
    pub bare_hex: bool,
}

impl ColorSite {
    pub open spec fn site(self) -> Site {
        Site {
            start: self.start as int,
            end: self.end as int,
            background: self.background,
            bare_hex: self.bare_hex,
        }
    }
}

pub open spec fn sites(v: Seq<ColorSite>) -> Seq<Site> {
    v.map_values(|s: ColorSite| s.site())
}

/// Whether the sites follow one another without overlap and end at or before `lim`.
pub open spec fn spaced(v: Seq<ColorSite>, lim: int) -> bool {
    &&& forall|k: int| 0 <= k < v.len() ==> (#[trigger] v[k]).start <= v[k].end <= lim
    &&& forall|j: int, k: int|
        0 <= j < k < v.len() ==> (#[trigger] v[j]).end <= (#[trigger] v[k]).start
}

// ----- Within one value -----

/// Behind the bracket that closes the `depth` brackets open at `i`, or `lim`.
pub open spec fn balanced(s: Seq<char>, i: int, lim: int, depth: nat) -> int
    decreases lim - i,
{
    if i >= lim || depth == 0 {
        i
    } else if s[i] == '(' {
        balanced(s, i + 1, lim, depth + 1)
    } else if s[i] == ')' {
        balanced(s, i + 1, lim, (depth - 1) as nat)
    } else {
        balanced(s, i + 1, lim, depth)
    }
}

/// Behind the quote that closes a string, or `lim`.
pub open spec fn string_end(s: Seq<char>, i: int, lim: int, quote: char) -> int {
    let k = skip(s, i, lim, Class::Not(quote));
    if k < lim {
        k + 1
    } else {
        k
    }
}

/// Behind a word that begins at `i`: up to white space or a comma, or through
/// the brackets of a function.
pub open spec fn word_end(s: Seq<char>, i: int, lim: int) -> int
    decreases lim - i,
{
    if i >= lim || Class::Separator.has(s[i]) {
        i
    } else if s[i] == '(' {
        balanced(s, i + 1, lim, 1)
    } else {
        word_end(s, i + 1, lim)
    }
}

proof fn lemma_balanced(s: Seq<char>, i: int, lim: int, depth: nat)
    ensures
        i <= balanced(s, i, lim, depth),
        i <= lim ==> balanced(s, i, lim, depth) <= lim,
    decreases lim - i,
{
    if i >= lim || depth == 0 {
    } else if s[i] == '(' {
        lemma_balanced(s, i + 1, lim, depth + 1);
    } else if s[i] == ')' {
        lemma_balanced(s, i + 1, lim, (depth - 1) as nat);
    } else {
        lemma_balanced(s, i + 1, lim, depth);
    }
}

proof fn lemma_word_end(s: Seq<char>, i: int, lim: int)
    ensures
        i <= word_end(s, i, lim),
        i <= lim ==> word_end(s, i, lim) <= lim,
        i < lim && !Class::Separator.has(s[i]) ==> i < word_end(s, i, lim),
    decreases lim - i,
{
    if i >= lim || Class::Separator.has(s[i]) {
    } else if s[i] == '(' {
        lemma_balanced(s, i + 1, lim, 1);
    } else {
        lemma_word_end(s, i + 1, lim);
    }
}

/// What a value holds at one position.
pub enum Piece {
    /// White space, commas, a `url(…)` or a string up to the position: no colour.
    Raw(int),
    /// A word or a function call up to the position: a colour, perhaps.
    Token(int),
}

/// The piece of a value that begins at `i`. `url(…)` and quoted strings are kept
/// whole: what they hold is no colour.
pub open spec fn piece_at(s: Seq<char>, i: int, lim: int) -> Piece {
    if Class::Separator.has(s[i]) {
        Piece::Raw(skip(s, i, lim, Class::Separator))
    } else if stands_in_ci(s, url_open(), i, lim) {
        Piece::Raw(balanced(s, i + 4, lim, 1))
    } else if s[i] == '"' || s[i] == '\'' {
        Piece::Raw(string_end(s, i + 1, lim, s[i]))
    } else {
        Piece::Token(word_end(s, i, lim))
    }
}

impl Piece {
    pub open spec fn end(self) -> int {
        match self {
            Piece::Raw(e) => e,
            Piece::Token(e) => e,
        }
    }
}

pub proof fn lemma_piece(s: Seq<char>, i: int, lim: int)
    requires
        i < lim,
    ensures
        i < piece_at(s, i, lim).end() <= lim,
{
    lemma_skip(s, i, lim, Class::Separator);
    lemma_skip(s, i + 1, lim, Class::Separator);
    lemma_balanced(s, i + 4, lim, 1);
    lemma_skip(s, i + 1, lim, Class::Not(s[i]));
    lemma_word_end(s, i, lim);
}

/// The candidates for a colour in a value: its words and function calls.
pub open spec fn value_sites(s: Seq<char>, i: int, lim: int, background: bool) -> Seq<Site>
    decreases lim - i,
    via value_sites_ends
{
    if i >= lim {
        seq![]
    } else {
        match piece_at(s, i, lim) {
            Piece::Raw(e) => value_sites(s, e, lim, background),
            Piece::Token(e) => seq![Site { start: i, end: e, background, bare_hex: false }]
                + value_sites(s, e, lim, background),
        }
    }
}

#[via_fn]
proof fn value_sites_ends(s: Seq<char>, i: int, lim: int, background: bool) {
    if i < lim {
        lemma_piece(s, i, lim);
    }
}

fn read_balanced(s: &[char], from: usize, lim: usize) -> (r: usize)
    requires
        0 < from <= lim <= s.len(),
    ensures
        r == balanced(s@, from as int, lim as int, 1),
        from <= r <= lim,
{
    let mut i: usize = from;
    let mut depth: usize = 1;
    while i < lim && depth > 0
        invariant
            0 < from <= i <= lim <= s.len(),
            depth <= i - from + 1,
            balanced(s@, from as int, lim as int, 1) == balanced(
                s@,
                i as int,
                lim as int,
                depth as nat,
            ),
        decreases lim - i,
    {
        if s[i] == '(' {
            depth = depth + 1;
        } else if s[i] == ')' {
            depth = depth - 1;
        }
        i = i + 1;
    }
    i
}

fn read_word(s: &[char], from: usize, lim: usize) -> (r: usize)
    requires
        from <= lim <= s.len(),
    ensures
        r == word_end(s@, from as int, lim as int),
        from <= r <= lim,
{
    let mut i: usize = from;
    while i < lim && !(blank(s[i]) || s[i] == ',')
        invariant
            from <= i <= lim <= s.len(),
            word_end(s@, from as int, lim as int) == word_end(s@, i as int, lim as int),
        decreases lim - i,
    {
        if s[i] == '(' {
            return read_balanced(s, i + 1, lim);
        }
        i = i + 1;
    }
    i
}

/// Splits a CSS value at `i` into a candidate for a colour (`true`) or a verbatim
/// run, and tells where it ends.
pub fn split_value_token(s: &[char], i: usize, lim: usize) -> (r: (bool, usize))
    requires
        i < lim <= s.len(),
    ensures
        piece_at(s@, i as int, lim as int) == (if r.0 {
            Piece::Token(r.1 as int)
        } else {
            Piece::Raw(r.1 as int)
        }),
        i < r.1 <= lim,
{
    proof {
        lemma_piece(s@, i as int, lim as int);
    }
    let opening: Vec<char> = vec!['u', 'r', 'l', '('];
    assert(opening@ == url_open());
    if blank(s[i]) || s[i] == ',' {
        (false, skip_over(s, i, lim, Class::Separator))
    } else if matches_in_ci(s, &opening, i, lim) {
        (false, read_balanced(s, i + 4, lim))
    } else if s[i] == '"' || s[i] == '\'' {
        let k = skip_over(s, i + 1, lim, Class::Not(s[i]));
        (
            false,
            if k < lim {
                k + 1
            } else {
                k
            },
        )
    } else {
        (true, read_word(s, i, lim))
    }
}

fn push_site(found: &mut Vec<ColorSite>, site: ColorSite, from: Ghost<int>)
    requires
        spaced(old(found)@, from@),
        from@ <= site.start <= site.end,
    ensures
        sites(final(found)@) == sites(old(found)@) + seq![site.site()],
        spaced(final(found)@, site.end as int),
{
    let ghost before = found@;
    found.push(site);
    proof {
        assert(sites(found@) =~= sites(before) + seq![site.site()]);
    }
}

fn push_value_sites(
    s: &[char],
    from: usize,
    lim: usize,
    background: bool,
    found: &mut Vec<ColorSite>,
)
    requires
        from <= lim <= s.len(),
        spaced(old(found)@, from as int),
    ensures
        sites(final(found)@) == sites(old(found)@) + value_sites(
            s@,
            from as int,
            lim as int,
            background,
        ),
        spaced(final(found)@, lim as int),
{
    let ghost had = sites(found@);
    let mut i: usize = from;
    while i < lim
        invariant
            from <= i <= lim <= s.len(),
            spaced(found@, i as int),
            sites(found@) + value_sites(s@, i as int, lim as int, background) == had + value_sites(
                s@,
                from as int,
                lim as int,
                background,
            ),
        decreases lim - i,
    {
        let (token, end) = split_value_token(s, i, lim);
        if token {
            let ghost now = sites(found@);
            let site = ColorSite { start: i, end, background, bare_hex: false };
            push_site(found, site, Ghost(i as int));
            proof {
                let rest = value_sites(s@, end as int, lim as int, background);
                assert((now + seq![site.site()]) + rest =~= now + (seq![site.site()] + rest));
            }
        }
        i = end;
    }
    proof {
        assert(sites(found@) + seq![] =~= sites(found@));
    }
}

// ----- Within declarations -----

pub open spec fn opens_comment(s: Seq<char>, i: int, lim: int) -> bool {
    i + 1 < lim && s[i] == '/' && s[i + 1] == '*'
}

pub open spec fn comment_close() -> Seq<char> {
    seq!['*', '/']
}

/// Where the declaration that begins at `a` has its property: behind leading
/// white space and comments. None if a comment does not close.
pub open spec fn property_start(s: Seq<char>, a: int, lim: int) -> Option<int>
    decreases lim - a,
    when 0 <= a && lim <= s.len()
    via property_start_ends
{
    let p = skip(s, a, lim, Class::Blank);
    if opens_comment(s, p, lim) {
        match find(s, comment_close(), p + 2, lim) {
            Some(e) => property_start(s, e + 2, lim),
            None => None,
        }
    } else {
        Some(p)
    }
}

#[via_fn]
proof fn property_start_ends(s: Seq<char>, a: int, lim: int) {
    lemma_skip(s, a, lim, Class::Blank);
    lemma_find(s, comment_close(), skip(s, a, lim, Class::Blank) + 2, lim);
}

/// Whether a property colours text, a background, or nothing.
pub open spec fn colours(property: Seq<char>) -> Option<bool> {
    if property == "color"@ {
        Some(false)
    } else if property == "background-color"@ || property == "background"@ {
        Some(true)
    } else {
        None
    }
}

/// Where a declaration's value ends: before an `!important`, if there is one.
pub open spec fn value_end(s: Seq<char>, from: int, lim: int) -> int {
    match find_ci(s, "!important"@, from, lim) {
        Some(k) => k,
        None => lim,
    }
}

/// The candidates in one `property: value`. Only `color`, `background-color` and
/// `background` have any.
pub open spec fn declaration_sites(s: Seq<char>, a: int, lim: int) -> Seq<Site> {
    match property_start(s, a, lim) {
        None => seq![],
        Some(p) => {
            let colon = skip(s, p, lim, Class::Not(':'));
            if colon >= lim {
                seq![]
            } else {
                match colours(lower_all(trim(s.subrange(p, colon)))) {
                    None => seq![],
                    Some(background) => value_sites(
                        s,
                        colon + 1,
                        value_end(s, colon + 1, lim),
                        background,
                    ),
                }
            }
        },
    }
}

/// Behind the comment that opens at `i`, or `lim`.
pub open spec fn comment_end(s: Seq<char>, i: int, lim: int) -> int {
    match find(s, comment_close(), i + 2, lim) {
        Some(e) => e + 2,
        None => lim,
    }
}

/// The candidates in a list of declarations, of which the one that begins at
/// `start` is read up to `i`. Declarations end at a `;` outside of brackets,
/// quotes and comments.
pub open spec fn list_sites(
    s: Seq<char>,
    start: int,
    i: int,
    lim: int,
    depth: nat,
    quote: Option<char>,
) -> Seq<Site>
    decreases lim - i,
    when 0 <= i && lim <= s.len()
    via list_sites_ends
{
    if i >= lim {
        declaration_sites(s, start, lim)
    } else if quote is None && opens_comment(s, i, lim) {
        list_sites(s, start, comment_end(s, i, lim), lim, depth, quote)
    } else {
        match quote {
            Some(q) => list_sites(
                s,
                start,
                i + 1,
                lim,
                depth,
                if s[i] == q {
                    None
                } else {
                    quote
                },
            ),
            None => if s[i] == '"' || s[i] == '\'' {
                list_sites(s, start, i + 1, lim, depth, Some(s[i]))
            } else if s[i] == '(' {
                list_sites(s, start, i + 1, lim, depth + 1, quote)
            } else if s[i] == ')' {
                list_sites(
                    s,
                    start,
                    i + 1,
                    lim,
                    if depth > 0 {
                        (depth - 1) as nat
                    } else {
                        0
                    },
                    quote,
                )
            } else if s[i] == ';' && depth == 0 {
                declaration_sites(s, start, i) + list_sites(s, i + 1, i + 1, lim, depth, quote)
            } else {
                list_sites(s, start, i + 1, lim, depth, quote)
            },
        }
    }
}

#[via_fn]
proof fn list_sites_ends(
    s: Seq<char>,
    start: int,
    i: int,
    lim: int,
    depth: nat,
    quote: Option<char>,
) {
    lemma_find(s, comment_close(), i + 2, lim);
}

/// The candidates in a list of declarations: the content of a `style` attribute,
/// or the body of a rule.
pub open spec fn declarations_sites(s: Seq<char>, a: int, lim: int) -> Seq<Site> {
    list_sites(s, a, a, lim, 0, None)
}

fn read_property_start(s: &[char], from: usize, lim: usize) -> (r: Option<usize>)
    requires
        from <= lim <= s.len(),
    ensures
        opt_int(r) == property_start(s@, from as int, lim as int),
        r matches Some(p) ==> from <= p <= lim,
{
    let close: Vec<char> = vec!['*', '/'];
    assert(close@ == comment_close());
    let mut a: usize = from;
    loop
        invariant
            from <= a <= lim <= s.len(),
            close@ == comment_close(),
            property_start(s@, from as int, lim as int) == property_start(
                s@,
                a as int,
                lim as int,
            ),
        decreases lim - a,
    {
        let p = skip_over(s, a, lim, Class::Blank);
        if p < lim && lim - p > 1 && s[p] == '/' && s[p + 1] == '*' {
            match find_from(s, &close, p + 2, lim) {
                Some(e) => {
                    a = e + 2;
                },
                None => {
                    return None;
                },
            }
        } else {
            return Some(p);
        }
    }
}

fn push_declaration_sites(s: &[char], from: usize, lim: usize, found: &mut Vec<ColorSite>)
    requires
        from <= lim <= s.len(),
        spaced(old(found)@, from as int),
    ensures
        sites(final(found)@) == sites(old(found)@) + declaration_sites(
            s@,
            from as int,
            lim as int,
        ),
        spaced(final(found)@, lim as int),
{
    proof {
        assert(sites(found@) + seq![] =~= sites(found@));
    }
    let p = match read_property_start(s, from, lim) {
        Some(p) => p,
        None => {
            return ;
        },
    };
    let colon = skip_over(s, p, lim, Class::Not(':'));
    if colon >= lim {
        return ;
    }
    let lowered = lower_chars(trimmed(slice_subrange(s, p, colon)));
    let property = string_of(&lowered);
    let background: bool = if same(property.as_str(), "color") {
        false
    } else if same(property.as_str(), "background-color") || same(
        property.as_str(),
        "background",
    ) {
        true
    } else {
        return ;
    };
    let important = chars_of("!important");
    let end: usize = match find_from_ci(s, &important, colon + 1, lim) {
        Some(k) => k,
        None => lim,
    };
    push_value_sites(s, colon + 1, end, background, found);
}

/// Records the candidates for a colour in a list of declarations. Data URLs
/// contain semicolons, and so may comments: neither ends a declaration there.
fn push_declarations_sites(s: &[char], from: usize, lim: usize, found: &mut Vec<ColorSite>)
    requires
        from <= lim <= s.len(),
        spaced(old(found)@, from as int),
    ensures
        sites(final(found)@) == sites(old(found)@) + declarations_sites(
            s@,
            from as int,
            lim as int,
        ),
        spaced(final(found)@, lim as int),
{
    let close: Vec<char> = vec!['*', '/'];
    assert(close@ == comment_close());
    let ghost had = sites(found@);
    let mut start: usize = from;
    let mut i: usize = from;
    let mut depth: usize = 0;
    let mut quote: Option<char> = None;
    while i < lim
        invariant
            from <= start <= i <= lim <= s.len(),
            depth <= i - from,
            close@ == comment_close(),
            spaced(found@, start as int),
            sites(found@) + list_sites(
                s@,
                start as int,
                i as int,
                lim as int,
                depth as nat,
                quote,
            ) == had + declarations_sites(s@, from as int, lim as int),
        decreases lim - i,
    {
        let c = s[i];
        match quote {
            Some(q) => {
                if c == q {
                    quote = None;
                }
                i = i + 1;
            },
            None => {
                if c == '/' && lim - i > 1 && s[i + 1] == '*' {
                    i = match find_from(s, &close, i + 2, lim) {
                        Some(e) => e + 2,
                        None => lim,
                    };
                } else {
                    if c == '"' || c == '\'' {
                        quote = Some(c);
                    } else if c == '(' {
                        depth = depth + 1;
                    } else if c == ')' {
                        if depth > 0 {
                            depth = depth - 1;
                        }
                    } else if c == ';' && depth == 0 {
                        let ghost now = sites(found@);
                        push_declaration_sites(s, start, i, found);
                        proof {
                            let here = declaration_sites(s@, start as int, i as int);
                            let rest = list_sites(
                                s@,
                                i + 1,
                                i + 1,
                                lim as int,
                                depth as nat,
                                quote,
                            );
                            assert((now + here) + rest =~= now + (here + rest));
                        }
                        start = i + 1;
                    }
                    i = i + 1;
                }
            },
        }
    }
    push_declaration_sites(s, start, lim, found);
}

// ----- Within a stylesheet -----

/// The candidates in a stylesheet from `i` on; `open` is where the last brace
/// opened, if none has closed since. What a brace holds that closes without
/// another one opening is a list of declarations; selectors, at-rules, comments
/// and strings hold no colour.
pub open spec fn sheet_sites(s: Seq<char>, i: int, lim: int, open: Option<int>) -> Seq<Site>
    decreases lim - i,
    when 0 <= i && lim <= s.len()
    via sheet_sites_ends
{
    if i >= lim {
        seq![]
    } else if s[i] == '{' {
        sheet_sites(s, i + 1, lim, Some(i + 1))
    } else if s[i] == '}' {
        match open {
            Some(a) => declarations_sites(s, a, i) + sheet_sites(s, i + 1, lim, None),
            None => sheet_sites(s, i + 1, lim, None),
        }
    } else {
        sheet_sites(s, piece_end(s, i, lim), lim, open)
    }
}

#[via_fn]
proof fn sheet_sites_ends(s: Seq<char>, i: int, lim: int, open: Option<int>) {
    if i < lim {
        crate::sheets::lemma_piece(s, i, lim);
    }
}

/// Records the candidates in the declarations of a stylesheet.
fn push_sheet_sites(s: &[char], from: usize, lim: usize, found: &mut Vec<ColorSite>)
    requires
        from <= lim <= s.len(),
        spaced(old(found)@, from as int),
    ensures
        sites(final(found)@) == sites(old(found)@) + sheet_sites(s@, from as int, lim as int, None),
        spaced(final(found)@, lim as int),
{
    let ghost want = sites(found@) + sheet_sites(s@, from as int, lim as int, None);
    let mut i: usize = from;
    let mut open: Option<usize> = None;
    while i < lim
        invariant
            from <= i <= lim <= s.len(),
            open matches Some(a) ==> a <= i,
            spaced(
                found@,
                match open {
                    Some(a) => a as int,
                    None => i as int,
                },
            ),
            sites(found@) + sheet_sites(s@, i as int, lim as int, opt_int(open)) == want,
        decreases lim - i,
    {
        let c = s[i];
        if c == '{' {
            open = Some(i + 1);
            i = i + 1;
        } else if c == '}' {
            if let Some(a) = open {
                let ghost had = sites(found@);
                push_declarations_sites(s, a, i, found);
                proof {
                    let here = declarations_sites(s@, a as int, i as int);
                    let rest = sheet_sites(s@, i + 1, lim as int, None);
                    assert((had + here) + rest =~= had + (here + rest));
                }
            }
            open = None;
            i = i + 1;
        } else {
            i = read_piece(s, i, lim);
        }
    }
    proof {
        assert(sites(found@) + seq![] =~= sites(found@));
    }
}

// ----- Within a tag -----

/// The attributes that carry a colour.
pub enum Bearer {
    Style,
    Color,
    Bgcolor,
}

/// The colour that an attribute of that name carries. `text` carries one on `<body>`
/// alone.
pub open spec fn bearer(name: Seq<char>, body: bool) -> Option<Bearer> {
    if name == "style"@ {
        Some(Bearer::Style)
    } else if name == "color"@ || (name == "text"@ && body) {
        Some(Bearer::Color)
    } else if name == "bgcolor"@ {
        Some(Bearer::Bgcolor)
    } else {
        None
    }
}

/// Where the colour in an attribute's value ends: with the value, and without quotes at a
/// slash too.
pub open spec fn color_end(s: Seq<char>, start: int, end: int) -> int {
    if start > 0 && (s[start - 1] == '"' || s[start - 1] == '\'') {
        end
    } else {
        skip(s, start, end, Class::Not('/'))
    }
}

/// The candidates in the attributes of a tag from `j` on; `body` tells whether it is the
/// body's. A value that merely holds such an attribute's text is none.
pub open spec fn tag_sites(s: Seq<char>, body: bool, j: int) -> Seq<Site>
    decreases s.len() - j,
    when 0 <= j
    via tag_sites_ends
{
    if j >= s.len() || s[j] == '>' {
        seq![]
    } else if is_space(s[j]) || s[j] == '/' {
        tag_sites(s, body, j + 1)
    } else {
        let a = attribute_at(s, j);
        let here = if a.valued {
            attribute_sites(s, bearer(lower_all(s.subrange(j, a.name_end)), body), a.start, a.end)
        } else {
            seq![]
        };
        here + tag_sites(s, body, a.next)
    }
}

/// The candidates in one attribute's value.
pub open spec fn attribute_sites(s: Seq<char>, b: Option<Bearer>, start: int, end: int) -> Seq<
    Site,
> {
    let stop = color_end(s, start, end);
    match b {
        None => seq![],
        Some(Bearer::Style) => declarations_sites(s, start, stop),
        Some(Bearer::Bgcolor) => seq![
            Site { start, end: stop, background: true, bare_hex: true },
        ],
        Some(Bearer::Color) => seq![
            Site { start, end: stop, background: false, bare_hex: true },
        ],
    }
}

#[via_fn]
proof fn tag_sites_ends(s: Seq<char>, body: bool, j: int) {
    if j < s.len() {
        lemma_attribute(s, j);
    }
}

fn push_attribute_sites(
    s: &[char],
    name: &str,
    body: bool,
    start: usize,
    end: usize,
    found: &mut Vec<ColorSite>,
)
    requires
        start <= end <= s.len(),
        spaced(old(found)@, start as int),
    ensures
        sites(final(found)@) == sites(old(found)@) + attribute_sites(
            s@,
            bearer(name@, body),
            start as int,
            end as int,
        ),
        spaced(final(found)@, end as int),
{
    let quoted = start > 0 && (s[start - 1] == '"' || s[start - 1] == '\'');
    proof {
        lemma_skip(s@, start as int, end as int, Class::Not('/'));
    }
    let stop: usize = if quoted {
        end
    } else {
        skip_over(s, start, end, Class::Not('/'))
    };
    if same(name, "style") {
        push_declarations_sites(s, start, stop, found);
    } else if same(name, "color") || (same(name, "text") && body) {
        let site = ColorSite { start, end: stop, background: false, bare_hex: true };
        push_site(found, site, Ghost(start as int));
    } else if same(name, "bgcolor") {
        let site = ColorSite { start, end: stop, background: true, bare_hex: true };
        push_site(found, site, Ghost(start as int));
    } else {
        proof {
            assert(sites(found@) + seq![] =~= sites(found@));
        }
    }
}

/// Records the candidates in one tag's colour-bearing attributes: `style`
/// (declarations), `color` and `text` (text), `bgcolor` (background). The result is where
/// the tag ends.
fn push_tag_sites(s: &[char], body: bool, from: usize, found: &mut Vec<ColorSite>) -> (r: usize)
    requires
        from <= s.len(),
        spaced(old(found)@, from as int),
    ensures
        r == tag_end(s@, from as int),
        from <= r <= s.len(),
        sites(final(found)@) == sites(old(found)@) + tag_sites(s@, body, from as int),
        spaced(final(found)@, r as int),
{
    let ghost want = sites(found@) + tag_sites(s@, body, from as int);
    let mut j: usize = from;
    while j < s.len() && s[j] != '>'
        invariant
            from <= j <= s.len(),
            tag_end(s@, j as int) == tag_end(s@, from as int),
            spaced(found@, j as int),
            sites(found@) + tag_sites(s@, body, j as int) == want,
        decreases s.len() - j,
    {
        if space(s[j]) || s[j] == '/' {
            j = j + 1;
        } else {
            let a = read_attribute(s, j);
            let ghost had = sites(found@);
            let ghost rest = tag_sites(s@, body, a.next as int);
            if a.valued {
                let lowered = lower_chars(slice_subrange(s, j, a.name_end));
                let name = string_of(&lowered);
                push_attribute_sites(s, name.as_str(), body, a.start, a.end, found);
                proof {
                    let here = attribute_sites(
                        s@,
                        bearer(name@, body),
                        a.start as int,
                        a.end as int,
                    );
                    assert((had + here) + rest =~= had + (here + rest));
                }
            } else {
                proof {
                    assert(had + (Seq::<Site>::empty() + rest) =~= had + rest);
                }
            }
            j = a.next;
        }
    }
    proof {
        assert(sites(found@) + seq![] =~= sites(found@));
    }
    j
}

// ----- The whole document -----

/// The candidates for a colour in the document from `i` on: in the declarations
/// of its `<style>` blocks and in the attributes of its other tags. Text, the text of
/// elements and comments hold none.
pub open spec fn document_sites(s: Seq<char>, i: int) -> Seq<Site>
    decreases s.len() - i,
    when 0 <= i
    via document_sites_ends
{
    let ns = name_start(s, i);
    let ne = skip(s, ns, s.len() as int, Class::TagName);
    let name = lower_all(s.subrange(ns, ne));
    let close = tag_end(s, ne);
    if i >= s.len() {
        seq![]
    } else if opens_declaration(s, i) {
        match declaration_end(s, i) {
            Some(e) => document_sites(s, e),
            None => seq![],
        }
    } else if s[i] != '<' || ne == ns {
        document_sites(s, i + 1)
    } else if name == "style"@ && ns == i + 1 {
        let start = body_start(s, close);
        let end = body_end(s, start);
        sheet_sites(s, start, end, None) + document_sites(s, end)
    } else {
        tag_sites(s, name == "body"@ && ns == i + 1, ne) + document_sites(
            s,
            behind_element(s, name, ns == i + 1, close, 0),
        )
    }
}

#[via_fn]
proof fn document_sites_ends(s: Seq<char>, i: int) {
    lemma_markup_step(s, i);
}

/// Where the document holds candidates for a colour, in order and without overlap.
pub fn color_sites(s: &[char]) -> (found: Vec<ColorSite>)
    ensures
        sites(found@) == document_sites(s@, 0),
        spaced(found@, s@.len() as int),
{
    let mut found: Vec<ColorSite> = Vec::new();
    let n = s.len();
    let mut i: usize = 0;
    proof {
        assert(sites(found@) + document_sites(s@, 0) =~= document_sites(s@, 0));
    }
    while i < n
        invariant
            i <= n,
            n == s.len(),
            spaced(found@, i as int),
            sites(found@) + document_sites(s@, i as int) == document_sites(s@, 0),
        decreases n - i,
    {
        proof {
            lemma_markup_step(s@, i as int);
        }
        if n - i > 1 && s[i] == '<' && (s[i + 1] == '!' || s[i + 1] == '?') {
            match read_declaration(s, i) {
                Some(e) => {
                    i = e;
                },
                None => {
                    proof {
                        assert(document_sites(s@, i as int) == Seq::<Site>::empty());
                        assert(sites(found@) + Seq::<Site>::empty() =~= sites(found@));
                    }
                    return found;
                },
            }
            continue ;
        }
        let closing = n - i > 1 && s[i + 1] == '/';
        let name_from: usize = if closing {
            i + 2
        } else {
            i + 1
        };
        let name_to = skip_over(s, name_from, n, Class::TagName);
        if s[i] != '<' || name_to == name_from {
            i = i + 1;
            continue ;
        }
        let lowered = lower_chars(slice_subrange(s, name_from, name_to));
        let tag = string_of(&lowered);
        let ghost had = sites(found@);
        if same(tag.as_str(), "style") && !closing {
            let close = read_tag_end(s, name_to);
            let start: usize = if close < n {
                close + 1
            } else {
                n
            };
            let end = find_body_end(s, start);
            push_sheet_sites(s, start, end, &mut found);
            proof {
                let here = sheet_sites(s@, start as int, end as int, None);
                let rest = document_sites(s@, end as int);
                assert((had + here) + rest =~= had + (here + rest));
            }
            i = end;
        } else {
            let body = same(tag.as_str(), "body") && !closing;
            let close = push_tag_sites(s, body, name_to, &mut found);
            let next = find_behind_element(s, tag.as_str(), !closing, close, false);
            proof {
                let here = tag_sites(s@, body, name_to as int);
                let rest = document_sites(s@, next as int);
                assert((had + here) + rest =~= had + (here + rest));
            }
            i = next;
        }
    }
    proof {
        assert(sites(found@) + seq![] =~= sites(found@));
    }
    found
}

// ----- Replacing them -----

/// What stands at the site with that number: the colour given for it, or, without
/// one, what stood there.
pub open spec fn color_at(
    s: Seq<char>,
    found: Seq<Site>,
    k: int,
    colors: Seq<Option<Seq<char>>>,
) -> Seq<char> {
    if k < colors.len() && colors[k] is Some {
        colors[k]->0
    } else {
        s.subrange(found[k].start, found[k].end)
    }
}

/// The document from `at` on, with the sites from the one with number `k` on
/// given their new colours.
pub open spec fn recolored(
    s: Seq<char>,
    at: int,
    found: Seq<Site>,
    k: int,
    colors: Seq<Option<Seq<char>>>,
) -> Seq<char>
    decreases found.len() - k,
{
    if k >= found.len() {
        s.subrange(at, s.len() as int)
    } else {
        s.subrange(at, found[k].start) + color_at(s, found, k, colors) + recolored(
            s,
            found[k].end,
            found,
            k + 1,
            colors,
        )
    }
}

/// The document with its candidates for a colour replaced by the colours given.
pub open spec fn adapted(doc: Seq<char>, colors: Seq<Option<Seq<char>>>) -> Seq<char> {
    recolored(doc, 0, document_sites(doc, 0), 0, colors)
}

pub open spec fn opt_texts(v: Seq<Option<String>>) -> Seq<Option<Seq<char>>> {
    v.map_values(|c: Option<String>| opt_text(c))
}

/// A candidate for a colour: its text, whether it colours a background, and
/// whether a hexadecimal colour may go without its `#`.
pub struct ColorToken {
    pub text: String,
    pub background: bool,
    pub bare_hex: bool,
}

/// Every candidate for a colour in the document, in order.
pub fn color_tokens(doc: &str) -> (out: Vec<ColorToken>)
    ensures
        out@.len() == document_sites(doc@, 0).len(),
        forall|k: int|
            0 <= k < out@.len() ==> {
                let site = document_sites(doc@, 0)[k];
                &&& (#[trigger] out@[k]).text@ == doc@.subrange(site.start, site.end)
                &&& out@[k].background == site.background
                &&& out@[k].bare_hex == site.bare_hex
            },
{
    let s = chars_of(doc);
    let found = color_sites(&s);
    let mut out: Vec<ColorToken> = Vec::new();
    let mut k: usize = 0;
    while k < found.len()
        invariant
            k <= found.len(),
            out@.len() == k,
            s@ == doc@,
            sites(found@) == document_sites(doc@, 0),
            spaced(found@, s@.len() as int),
            forall|j: int|
                0 <= j < k ==> {
                    let site = document_sites(doc@, 0)[j];
                    &&& (#[trigger] out@[j]).text@ == doc@.subrange(site.start, site.end)
                    &&& out@[j].background == site.background
                    &&& out@[j].bare_hex == site.bare_hex
                },
        decreases found.len() - k,
    {
        let site = found[k];
        proof {
            assert(sites(found@)[k as int] == site.site());
        }
        out.push(
            ColorToken {
                text: string_of(slice_subrange(&s, site.start, site.end)),
                background: site.background,
                bare_hex: site.bare_hex,
            },
        );
        k = k + 1;
    }
    out
}

proof fn lemma_no_colors(
    s: Seq<char>,
    at: int,
    found: Seq<ColorSite>,
    k: int,
    colors: Seq<Option<Seq<char>>>,
)
    requires
        spaced(found, s.len() as int),
        0 <= k <= found.len(),
        0 <= at <= s.len(),
        k < found.len() ==> at <= found[k].start,
        forall|j: int| 0 <= j < colors.len() ==> (#[trigger] colors[j]) is None,
    ensures
        recolored(s, at, sites(found), k, colors) == s.subrange(at, s.len() as int),
    decreases found.len() - k,
{
    let all = sites(found);
    if k < found.len() {
        assert(all[k] == found[k].site());
        if k + 1 < found.len() {
            assert(found[k].end <= found[k + 1].start);
        }
        lemma_no_colors(s, found[k].end as int, found, k + 1, colors);
        let a = found[k].start as int;
        let b = found[k].end as int;
        assert(color_at(s, all, k, colors) == s.subrange(a, b));
        assert(s.subrange(at, a) + s.subrange(a, b) + s.subrange(b, s.len() as int) =~= s.subrange(
            at,
            s.len() as int,
        ));
    }
}

/// The document with the candidates of [`color_tokens`] replaced: each by the
/// colour given for it, or, without one, by itself. Without any, it stays as it is.
pub fn adapt_colors(doc: &str, colors: &Vec<Option<String>>) -> (out: String)
    ensures
        out@ == adapted(doc@, opt_texts(colors@)),
        (forall|k: int| 0 <= k < colors@.len() ==> colors@[k] is None) ==> out@ == doc@,
{
    let s = chars_of(doc);
    let found = color_sites(&s);
    let mut out = String::new();
    let mut at: usize = 0;
    let mut k: usize = 0;
    let ghost all = sites(found@);
    let ghost new = opt_texts(colors@);
    proof {
        assert(out@ + adapted(doc@, new) =~= adapted(doc@, new));
        if forall|k: int| 0 <= k < colors@.len() ==> colors@[k] is None {
            assert forall|k: int| 0 <= k < new.len() implies #[trigger] new[k] is None by {
                assert(new[k] == opt_text(colors@[k]));
            }
            lemma_no_colors(s@, 0, found@, 0, new);
            assert(s@.subrange(0, s@.len() as int) =~= s@);
        }
    }
    while k < found.len()
        invariant
            k <= found.len(),
            s@ == doc@,
            all == sites(found@),
            new == opt_texts(colors@),
            spaced(found@, s@.len() as int),
            at <= s.len(),
            k < found.len() ==> at <= found@[k as int].start,
            out@ + recolored(s@, at as int, all, k as int, new) == adapted(doc@, new),
        decreases found.len() - k,
    {
        let site = found[k];
        let ghost had = out@;
        proof {
            assert(all[k as int] == site.site());
        }
        push_range(&mut out, &s, at, site.start);
        if k < colors.len() {
            proof {
                assert(new[k as int] == opt_text(colors@[k as int]));
            }
            match &colors[k] {
                Some(c) => {
                    out.append(c.as_str());
                },
                None => {
                    push_range(&mut out, &s, site.start, site.end);
                },
            }
        } else {
            push_range(&mut out, &s, site.start, site.end);
        }
        proof {
            let kept = s@.subrange(at as int, site.start as int);
            let color = color_at(s@, all, k as int, new);
            let tail = recolored(s@, site.end as int, all, k + 1, new);
            assert(((had + kept) + color) + tail =~= had + (kept + color + tail));
        }
        at = site.end;
        k = k + 1;
    }
    push_range(&mut out, &s, at, s.len());
    out
}

// ----- Reading one colour -----

/// A colour as it is written: its red, green, blue and opacity as bytes, or the
/// arguments of an `rgb()` or `rgba()`.
pub enum Form {
    Bytes(u8, u8, u8, u8),
    Channels(Seq<Seq<char>>),
}

/// A [`Form`], with its texts as strings.
pub enum ColorForm {
    Bytes(u8, u8, u8, u8),
    Channels(Vec<String>),
}

impl ColorForm {
    pub open spec fn form(self) -> Form {
        match self {
            ColorForm::Bytes(r, g, b, a) => Form::Bytes(r, g, b, a),
            ColorForm::Channels(v) => Form::Channels(texts(v@)),
        }
    }
}

/// The value of a hexadecimal digit.
pub open spec fn hex_value(c: char) -> Option<u8> {
    if '0' <= c && c <= '9' {
        Some((c as u8 - 48) as u8)
    } else if 'a' <= c && c <= 'f' {
        Some((c as u8 - 87) as u8)
    } else if 'A' <= c && c <= 'F' {
        Some((c as u8 - 55) as u8)
    } else {
        None
    }
}

/// A channel of one digit: the digit stands twice.
pub open spec fn short_channel(c: char) -> Option<u8> {
    match hex_value(c) {
        Some(v) => Some((v * 17) as u8),
        None => None,
    }
}

/// A channel of two digits.
pub open spec fn long_channel(c: char, d: char) -> Option<u8> {
    match (hex_value(c), hex_value(d)) {
        (Some(v), Some(w)) => Some((v * 16 + w) as u8),
        _ => None,
    }
}

/// The colour of four channels, if every one of them is there.
pub open spec fn of_channels(
    r: Option<u8>,
    g: Option<u8>,
    b: Option<u8>,
    a: Option<u8>,
) -> Option<Form> {
    match (r, g, b, a) {
        (Some(r), Some(g), Some(b), Some(a)) => Some(Form::Bytes(r, g, b, a)),
        _ => None,
    }
}

/// The colour of `rgb`, `rgba`, `rrggbb` or `rrggbbaa` in hexadecimal digits.
pub open spec fn hex_form(s: Seq<char>) -> Option<Form> {
    if s.len() == 3 {
        of_channels(short_channel(s[0]), short_channel(s[1]), short_channel(s[2]), Some(255))
    } else if s.len() == 4 {
        of_channels(
            short_channel(s[0]),
            short_channel(s[1]),
            short_channel(s[2]),
            short_channel(s[3]),
        )
    } else if s.len() == 6 {
        of_channels(
            long_channel(s[0], s[1]),
            long_channel(s[2], s[3]),
            long_channel(s[4], s[5]),
            Some(255),
        )
    } else if s.len() == 8 {
        of_channels(
            long_channel(s[0], s[1]),
            long_channel(s[2], s[3]),
            long_channel(s[4], s[5]),
            long_channel(s[6], s[7]),
        )
    } else {
        None
    }
}

/// The colours that have a name.
pub open spec fn named_form(name: Seq<char>) -> Option<Form> {
    if name == "black"@ {
        Some(Form::Bytes(0x00, 0x00, 0x00, 255))
    } else if name == "white"@ {
        Some(Form::Bytes(0xff, 0xff, 0xff, 255))
    } else if name == "gray"@ || name == "grey"@ {
        Some(Form::Bytes(0x80, 0x80, 0x80, 255))
    } else if name == "dimgray"@ || name == "dimgrey"@ {
        Some(Form::Bytes(0x69, 0x69, 0x69, 255))
    } else if name == "darkgray"@ || name == "darkgrey"@ {
        Some(Form::Bytes(0xa9, 0xa9, 0xa9, 255))
    } else if name == "lightgray"@ || name == "lightgrey"@ {
        Some(Form::Bytes(0xd3, 0xd3, 0xd3, 255))
    } else if name == "gainsboro"@ {
        Some(Form::Bytes(0xdc, 0xdc, 0xdc, 255))
    } else if name == "whitesmoke"@ {
        Some(Form::Bytes(0xf5, 0xf5, 0xf5, 255))
    } else if name == "silver"@ {
        Some(Form::Bytes(0xc0, 0xc0, 0xc0, 255))
    } else if name == "red"@ {
        Some(Form::Bytes(0xff, 0x00, 0x00, 255))
    } else if name == "darkred"@ || name == "maroon"@ {
        Some(Form::Bytes(0x80, 0x00, 0x00, 255))
    } else if name == "green"@ {
        Some(Form::Bytes(0x00, 0x80, 0x00, 255))
    } else if name == "darkgreen"@ {
        Some(Form::Bytes(0x00, 0x64, 0x00, 255))
    } else if name == "blue"@ {
        Some(Form::Bytes(0x00, 0x00, 0xff, 255))
    } else if name == "navy"@ || name == "darkblue"@ {
        Some(Form::Bytes(0x00, 0x00, 0x80, 255))
    } else if name == "midnightblue"@ {
        Some(Form::Bytes(0x19, 0x19, 0x70, 255))
    } else if name == "purple"@ {
        Some(Form::Bytes(0x80, 0x00, 0x80, 255))
    } else if name == "indigo"@ {
        Some(Form::Bytes(0x4b, 0x00, 0x82, 255))
    } else if name == "brown"@ {
        Some(Form::Bytes(0xa5, 0x2a, 0x2a, 255))
    } else if name == "orange"@ {
        Some(Form::Bytes(0xff, 0xa5, 0x00, 255))
    } else if name == "yellow"@ {
        Some(Form::Bytes(0xff, 0xff, 0x00, 255))
    } else if name == "teal"@ {
        Some(Form::Bytes(0x00, 0x80, 0x80, 255))
    } else if name == "olive"@ {
        Some(Form::Bytes(0x80, 0x80, 0x00, 255))
    } else {
        None
    }
}

/// The arguments of a colour function from `i` on: what stands between commas,
/// slashes and white space.
pub open spec fn arguments(s: Seq<char>, i: int) -> Seq<Seq<char>>
    decreases s.len() - i,
    when 0 <= i
    via arguments_ends
{
    let a = skip(s, i, s.len() as int, Class::ChannelSeparator);
    let b = skip(s, a, s.len() as int, Class::Channel);
    if a >= s.len() {
        seq![]
    } else {
        seq![s.subrange(a, b)] + arguments(s, b)
    }
}

#[via_fn]
proof fn arguments_ends(s: Seq<char>, i: int) {
    lemma_argument(s, i);
}

proof fn lemma_argument(s: Seq<char>, i: int)
    requires
        0 <= i,
    ensures
        ({
            let a = skip(s, i, s.len() as int, Class::ChannelSeparator);
            let b = skip(s, a, s.len() as int, Class::Channel);
            i <= a && (a < s.len() ==> a < b <= s.len())
        }),
{
    let n = s.len() as int;
    let a = skip(s, i, n, Class::ChannelSeparator);
    lemma_skip(s, i, n, Class::ChannelSeparator);
    lemma_skip(s, a, n, Class::Channel);
    lemma_skip(s, a + 1, n, Class::Channel);
}

/// The form of a colour: hexadecimal behind a `#`, an `rgb()` or `rgba()` of at
/// least three arguments, a name, or, where `bare_hex` allows it, six hexadecimal
/// digits. None if it is no colour.
pub open spec fn color_form(token: Seq<char>, bare_hex: bool) -> Option<Form> {
    let t = trim(token);
    let lowered = lower_all(t);
    let n = t.len() as int;
    let bracket = skip(t, 0, n, Class::Not('('));
    if n > 0 && t[0] == '#' {
        hex_form(t.subrange(1, n))
    } else if stands_in_ci(t, "rgb("@, 0, n) || stands_in_ci(t, "rgba("@, 0, n) {
        if bracket + 1 < n && t[n - 1] == ')' {
            let found = arguments(t.subrange(bracket + 1, n - 1), 0);
            if found.len() < 3 {
                None
            } else {
                Some(Form::Channels(found))
            }
        } else {
            None
        }
    } else if named_form(lowered) is Some {
        named_form(lowered)
    } else if bare_hex && n == 6 && skip(t, 0, n, Class::Hex) == n {
        hex_form(t)
    } else {
        None
    }
}

fn hex_digit(c: char) -> (r: Option<u8>)
    ensures
        r == hex_value(c),
        r matches Some(v) ==> v < 16,
{
    if '0' <= c && c <= '9' {
        Some(c as u8 - 48)
    } else if 'a' <= c && c <= 'f' {
        Some(c as u8 - 87)
    } else if 'A' <= c && c <= 'F' {
        Some(c as u8 - 55)
    } else {
        None
    }
}

fn read_short(c: char) -> (r: Option<u8>)
    ensures
        r == short_channel(c),
{
    match hex_digit(c) {
        Some(v) => Some(v * 17),
        None => None,
    }
}

pub(crate) fn read_long(c: char, d: char) -> (r: Option<u8>)
    ensures
        r == long_channel(c, d),
{
    match (hex_digit(c), hex_digit(d)) {
        (Some(v), Some(w)) => Some(v * 16 + w),
        _ => None,
    }
}

pub open spec fn opt_form(f: Option<ColorForm>) -> Option<Form> {
    match f {
        Some(f) => Some(f.form()),
        None => None,
    }
}

fn read_channels(r: Option<u8>, g: Option<u8>, b: Option<u8>, a: Option<u8>) -> (f: Option<
    ColorForm,
>)
    ensures
        opt_form(f) == of_channels(r, g, b, a),
{
    match (r, g, b, a) {
        (Some(r), Some(g), Some(b), Some(a)) => Some(ColorForm::Bytes(r, g, b, a)),
        _ => None,
    }
}

fn read_hex(s: &[char]) -> (f: Option<ColorForm>)
    ensures
        opt_form(f) == hex_form(s@),
{
    if s.len() == 3 {
        read_channels(read_short(s[0]), read_short(s[1]), read_short(s[2]), Some(255))
    } else if s.len() == 4 {
        read_channels(read_short(s[0]), read_short(s[1]), read_short(s[2]), read_short(s[3]))
    } else if s.len() == 6 {
        read_channels(
            read_long(s[0], s[1]),
            read_long(s[2], s[3]),
            read_long(s[4], s[5]),
            Some(255),
        )
    } else if s.len() == 8 {
        read_channels(
            read_long(s[0], s[1]),
            read_long(s[2], s[3]),
            read_long(s[4], s[5]),
            read_long(s[6], s[7]),
        )
    } else {
        None
    }
}

fn bytes(r: u8, g: u8, b: u8) -> (f: Option<ColorForm>)
    ensures
        opt_form(f) == Some(Form::Bytes(r, g, b, 255)),
{
    Some(ColorForm::Bytes(r, g, b, 255))
}

fn read_name(n: &str) -> (f: Option<ColorForm>)
    ensures
        opt_form(f) == named_form(n@),
{
    if same(n, "black") {
        bytes(0x00, 0x00, 0x00)
    } else if same(n, "white") {
        bytes(0xff, 0xff, 0xff)
    } else if same(n, "gray") || same(n, "grey") {
        bytes(0x80, 0x80, 0x80)
    } else if same(n, "dimgray") || same(n, "dimgrey") {
        bytes(0x69, 0x69, 0x69)
    } else if same(n, "darkgray") || same(n, "darkgrey") {
        bytes(0xa9, 0xa9, 0xa9)
    } else if same(n, "lightgray") || same(n, "lightgrey") {
        bytes(0xd3, 0xd3, 0xd3)
    } else if same(n, "gainsboro") {
        bytes(0xdc, 0xdc, 0xdc)
    } else if same(n, "whitesmoke") {
        bytes(0xf5, 0xf5, 0xf5)
    } else if same(n, "silver") {
        bytes(0xc0, 0xc0, 0xc0)
    } else if same(n, "red") {
        bytes(0xff, 0x00, 0x00)
    } else if same(n, "darkred") || same(n, "maroon") {
        bytes(0x80, 0x00, 0x00)
    } else if same(n, "green") {
        bytes(0x00, 0x80, 0x00)
    } else if same(n, "darkgreen") {
        bytes(0x00, 0x64, 0x00)
    } else if same(n, "blue") {
        bytes(0x00, 0x00, 0xff)
    } else if same(n, "navy") || same(n, "darkblue") {
        bytes(0x00, 0x00, 0x80)
    } else if same(n, "midnightblue") {
        bytes(0x19, 0x19, 0x70)
    } else if same(n, "purple") {
        bytes(0x80, 0x00, 0x80)
    } else if same(n, "indigo") {
        bytes(0x4b, 0x00, 0x82)
    } else if same(n, "brown") {
        bytes(0xa5, 0x2a, 0x2a)
    } else if same(n, "orange") {
        bytes(0xff, 0xa5, 0x00)
    } else if same(n, "yellow") {
        bytes(0xff, 0xff, 0x00)
    } else if same(n, "teal") {
        bytes(0x00, 0x80, 0x80)
    } else if same(n, "olive") {
        bytes(0x80, 0x80, 0x00)
    } else {
        None
    }
}

fn read_arguments(s: &[char]) -> (out: Vec<String>)
    ensures
        texts(out@) == arguments(s@, 0),
{
    let mut out: Vec<String> = Vec::new();
    let n = s.len();
    let mut i: usize = 0;
    proof {
        assert(texts(out@) + arguments(s@, 0) =~= arguments(s@, 0));
    }
    loop
        invariant
            i <= n,
            n == s.len(),
            texts(out@) + arguments(s@, i as int) == arguments(s@, 0),
        decreases n - i,
    {
        proof {
            lemma_argument(s@, i as int);
        }
        let a = skip_over(s, i, n, Class::ChannelSeparator);
        if a >= n {
            proof {
                assert(texts(out@) + seq![] =~= texts(out@));
            }
            return out;
        }
        let b = skip_over(s, a, n, Class::Channel);
        let ghost had = texts(out@);
        let word = string_of(slice_subrange(s, a, b));
        out.push(word);
        proof {
            let here = seq![s@.subrange(a as int, b as int)];
            assert(texts(out@) =~= had + here);
            let rest = arguments(s@, b as int);
            assert((had + here) + rest =~= had + (here + rest));
        }
        i = b;
    }
}

/// Reads a CSS colour: hexadecimal (`#rgb`, `#rgba`, `#rrggbb`, `#rrggbbaa`),
/// `rgb()` and `rgba()`, whose arguments are left as they are written, and the
/// common named colours. `bare_hex` also accepts legacy attribute values such as
/// `bgcolor=ffffff`, with no `#`.
pub fn parse_css_color(token: &str, bare_hex: bool) -> (f: Option<ColorForm>)
    ensures
        opt_form(f) == color_form(token@, bare_hex),
{
    let v = chars_of(token);
    let t = trimmed(&v);
    let n = t.len();
    if n > 0 && t[0] == '#' {
        return read_hex(slice_subrange(t, 1, n));
    }
    let rgb = chars_of("rgb(");
    let rgba = chars_of("rgba(");
    if matches_in_ci(t, &rgb, 0, n) || matches_in_ci(t, &rgba, 0, n) {
        let bracket = skip_over(t, 0, n, Class::Not('('));
        if bracket < n && n - bracket > 1 && t[n - 1] == ')' {
            let found = read_arguments(slice_subrange(t, bracket + 1, n - 1));
            if found.len() < 3 {
                return None;
            }
            return Some(ColorForm::Channels(found));
        }
        return None;
    }
    let lowered = lower_chars(t);
    let name = string_of(&lowered);
    let named = read_name(name.as_str());
    if named.is_some() {
        return named;
    }
    if bare_hex && n == 6 && skip_over(t, 0, n, Class::Hex) == n {
        return read_hex(t);
    }
    None
}

} // verus!
