//! The printed document: every message inlined into one page that flows across
//! sheets, instead of the reader's frames, which a print engine would clip.

use vstd::prelude::*;
use vstd::slice::slice_subrange;

use crate::escape::{content, escape_text};
use crate::frame::{head_meta, inject_csp, with_head};
use crate::markup::{
    find_sheet, lemma_next_sheet, lemma_tag, next_sheet, read_tag_end, tag_at, tag_end, tag_stands,
};
use crate::models::Message;
use crate::remote::name_start;
use crate::sheets::{gap_end, lemma_piece, piece_end, read_gap, read_piece};
use crate::text::{
    alnum, chars_of, copy_of, decimal, decimal_string, find, find_from, is_alnum, is_blank_text,
    lemma_skip, lemma_stands, lemma_tally_none, lemma_tally_parts, lemma_tally_some, lower,
    lower_all, matches_in_ci, push_range, same, skip, skip_over, stands_in_ci, string_of, tally,
    to_lower, trim, trimmed, Class,
};

verus! {

// ----- Inlining a document -----

/// Whether a tag that only gives a document its structure stands at `i`.
pub open spec fn structural(s: Seq<char>, i: int) -> bool {
    ||| stands_in_ci(s, "<!doctype"@, i, s.len() as int)
    ||| tag_stands(s, "<html"@, i)
    ||| tag_stands(s, "</html"@, i)
    ||| tag_stands(s, "<head"@, i)
    ||| tag_stands(s, "</head"@, i)
    ||| tag_stands(s, "<body"@, i)
    ||| tag_stands(s, "</body"@, i)
}

/// Where the structural tag that stands at `i` ends: at its `>`, which quoted values may
/// hold.
pub open spec fn structural_end(s: Seq<char>, i: int) -> int {
    let n = s.len() as int;
    if stands_in_ci(s, "<!doctype"@, i, n) {
        skip(s, i, n, Class::Not('>'))
    } else {
        tag_end(s, skip(s, name_start(s, i), n, Class::TagName))
    }
}

/// The document from `i` on without its structural tags. One that does not close is
/// none: it must not take the rest of the message with it.
pub open spec fn inlined(s: Seq<char>, i: int) -> Seq<char>
    decreases s.len() - i,
    when 0 <= i
    via inlined_ends
{
    let close = structural_end(s, i);
    if i >= s.len() {
        seq![]
    } else if structural(s, i) && close < s.len() {
        inlined(s, close + 1)
    } else {
        seq![s[i]] + inlined(s, i + 1)
    }
}

#[via_fn]
proof fn inlined_ends(s: Seq<char>, i: int) {
    lemma_structural_end(s, i);
}

pub proof fn lemma_structural_end(s: Seq<char>, i: int)
    requires
        0 <= i,
    ensures
        i <= structural_end(s, i),
        structural_end(s, i) < s.len() ==> s[structural_end(s, i)] == '>',
{
    let n = s.len() as int;
    lemma_skip(s, i, n, Class::Not('>'));
    let ne = skip(s, name_start(s, i), n, Class::TagName);
    lemma_skip(s, name_start(s, i), n, Class::TagName);
    if ne <= n {
        lemma_tag(s, ne);
    }
}

fn read_structural_end(s: &[char], i: usize, doctype: &[char]) -> (r: usize)
    requires
        i < s.len(),
        doctype@ == "<!doctype"@,
    ensures
        r == structural_end(s@, i as int),
        i <= r,
{
    proof {
        lemma_structural_end(s@, i as int);
    }
    let n = s.len();
    if matches_in_ci(s, doctype, i, n) {
        return skip_over(s, i, n, Class::Not('>'));
    }
    let name_from: usize = if n - i > 1 && s[i + 1] == '/' {
        i + 2
    } else {
        i + 1
    };
    read_tag_end(s, skip_over(s, name_from, n, Class::TagName))
}

/// Removes a document's structural tags and keeps everything inside them.
/// `<style>` and `<meta>` are kept: a message's own CSS is what makes it look like
/// itself on paper too.
pub fn inline_body(doc: &str) -> (out: String)
    ensures
        out@ == inlined(doc@, 0),
{
    let s = chars_of(doc);
    let doctype = chars_of("<!doctype");
    let html = chars_of("<html");
    let html_end = chars_of("</html");
    let head = chars_of("<head");
    let head_end = chars_of("</head");
    let body = chars_of("<body");
    let body_end = chars_of("</body");
    let mut out = String::new();
    let mut i: usize = 0;
    proof {
        assert(out@ + inlined(s@, 0) =~= inlined(s@, 0));
    }
    while i < s.len()
        invariant
            i <= s.len(),
            doctype@ == "<!doctype"@,
            html@ == "<html"@,
            html_end@ == "</html"@,
            head@ == "<head"@,
            head_end@ == "</head"@,
            body@ == "<body"@,
            body_end@ == "</body"@,
            s@ == doc@,
            out@ + inlined(s@, i as int) == inlined(s@, 0),
        decreases s.len() - i,
    {
        let structural_tag = s[i] == '<' && (matches_in_ci(&s, &doctype, i, s.len()) || tag_at(
            &s,
            &html,
            i,
        ) || tag_at(&s, &html_end, i) || tag_at(&s, &head, i) || tag_at(&s, &head_end, i) || tag_at(
            &s,
            &body,
            i,
        ) || tag_at(&s, &body_end, i));
        proof {
            lemma_opens(s@, i as int);
        }
        let close = read_structural_end(&s, i, &doctype);
        if structural_tag && close < s.len() {
            i = close + 1;
        } else {
            let ghost had = out@;
            out.push(s[i]);
            proof {
                let rest = inlined(s@, i + 1);
                assert(had.push(s@[i as int]) + rest =~= had + (seq![s@[i as int]] + rest));
            }
            i = i + 1;
        }
    }
    proof {
        assert(out@ + seq![] =~= out@);
    }
    out
}

/// Every structural tag begins with a `<`.
proof fn lemma_opens(s: Seq<char>, i: int)
    requires
        0 <= i < s.len(),
    ensures
        structural(s, i) ==> s[i] == '<',
{
    reveal_strlit("<!doctype");
    reveal_strlit("<html");
    reveal_strlit("</html");
    reveal_strlit("<head");
    reveal_strlit("</head");
    reveal_strlit("<body");
    reveal_strlit("</body");
    lemma_first_char(s, "<!doctype"@, i);
    lemma_first_char(s, "<html"@, i);
    lemma_first_char(s, "</html"@, i);
    lemma_first_char(s, "<head"@, i);
    lemma_first_char(s, "</head"@, i);
    lemma_first_char(s, "<body"@, i);
    lemma_first_char(s, "</body"@, i);
}

proof fn lemma_first_char(s: Seq<char>, p: Seq<char>, i: int)
    requires
        0 <= i < s.len(),
        p.len() > 0,
        p[0] == '<',
    ensures
        stands_in_ci(s, p, i, s.len() as int) ==> s[i] == '<',
{
    if stands_in_ci(s, p, i, s.len() as int) {
        assert(lower_all(s.subrange(i, i + p.len()))[0] == crate::text::lower(s[i]));
    }
}

// ----- Scoping a stylesheet -----

/// What may stand in front of a tag's name in a selector: anything that does not
/// make it part of another word, a class, an id or a number.
pub open spec fn breaks_before(c: char) -> bool {
    !(is_alnum(c) || c == '-' || c == '_' || c == '.' || c == '#' || c == '%')
}

/// What may stand behind it.
pub open spec fn breaks_after(c: char) -> bool {
    !(is_alnum(c) || c == '-' || c == '_')
}

/// Whether `html` or `body` stands at `i` as a tag's name.
pub open spec fn root_name(s: Seq<char>, i: int) -> bool {
    let n = s.len() as int;
    &&& stands_in_ci(s, "html"@, i, n) || stands_in_ci(s, "body"@, i, n)
    &&& i == 0 || breaks_before(s[i - 1])
    &&& i + 4 >= n || breaks_after(s[i + 4])
}

/// Whether what stands from `p` up to the brace at `i` is an at-rule, whose braces hold
/// further rules.
pub open spec fn at_rule(s: Seq<char>, p: int, i: int) -> bool {
    let lead = gap_end(s, p, i);
    lead < i && s[lead] == '@'
}

/// Whether the innermost open brace holds rules, or none is open: only rules have
/// selectors.
pub open spec fn among_rules(open: Seq<bool>) -> bool {
    open.len() == 0 || open.last()
}

/// Where the selectors of a stylesheet name the page. The sheet is read from `i` on,
/// outside of comments and strings; what stands behind the last brace or semicolon
/// begins at `p` and names the page at `names`. `open` tells of each open brace whether
/// it holds rules or declarations.
pub open spec fn page_names(s: Seq<char>, p: int, i: int, names: Seq<int>, open: Seq<bool>) -> Seq<
    int,
>
    decreases s.len() - i,
    when 0 <= i
    via page_names_ends
{
    if i >= s.len() {
        seq![]
    } else if s[i] == '{' {
        (if among_rules(open) {
            names
        } else {
            seq![]
        }) + page_names(s, i + 1, i + 1, seq![], open.push(at_rule(s, p, i)))
    } else if s[i] == '}' {
        page_names(s, i + 1, i + 1, seq![], closed(open))
    } else if s[i] == ';' && among_rules(open) {
        page_names(s, i + 1, i + 1, seq![], open)
    } else if root_name(s, i) {
        page_names(s, p, i + 4, names.push(i), open)
    } else {
        page_names(s, p, piece_end(s, i, s.len() as int), names, open)
    }
}

/// The open braces without the innermost one.
pub open spec fn closed(open: Seq<bool>) -> Seq<bool> {
    if open.len() > 0 {
        open.drop_last()
    } else {
        open
    }
}

#[via_fn]
proof fn page_names_ends(s: Seq<char>, p: int, i: int, names: Seq<int>, open: Seq<bool>) {
    if i < s.len() {
        lemma_piece(s, i, s.len() as int);
        if root_name(s, i) {
            lemma_root_letters(s, i);
        }
    }
}

/// Where the selectors of a stylesheet name the page.
pub open spec fn sheet_names(s: Seq<char>) -> Seq<int> {
    page_names(s, 0, 0, seq![], seq![])
}

/// The stylesheet from `at` on with the names replaced by the message's block.
pub open spec fn renamed(s: Seq<char>, at: int, names: Seq<int>, block: Seq<char>) -> Seq<char>
    decreases names.len(),
{
    if names.len() == 0 {
        s.subrange(at, s.len() as int)
    } else if names[0] < at {
        renamed(s, at, names.drop_first(), block)
    } else {
        s.subrange(at, names[0]) + block + renamed(s, names[0] + 4, names.drop_first(), block)
    }
}

/// The letters of which every name of the page begins with one.
pub open spec fn page_letters() -> Seq<char> {
    seq!['h', 'b']
}

/// The stylesheet with the page's names replaced by the message's block in all selectors,
/// until none is left. A block with a letter of those names is put in once.
pub open spec fn scoped_css(s: Seq<char>, block: Seq<char>) -> Seq<char>
    decreases tally(s, page_letters()),
    via scoped_css_ends
{
    let names = sheet_names(s);
    let next = renamed(s, 0, names, block);
    if names.len() == 0 {
        s
    } else if tally(block, page_letters()) > 0 {
        next
    } else {
        scoped_css(next, block)
    }
}

#[via_fn]
proof fn scoped_css_ends(s: Seq<char>, block: Seq<char>) {
    if sheet_names(s).len() > 0 && tally(block, page_letters()) == 0 {
        lemma_renaming_takes_letters(s, block);
    }
}

/// The letters of a name of the page.
proof fn lemma_root_letters(s: Seq<char>, i: int)
    requires
        0 <= i,
        root_name(s, i),
    ensures
        i + 4 <= s.len(),
        page_letters().contains(lower(s[i])),
{
    reveal_strlit("html");
    reveal_strlit("body");
    let n = s.len() as int;
    assert(page_letters()[0] == 'h' && page_letters()[1] == 'b');
    if stands_in_ci(s, "html"@, i, n) {
        lemma_stands(s, "html"@, i, 0);
    } else {
        lemma_stands(s, "body"@, i, 0);
    }
}

proof fn lemma_page_names(
    s: Seq<char>,
    p: int,
    i: int,
    names: Seq<int>,
    open: Seq<bool>,
    k: int,
)
    requires
        0 <= i,
        0 <= k < page_names(s, p, i, names, open).len(),
        forall|j: int| 0 <= j < names.len() ==> 0 <= #[trigger] names[j] && root_name(s, names[j]),
    ensures
        0 <= page_names(s, p, i, names, open)[k],
        root_name(s, page_names(s, p, i, names, open)[k]),
    decreases s.len() - i,
{
    if i < s.len() {
        lemma_piece(s, i, s.len() as int);
        if s[i] == '{' {
            let here = if among_rules(open) {
                names
            } else {
                seq![]
            };
            if k < here.len() {
                assert(page_names(s, p, i, names, open)[k] == names[k]);
            } else {
                lemma_page_names(
                    s,
                    i + 1,
                    i + 1,
                    seq![],
                    open.push(at_rule(s, p, i)),
                    k - here.len(),
                );
            }
        } else if s[i] == '}' {
            lemma_page_names(s, i + 1, i + 1, seq![], closed(open), k);
        } else if s[i] == ';' && among_rules(open) {
            lemma_page_names(s, i + 1, i + 1, seq![], open, k);
        } else if root_name(s, i) {
            lemma_root_letters(s, i);
            lemma_page_names(s, p, i + 4, names.push(i), open, k);
        } else {
            lemma_page_names(s, p, piece_end(s, i, s.len() as int), names, open, k);
        }
    }
}

proof fn lemma_renamed(s: Seq<char>, at: int, names: Seq<int>, block: Seq<char>)
    requires
        0 <= at <= s.len(),
        tally(block, page_letters()) == 0,
        forall|j: int| 0 <= j < names.len() ==> 0 <= #[trigger] names[j] && root_name(s, names[j]),
    ensures
        tally(renamed(s, at, names, block), page_letters()) <= tally(
            s.subrange(at, s.len() as int),
            page_letters(),
        ),
        names.len() > 0 && at <= names[0] ==> tally(renamed(s, at, names, block), page_letters())
            < tally(s.subrange(at, s.len() as int), page_letters()),
    decreases names.len(),
{
    let n = s.len() as int;
    let ls = page_letters();
    if names.len() > 0 {
        let rest = names.drop_first();
        let r = names[0];
        assert(forall|j: int| 0 <= j < rest.len() ==> #[trigger] rest[j] == names[j + 1]);
        lemma_root_letters(s, r);
        if r < at {
            lemma_renamed(s, at, rest, block);
        } else {
            lemma_renamed(s, r + 4, rest, block);
            let lead = s.subrange(at, r);
            let word = s.subrange(r, r + 4);
            let tail = s.subrange(r + 4, n);
            assert(s.subrange(at, n) =~= lead + word + tail);
            lemma_tally_parts(lead + word, tail, ls);
            lemma_tally_parts(lead, word, ls);
            lemma_tally_parts(lead + block, renamed(s, r + 4, rest, block), ls);
            lemma_tally_parts(lead, block, ls);
            assert(word[0] == s[r]);
            lemma_tally_some(word, ls, 0);
        }
    }
}

/// With every name that is replaced a sheet loses letters.
pub proof fn lemma_renaming_takes_letters(s: Seq<char>, block: Seq<char>)
    requires
        sheet_names(s).len() > 0,
        tally(block, page_letters()) == 0,
    ensures
        tally(renamed(s, 0, sheet_names(s), block), page_letters()) < tally(s, page_letters()),
{
    let names = sheet_names(s);
    assert forall|j: int| 0 <= j < names.len() implies 0 <= #[trigger] names[j] && root_name(
        s,
        names[j],
    ) by {
        lemma_page_names(s, 0, 0, seq![], seq![], j);
    }
    assert(0 <= names[0]);
    lemma_renamed(s, 0, names, block);
    assert(s.subrange(0, s.len() as int) =~= s);
}

fn root_at(s: &[char], i: usize) -> (r: bool)
    requires
        i < s.len(),
    ensures
        r == root_name(s@, i as int),
{
    let n = s.len();
    proof {
        reveal_strlit("html");
        reveal_strlit("body");
    }
    let html = chars_of("html");
    let body = chars_of("body");
    let word = matches_in_ci(s, &html, i, n) || matches_in_ci(s, &body, i, n);
    let before = i == 0 || !(alnum(s[i - 1]) || s[i - 1] == '-' || s[i - 1] == '_' || s[i - 1]
        == '.' || s[i - 1] == '#' || s[i - 1] == '%');
    let after = n - i <= 4 || !(alnum(s[i + 4]) || s[i + 4] == '-' || s[i + 4] == '_');
    word && before && after
}

pub open spec fn positions(v: Seq<usize>) -> Seq<int> {
    v.map_values(|i: usize| i as int)
}

/// Finds where the selectors of a stylesheet name the page.
pub fn find_page_names(s: &[char]) -> (found: Vec<usize>)
    ensures
        positions(found@) == sheet_names(s@),
{
    let n = s.len();
    let mut found: Vec<usize> = Vec::new();
    let mut names: Vec<usize> = Vec::new();
    let mut open: Vec<bool> = Vec::new();
    let mut p: usize = 0;
    let mut i: usize = 0;
    let ghost want = sheet_names(s@);
    proof {
        assert(positions(names@) =~= seq![]);
        assert(open@ =~= seq![]);
        assert(positions(found@) + want =~= want);
    }
    while i < n
        invariant
            p <= i <= n,
            n == s.len(),
            positions(found@) + page_names(s@, p as int, i as int, positions(names@), open@) == want,
        decreases n - i,
    {
        let rules = open.len() == 0 || open[open.len() - 1];
        let c = s[i];
        if c == '{' {
            let ghost had = positions(found@);
            let ghost here = if rules {
                positions(names@)
            } else {
                seq![]
            };
            let lead = read_gap(s, p, i);
            let holds_rules = lead < i && s[lead] == '@';
            if rules {
                found.append(&mut names);
            }
            names = Vec::new();
            proof {
                let rest = page_names(s@, i + 1, i + 1, seq![], open@.push(holds_rules));
                assert(positions(found@) =~= had + here);
                assert((had + here) + rest =~= had + (here + rest));
                assert(positions(names@) =~= seq![]);
            }
            open.push(holds_rules);
            i = i + 1;
            p = i;
        } else if c == '}' {
            let ghost had_open = open@;
            let _ = open.pop();
            names = Vec::new();
            proof {
                assert(open@ =~= closed(had_open));
                assert(positions(names@) =~= seq![]);
            }
            i = i + 1;
            p = i;
        } else if c == ';' && rules {
            names = Vec::new();
            proof {
                assert(positions(names@) =~= seq![]);
            }
            i = i + 1;
            p = i;
        } else if root_at(s, i) {
            proof {
                lemma_root_letters(s@, i as int);
            }
            let ghost had = positions(names@);
            names.push(i);
            proof {
                assert(positions(names@) =~= had.push(i as int));
            }
            i = i + 4;
        } else {
            i = read_piece(s, i, n);
        }
    }
    proof {
        assert(positions(found@) + seq![] =~= positions(found@));
    }
    found
}

fn rename(s: &[char], names: &Vec<usize>, block: &str) -> (out: String)
    requires
        positions(names@) == sheet_names(s@),
    ensures
        out@ == renamed(s@, 0, sheet_names(s@), block@),
{
    let mut out = String::new();
    let mut at: usize = 0;
    let mut k: usize = 0;
    let ghost all = sheet_names(s@);
    let ghost want = renamed(s@, 0, all, block@);
    proof {
        assert forall|j: int| 0 <= j < all.len() implies 0 <= #[trigger] all[j] && root_name(
            s@,
            all[j],
        ) by {
            lemma_page_names(s@, 0, 0, seq![], seq![], j);
        }
        assert(all.skip(0) =~= all);
        assert(out@ + want =~= want);
    }
    while k < names.len()
        invariant
            k <= names.len(),
            at <= s.len(),
            all == positions(names@),
            forall|j: int| 0 <= j < all.len() ==> 0 <= #[trigger] all[j] && root_name(s@, all[j]),
            out@ + renamed(s@, at as int, all.skip(k as int), block@) == want,
        decreases names.len() - k,
    {
        let r = names[k];
        proof {
            assert(all[k as int] == r as int);
            lemma_root_letters(s@, r as int);
            assert(all.skip(k as int)[0] == all[k as int]);
            assert(all.skip(k as int).drop_first() =~= all.skip(k + 1));
        }
        if r >= at {
            let ghost had = out@;
            push_range(&mut out, s, at, r);
            out.append(block);
            proof {
                let kept = s@.subrange(at as int, r as int);
                let tail = renamed(s@, r + 4, all.skip(k + 1), block@);
                assert(((had + kept) + block@) + tail =~= had + (kept + block@ + tail));
            }
            at = r + 4;
        }
        k = k + 1;
    }
    proof {
        assert(all.skip(k as int).len() == 0);
    }
    push_range(&mut out, s, at, s.len());
    out
}

/// Whether the block has a letter of the page's names.
fn has_page_letter(block: &str) -> (r: bool)
    ensures
        r == (tally(block@, page_letters()) > 0),
{
    let v = chars_of(block);
    let mut i: usize = 0;
    proof {
        assert(page_letters()[0] == 'h' && page_letters()[1] == 'b');
    }
    while i < v.len()
        invariant
            i <= v.len(),
            v@ == block@,
            page_letters()[0] == 'h' && page_letters()[1] == 'b',
            forall|k: int| 0 <= k < i ==> !page_letters().contains(lower(#[trigger] v@[k])),
        decreases v.len() - i,
    {
        let c = to_lower(v[i]);
        if c == 'h' || c == 'b' {
            proof {
                lemma_tally_some(v@, page_letters(), i as int);
            }
            return true;
        }
        i = i + 1;
    }
    proof {
        lemma_tally_none(v@, page_letters());
    }
    false
}

/// Rewrites `html` and `body` in every selector of a stylesheet.
pub fn scope_css(s: &[char], block: &str) -> (out: String)
    ensures
        out@ == scoped_css(s@, block@),
{
    let once = has_page_letter(block);
    let mut out = string_of(s);
    loop
        invariant
            scoped_css(out@, block@) == scoped_css(s@, block@),
            once == (tally(block@, page_letters()) > 0),
        decreases tally(out@, page_letters()),
    {
        let v = chars_of(out.as_str());
        let names = find_page_names(&v);
        proof {
            assert(positions(names@).len() == names@.len());
        }
        if names.len() == 0 {
            return out;
        }
        let next = rename(&v, &names, block);
        if once {
            return next;
        }
        proof {
            lemma_renaming_takes_letters(v@, block@);
        }
        out = next;
    }
}

/// The document from `i` on with the selectors of its stylesheets scoped.
pub open spec fn scoped(s: Seq<char>, i: int, block: Seq<char>) -> Seq<char>
    decreases s.len() - i,
    when 0 <= i <= s.len()
    via scoped_ends
{
    match next_sheet(s, i) {
        None => s.subrange(i, s.len() as int),
        Some((start, end)) => s.subrange(i, start) + scoped_css(s.subrange(start, end), block)
            + scoped(s, end, block),
    }
}

#[via_fn]
proof fn scoped_ends(s: Seq<char>, i: int, block: Seq<char>) {
    lemma_next_sheet(s, i);
}

/// Points a message's own `html` and `body` rules at the block that it prints in,
/// so that one sender's rules do not restyle the whole printout.
pub fn scope_styles(doc: &str, block: &str) -> (out: String)
    ensures
        out@ == scoped(doc@, 0, block@),
{
    let s = chars_of(doc);
    let n = s.len();
    let mut out = String::new();
    let mut i: usize = 0;
    proof {
        assert(out@ + scoped(s@, 0, block@) =~= scoped(s@, 0, block@));
    }
    loop
        invariant
            i <= n,
            n == s.len(),
            s@ == doc@,
            out@ + scoped(s@, i as int, block@) == scoped(s@, 0, block@),
        decreases n - i,
    {
        match find_sheet(&s, i) {
            None => {
                push_range(&mut out, &s, i, n);
                return out;
            },
            Some((start, end)) => {
                let ghost had = out@;
                push_range(&mut out, &s, i, start);
                let css = scope_css(slice_subrange(&s, start, end), block);
                out.append(css.as_str());
                proof {
                    let kept = s@.subrange(i as int, start as int);
                    let rest = scoped(s@, end as int, block@);
                    assert(((had + kept) + css@) + rest =~= had + (kept + css@ + rest));
                }
                i = end;
            },
        }
    }
}

// ----- The page -----

/// Rules for the printed document: long URLs wrap instead of running off the
/// sheet, images shrink to the page, and each message after the first starts a new one.
pub const PRINT_DOCUMENT_STYLES: &'static str = "html,body{background:#fff;color:#000;margin:0;padding:0;}body{font:11pt/1.5 system-ui,sans-serif;overflow-wrap:anywhere;}img,table,pre{max-width:100% !important;}img{height:auto !important;}pre{white-space:pre-wrap;}.vireo-print-msg + .vireo-print-msg{break-before:page;border-top:1pt solid #999;margin-top:12pt;padding-top:12pt;}.vireo-print-msghdr{font:bold 10pt/1.45 system-ui,sans-serif;color:#000;margin:0 0 8pt;}.vireo-print-hdr{display:block;padding:0 0 10pt;margin:0 0 12pt;border-bottom:1pt solid #999;font:10pt/1.45 system-ui,sans-serif;color:#000;}.vireo-print-subject{font-size:14pt;font-weight:700;margin:0 0 8pt;}.vireo-print-row{margin:0 0 2pt;}.vireo-print-label{font-weight:700;}";

/// The class that names a message's block in the printed document.
pub open spec fn block_class(n: nat) -> Seq<char> {
    "vireo-print-m"@ + decimal(n)
}

/// The class naming the `n`th message's block in the printed document.
pub fn print_block_class(n: usize) -> (out: String)
    ensures
        out@ == block_class(n as nat),
{
    let mut out = copy_of("vireo-print-m");
    out.append(decimal_string(n as u64).as_str());
    out
}

/// A message to print: its own header, if it has one, and its document.
pub struct PrintedMessage {
    pub head: String,
    pub doc: String,
}

/// One message in its block.
pub open spec fn article(n: nat, head: Seq<char>, doc: Seq<char>) -> Seq<char> {
    "<article class=\"vireo-print-msg "@ + block_class(n) + "\">"@ + head + scoped(
        inlined(doc, 0),
        0,
        "."@ + block_class(n),
    ) + "</article>"@
}

/// The first `n` messages, each in its block.
pub open spec fn articles(messages: Seq<PrintedMessage>, n: nat) -> Seq<char>
    decreases n,
{
    if n == 0 {
        seq![]
    } else {
        let m = messages[n - 1];
        articles(messages, (n - 1) as nat) + article((n - 1) as nat, m.head@, m.doc@)
    }
}

/// The printed page around its body.
pub open spec fn printed_page(body: Seq<char>, allow_remote: bool) -> Seq<char> {
    with_head(
        "<!doctype html><html><head><meta charset=\"utf-8\"><style>"@
        + PRINT_DOCUMENT_STYLES@
        + "</style></head><body>"@
        + body
        + "</body></html>"@,
        head_meta(allow_remote, false),
    )
}

/// Assembles the printed page: the header, and every message inlined into it. The
/// same content policy holds as in the reader's frames: no scripts, and remote
/// content only when the sender is trusted.
pub fn print_document(header: &str, messages: &Vec<PrintedMessage>, allow_remote: bool) -> (out:
    String)
    ensures
        out@ == printed_page(
            header@ + articles(messages@, messages@.len()),
            allow_remote,
        ),
{
    let mut body = copy_of(header);
    let mut n: usize = 0;
    proof {
        assert(header@ + seq![] =~= header@);
    }
    while n < messages.len()
        invariant
            n <= messages.len(),
            body@ == header@ + articles(messages@, n as nat),
        decreases messages.len() - n,
    {
        let block = print_block_class(n);
        let mut scope = copy_of(".");
        scope.append(block.as_str());
        let mut one = copy_of("<article class=\"vireo-print-msg ");
        one.append(block.as_str());
        one.append("\">");
        one.append(messages[n].head.as_str());
        let inline = inline_body(messages[n].doc.as_str());
        one.append(scope_styles(inline.as_str(), scope.as_str()).as_str());
        one.append("</article>");
        body.append(one.as_str());
        proof {
            assert((header@ + articles(messages@, n as nat)) + one@ =~= header@ + (articles(
                messages@,
                n as nat,
            ) + one@));
        }
        n = n + 1;
    }
    let mut out = copy_of("<!doctype html><html><head><meta charset=\"utf-8\"><style>");
    out.append(PRINT_DOCUMENT_STYLES);
    out.append("</style></head><body>");
    out.append(body.as_str());
    out.append("</body></html>");
    inject_csp(out.as_str(), allow_remote, false)
}

/// Who sent one message of a printed conversation.
pub open spec fn sender_line(m: &Message) -> Seq<char> {
    if m.from_addr@.len() == 0 {
        content(m.from_name@)
    } else if trim(m.from_name@).len() == 0 {
        content(m.from_addr@)
    } else {
        content(m.from_name@) + " &lt;"@ + content(m.from_addr@) + "&gt;"@
    }
}

/// The header of one message of a printed conversation.
pub open spec fn message_header(m: &Message, date: Seq<char>) -> Seq<char> {
    "<div class=\"vireo-print-msghdr\">"@ + sender_line(m) + " — "@ + content(date) + "</div>"@
}

/// Who sent one message of a printed conversation, and when.
pub fn print_message_header_html(m: &Message, date: &str) -> (out: String)
    ensures
        out@ == message_header(m, date@),
{
    let name = chars_of(m.from_name.as_str());
    let from: String = if m.from_addr.as_str().is_empty() {
        escape_text(m.from_name.as_str())
    } else if trimmed(&name).len() == 0 {
        escape_text(m.from_addr.as_str())
    } else {
        let mut t = escape_text(m.from_name.as_str());
        t.append(" &lt;");
        t.append(escape_text(m.from_addr.as_str()).as_str());
        t.append("&gt;");
        t
    };
    let mut out = copy_of("<div class=\"vireo-print-msghdr\">");
    out.append(from.as_str());
    out.append(" — ");
    out.append(escape_text(date).as_str());
    out.append("</div>");
    out
}

/// One line of the printed header, nothing where it has no value.
pub open spec fn header_row(label: Seq<char>, value: Seq<char>) -> Seq<char> {
    if trim(value).len() == 0 {
        seq![]
    } else {
        "<div class=\"vireo-print-row\"><span class=\"vireo-print-label\">"@ + content(label)
            + "</span> "@ + content(value) + "</div>"@
    }
}

/// The sender as the printed header names them.
pub open spec fn header_from(m: &Message) -> Seq<char> {
    if trim(m.from_addr@).len() == 0 {
        m.from_name@
    } else if trim(m.from_name@).len() == 0 || m.from_name@ == m.from_addr@ {
        m.from_addr@
    } else {
        m.from_name@ + " <"@ + m.from_addr@ + ">"@
    }
}

/// The header block that only appears on paper: subject, sender, recipients and date.
pub open spec fn printed_header(m: &Message, date: Seq<char>) -> Seq<char> {
    let subject = if trim(m.subject@).len() == 0 {
        "(no subject)"@
    } else {
        m.subject@
    };
    "<div class=\"vireo-print-hdr\"><div class=\"vireo-print-subject\">"@ + content(subject)
        + "</div>"@ + header_row("From:"@, header_from(m)) + header_row("To:"@, m.to@) + header_row(
        "Cc:"@,
        m.cc@,
    ) + header_row("Date:"@, date) + "</div>"@
}

fn header_row_html(label: &str, value: &str) -> (out: String)
    ensures
        out@ == header_row(label@, value@),
{
    if is_blank_text(value) {
        return String::new();
    }
    let mut out = copy_of(
        "<div class=\"vireo-print-row\"><span class=\"vireo-print-label\">",
    );
    out.append(escape_text(label).as_str());
    out.append("</span> ");
    out.append(escape_text(value).as_str());
    out.append("</div>");
    out
}

/// The header block that only appears on paper, nothing without a message. On
/// screen these facts are in the pane above the message, which is not part of the
/// document.
pub fn print_header_html(message: Option<&Message>, date: &str) -> (out: String)
    ensures
        out@ == (match message {
            Some(m) => printed_header(m, date@),
            None => seq![],
        }),
{
    let m = match message {
        Some(m) => m,
        None => {
            return String::new();
        },
    };
    let from: String = if is_blank_text(m.from_addr.as_str()) {
        copy_of(m.from_name.as_str())
    } else if is_blank_text(m.from_name.as_str()) || same(
        m.from_name.as_str(),
        m.from_addr.as_str(),
    ) {
        copy_of(m.from_addr.as_str())
    } else {
        let mut t = copy_of(m.from_name.as_str());
        t.append(" <");
        t.append(m.from_addr.as_str());
        t.append(">");
        t
    };
    let subject: String = if is_blank_text(m.subject.as_str()) {
        copy_of("(no subject)")
    } else {
        copy_of(m.subject.as_str())
    };
    let mut out = copy_of(
        "<div class=\"vireo-print-hdr\"><div class=\"vireo-print-subject\">",
    );
    out.append(escape_text(subject.as_str()).as_str());
    out.append("</div>");
    out.append(header_row_html("From:", from.as_str()).as_str());
    out.append(header_row_html("To:", m.to.as_str()).as_str());
    out.append(header_row_html("Cc:", m.cc.as_str()).as_str());
    out.append(header_row_html("Date:", date).as_str());
    out.append("</div>");
    out
}

// ----- The preview -----

/// The text with the first occurrence of the pattern replaced.
pub open spec fn replaced_once(s: Seq<char>, p: Seq<char>, with: Seq<char>) -> Seq<char> {
    match find(s, p, 0, s.len() as int) {
        Some(k) => s.subrange(0, k) + with + s.subrange(k + p.len(), s.len() as int),
        None => s,
    }
}

pub fn replace_once(s: &str, p: &str, with: &str) -> (out: String)
    ensures
        out@ == replaced_once(s@, p@, with@),
{
    let v = chars_of(s);
    let pattern = chars_of(p);
    match find_from(&v, &pattern, 0, v.len()) {
        Some(k) => {
            let mut out = string_of(slice_subrange(&v, 0, k));
            out.append(with);
            push_range(&mut out, &v, k + pattern.len(), v.len());
            out
        },
        None => copy_of(s),
    }
}

/// The printed document dressed as a page: the preview's styles in its head, and
/// its content in the sheet that they draw.
pub open spec fn previewed(doc: Seq<char>, styles: Seq<char>) -> Seq<char> {
    let head = replaced_once(doc, "</head>"@, "<style>"@ + styles + "</style></head>"@);
    let sheet = replaced_once(head, "<body>"@, "<body><div class=\"vireo-print-sheet\">"@);
    replaced_once(sheet, "</body>"@, "</div></body>"@)
}

/// The printed document, dressed as a page for the preview window.
pub fn preview_html(doc: &str, styles: &str) -> (out: String)
    ensures
        out@ == previewed(doc@, styles@),
{
    let mut extra = copy_of("<style>");
    extra.append(styles);
    extra.append("</style></head>");
    let head = replace_once(doc, "</head>", extra.as_str());
    let sheet = replace_once(
        head.as_str(),
        "<body>",
        "<body><div class=\"vireo-print-sheet\">",
    );
    replace_once(sheet.as_str(), "</body>", "</div></body>")
}

} // verus!
