//! Text made safe for the place it is put in: HTML content, a quoted HTML
//! attribute, a file name.

use vstd::prelude::*;

use crate::text::{
    chars_of, control, copy_of, is_blank, is_control, lemma_skip, lemma_tail_start, skip, skip_over,
    string_of, trim, trim_end, trim_start, trimmed, trimmed_end, Class,
};
use vstd::slice::slice_subrange;

verus! {

/// What a character becomes in HTML content.
pub open spec fn content_char(c: char) -> Seq<char> {
    if c == '&' {
        "&amp;"@
    } else if c == '<' {
        "&lt;"@
    } else if c == '>' {
        "&gt;"@
    } else {
        seq![c]
    }
}

/// A text as HTML content.
pub open spec fn content(s: Seq<char>) -> Seq<char>
    decreases s.len(),
{
    if s.len() == 0 {
        seq![]
    } else {
        content_char(s[0]) + content(s.drop_first())
    }
}

/// What a character becomes inside a double-quoted attribute.
pub open spec fn quoted_char(c: char) -> Seq<char> {
    if c == '&' {
        "&amp;"@
    } else if c == '"' {
        "&quot;"@
    } else {
        seq![c]
    }
}

/// A text as the value of a double-quoted attribute.
pub open spec fn quoted(s: Seq<char>) -> Seq<char>
    decreases s.len(),
{
    if s.len() == 0 {
        seq![]
    } else {
        quoted_char(s[0]) + quoted(s.drop_first())
    }
}

/// Escapes text for HTML content: a subject or an address that contains `<` must
/// not become a tag.
pub fn escape_text(s: &str) -> (out: String)
    ensures
        out@ == content(s@),
{
    let v = chars_of(s);
    let mut out = String::new();
    let mut i: usize = 0;
    proof {
        assert(v@.skip(0) =~= v@);
        assert(out@ + content(v@) =~= content(v@));
    }
    while i < v.len()
        invariant
            i <= v.len(),
            out@ + content(v@.skip(i as int)) == content(v@),
        decreases v.len() - i,
    {
        let c = v[i];
        let ghost had = out@;
        if c == '&' {
            out.append("&amp;");
        } else if c == '<' {
            out.append("&lt;");
        } else if c == '>' {
            out.append("&gt;");
        } else {
            out.push(c);
        }
        proof {
            let rest = v@.skip(i as int);
            assert(rest.drop_first() =~= v@.skip(i as int + 1));
            assert(had + seq![c] =~= had.push(c));
            assert((had + content_char(c)) + content(rest.drop_first()) =~= had + (content_char(c) + content(
                rest.drop_first(),
            )));
        }
        i = i + 1;
    }
    out
}

/// Escapes a string for use inside a double-quoted HTML attribute value (such as
/// `srcdoc`), and nothing else. `<` and `>` are ordinary characters there, so it
/// is not safe for element content: use [`escape_text`] for that.
pub fn attr_escape(s: &str) -> (out: String)
    ensures
        out@ == quoted(s@),
{
    let v = chars_of(s);
    let mut out = String::new();
    let mut i: usize = 0;
    proof {
        assert(v@.skip(0) =~= v@);
        assert(out@ + quoted(v@) =~= quoted(v@));
    }
    while i < v.len()
        invariant
            i <= v.len(),
            out@ + quoted(v@.skip(i as int)) == quoted(v@),
        decreases v.len() - i,
    {
        let c = v[i];
        let ghost had = out@;
        if c == '&' {
            out.append("&amp;");
        } else if c == '"' {
            out.append("&quot;");
        } else {
            out.push(c);
        }
        proof {
            let rest = v@.skip(i as int);
            assert(rest.drop_first() =~= v@.skip(i as int + 1));
            assert(had + seq![c] =~= had.push(c));
            assert((had + quoted_char(c)) + quoted(rest.drop_first()) =~= had + (quoted_char(c) + quoted(
                rest.drop_first(),
            )));
        }
        i = i + 1;
    }
    out
}

/// What a character becomes in markup that goes into an attribute and into content
/// alike.
pub open spec fn markup_char(c: char) -> Seq<char> {
    if c == '"' {
        "&quot;"@
    } else {
        content_char(c)
    }
}

/// A text as markup for an attribute and for content alike.
pub open spec fn markup(s: Seq<char>) -> Seq<char>
    decreases s.len(),
{
    if s.len() == 0 {
        seq![]
    } else {
        markup_char(s[0]) + markup(s.drop_first())
    }
}

/// Escapes text for an attribute and for content alike: a sender's address must
/// neither close the attribute that it stands in nor open a tag.
pub fn escape_markup(s: &str) -> (out: String)
    ensures
        out@ == markup(s@),
{
    let v = chars_of(s);
    let mut out = String::new();
    let mut i: usize = 0;
    proof {
        assert(v@.skip(0) =~= v@);
        assert(out@ + markup(v@) =~= markup(v@));
    }
    while i < v.len()
        invariant
            i <= v.len(),
            out@ + markup(v@.skip(i as int)) == markup(v@),
        decreases v.len() - i,
    {
        let c = v[i];
        let ghost had = out@;
        if c == '&' {
            out.append("&amp;");
        } else if c == '<' {
            out.append("&lt;");
        } else if c == '>' {
            out.append("&gt;");
        } else if c == '"' {
            out.append("&quot;");
        } else {
            out.push(c);
        }
        proof {
            let rest = v@.skip(i as int);
            assert(rest.drop_first() =~= v@.skip(i as int + 1));
            assert(had + seq![c] =~= had.push(c));
            assert((had + markup_char(c)) + markup(rest.drop_first()) =~= had + (markup_char(c)
                + markup(rest.drop_first())));
        }
        i = i + 1;
    }
    out
}

/// A stylesheet's text in which nothing can end it: every `<` is written as an escape.
pub open spec fn sheet_text(s: Seq<char>) -> Seq<char>
    decreases s.len(),
{
    if s.len() == 0 {
        seq![]
    } else if s.last() == '<' {
        sheet_text(s.drop_last()) + "\\3c "@
    } else {
        sheet_text(s.drop_last()).push(s.last())
    }
}

/// A script's text in which nothing can end it: the slash of every `</` is escaped.
pub open spec fn script_text(s: Seq<char>) -> Seq<char>
    decreases s.len(),
{
    if s.len() == 0 {
        seq![]
    } else if s.last() == '/' && s.len() > 1 && s[s.len() - 2] == '<' {
        script_text(s.drop_last()) + "\\/"@
    } else {
        script_text(s.drop_last()).push(s.last())
    }
}

/// Escapes a stylesheet for the element that it stands in.
pub fn escape_sheet(s: &str) -> (out: String)
    ensures
        out@ == sheet_text(s@),
{
    let v = chars_of(s);
    let mut out = String::new();
    let mut i: usize = 0;
    while i < v.len()
        invariant
            i <= v.len(),
            v@ == s@,
            out@ == sheet_text(s@.take(i as int)),
        decreases v.len() - i,
    {
        assert(s@.take(i + 1).drop_last() =~= s@.take(i as int));
        if v[i] == '<' {
            out.append("\\3c ");
        } else {
            out.push(v[i]);
        }
        i = i + 1;
    }
    assert(s@.take(i as int) =~= s@);
    out
}

/// Escapes a script for the element that it stands in.
pub fn escape_script(s: &str) -> (out: String)
    ensures
        out@ == script_text(s@),
{
    let v = chars_of(s);
    let mut out = String::new();
    let mut i: usize = 0;
    while i < v.len()
        invariant
            i <= v.len(),
            v@ == s@,
            out@ == script_text(s@.take(i as int)),
        decreases v.len() - i,
    {
        assert(s@.take(i + 1).drop_last() =~= s@.take(i as int));
        if v[i] == '/' && i > 0 && v[i - 1] == '<' {
            out.append("\\/");
        } else {
            out.push(v[i]);
        }
        i = i + 1;
    }
    assert(s@.take(i as int) =~= s@);
    out
}

/// Nothing in an escaped stylesheet can end it, and one in which nothing could stays as
/// it is.
pub proof fn sheet_ends_nowhere(s: Seq<char>)
    ensures
        forall|i: int| 0 <= i < sheet_text(s).len() ==> sheet_text(s)[i] != '<',
        (forall|i: int| 0 <= i < s.len() ==> s[i] != '<') ==> sheet_text(s) == s,
    decreases s.len(),
{
    reveal_strlit("\\3c ");
    if s.len() > 0 {
        let r = sheet_text(s.drop_last());
        let t = sheet_text(s);
        sheet_ends_nowhere(s.drop_last());
        assert forall|i: int| 0 <= i < t.len() implies t[i] != '<' by {
            if i < r.len() {
                assert(t[i] == r[i]);
            }
        }
        if forall|i: int| 0 <= i < s.len() ==> s[i] != '<' {
            assert(forall|i: int| 0 <= i < s.drop_last().len() ==> s.drop_last()[i] == s[i]);
            assert(sheet_text(s) =~= s);
        }
    } else {
        assert(sheet_text(s) =~= s);
    }
}

/// Whether a closing tag may begin at `i`.
pub open spec fn closes_at(s: Seq<char>, i: int) -> bool {
    0 <= i && i + 1 < s.len() && s[i] == '<' && s[i + 1] == '/'
}

/// Nothing in an escaped script can end it, and one in which nothing could stays as it
/// is.
pub proof fn script_ends_nowhere(s: Seq<char>)
    ensures
        forall|i: int| !#[trigger] closes_at(script_text(s), i),
        s.len() > 0 ==> script_text(s).len() > 0 && script_text(s).last() == s.last(),
        (forall|i: int| !#[trigger] closes_at(s, i)) ==> script_text(s) == s,
    decreases s.len(),
{
    reveal_strlit("\\/");
    if s.len() > 0 {
        let rest = s.drop_last();
        script_ends_nowhere(rest);
        let t = script_text(s);
        let r = script_text(rest);
        assert forall|i: int| !#[trigger] closes_at(t, i) by {
            if closes_at(t, i) {
                if i + 1 < r.len() {
                    assert(closes_at(r, i));
                } else if s.len() > 1 {
                    assert(rest.last() == s[s.len() - 2]);
                }
                assert(false);
            }
        }
        if forall|i: int| !#[trigger] closes_at(s, i) {
            assert(!closes_at(s, s.len() - 2));
            assert forall|i: int| !#[trigger] closes_at(rest, i) by {
                assert(!closes_at(s, i));
            }
            assert(t =~= s);
        }
    } else {
        assert(script_text(s) =~= s);
    }
}

/// Escaped markup holds no `<`, no `>` and no `"`: nothing in it can open a tag or
/// close an attribute's value.
pub proof fn markup_opens_and_closes_nothing(s: Seq<char>)
    ensures
        forall|i: int|
            0 <= i < markup(s).len() ==> markup(s)[i] != '<' && markup(s)[i] != '>' && markup(s)[i]
                != '"',
    decreases s.len(),
{
    reveal_strlit("&amp;");
    reveal_strlit("&lt;");
    reveal_strlit("&gt;");
    reveal_strlit("&quot;");
    if s.len() > 0 {
        markup_opens_and_closes_nothing(s.drop_first());
        let (x, rest) = (markup_char(s[0]), markup(s.drop_first()));
        assert forall|i: int| 0 <= i < (x + rest).len() implies (x + rest)[i] != '<' && (x
            + rest)[i] != '>' && (x + rest)[i] != '"' by {
            if i >= x.len() {
                assert((x + rest)[i] == rest[i - x.len()]);
            } else {
                assert((x + rest)[i] == x[i]);
            }
        }
    }
}

/// Escaped content holds no `<` and no `>`: nothing in it can open a tag.
pub proof fn content_opens_no_tag(s: Seq<char>)
    ensures
        forall|i: int| 0 <= i < content(s).len() ==> content(s)[i] != '<' && content(s)[i] != '>',
    decreases s.len(),
{
    reveal_strlit("&amp;");
    reveal_strlit("&lt;");
    reveal_strlit("&gt;");
    if s.len() > 0 {
        content_opens_no_tag(s.drop_first());
        let (x, rest) = (content_char(s[0]), content(s.drop_first()));
        assert forall|i: int| 0 <= i < (x + rest).len() implies (x + rest)[i] != '<' && (x + rest)[i] != '>' by {
            if i >= x.len() {
                assert((x + rest)[i] == rest[i - x.len()]);
            } else {
                assert((x + rest)[i] == x[i]);
            }
        }
    }
}

/// An escaped attribute value holds no `"`: nothing in it can close the value.
pub proof fn quoted_closes_no_value(s: Seq<char>)
    ensures
        forall|i: int| 0 <= i < quoted(s).len() ==> quoted(s)[i] != '"',
    decreases s.len(),
{
    reveal_strlit("&amp;");
    reveal_strlit("&quot;");
    if s.len() > 0 {
        quoted_closes_no_value(s.drop_first());
        let (x, rest) = (quoted_char(s[0]), quoted(s.drop_first()));
        assert forall|i: int| 0 <= i < (x + rest).len() implies (x + rest)[i] != '"' by {
            if i >= x.len() {
                assert((x + rest)[i] == rest[i - x.len()]);
            } else {
                assert((x + rest)[i] == x[i]);
            }
        }
    }
}

/// Text without `&`, `<` and `>` is content as it stands.
pub proof fn plain_text_is_content(s: Seq<char>)
    requires
        forall|i: int| 0 <= i < s.len() ==> s[i] != '&' && s[i] != '<' && s[i] != '>',
    ensures
        content(s) == s,
    decreases s.len(),
{
    if s.len() > 0 {
        plain_text_is_content(s.drop_first());
        assert(seq![s[0]] + s.drop_first() =~= s);
    }
}

/// No two texts have the same content: what is shown is what was written.
pub proof fn content_loses_nothing(a: Seq<char>, b: Seq<char>)
    requires
        content(a) == content(b),
    ensures
        a == b,
    decreases a.len(),
{
    reveal_strlit("&amp;");
    reveal_strlit("&lt;");
    reveal_strlit("&gt;");
    if a.len() == 0 || b.len() == 0 {
        assert(a =~= b);
    } else {
        let (x, y) = (content_char(a[0]), content_char(b[0]));
        let (p, q) = (content(a.drop_first()), content(b.drop_first()));
        assert((x + p)[0] == x[0] && (y + q)[0] == y[0]);
        if x[0] == '&' {
            assert((x + p)[1] == x[1] && (y + q)[1] == y[1]);
        }
        assert(a[0] == b[0]);
        assert(p =~= (x + p).skip(x.len() as int));
        assert(q =~= (y + q).skip(y.len() as int));
        content_loses_nothing(a.drop_first(), b.drop_first());
        assert(a =~= seq![a[0]] + a.drop_first());
        assert(b =~= seq![b[0]] + b.drop_first());
    }
}

/// No two texts have the same attribute value.
pub proof fn quoted_loses_nothing(a: Seq<char>, b: Seq<char>)
    requires
        quoted(a) == quoted(b),
    ensures
        a == b,
    decreases a.len(),
{
    reveal_strlit("&amp;");
    reveal_strlit("&quot;");
    if a.len() == 0 || b.len() == 0 {
        assert(a =~= b);
    } else {
        let (x, y) = (quoted_char(a[0]), quoted_char(b[0]));
        let (p, q) = (quoted(a.drop_first()), quoted(b.drop_first()));
        assert((x + p)[0] == x[0] && (y + q)[0] == y[0]);
        if x[0] == '&' {
            assert((x + p)[1] == x[1] && (y + q)[1] == y[1]);
        }
        assert(a[0] == b[0]);
        assert(p =~= (x + p).skip(x.len() as int));
        assert(q =~= (y + q).skip(y.len() as int));
        quoted_loses_nothing(a.drop_first(), b.drop_first());
        assert(a =~= seq![a[0]] + a.drop_first());
        assert(b =~= seq![b[0]] + b.drop_first());
    }
}

// ----- File names -----

/// The characters that no file name holds.
pub open spec fn unfit(c: char) -> bool {
    ||| is_control(c)
    ||| c == '/'
    ||| c == '\\'
    ||| c == ':'
    ||| c == '*'
    ||| c == '?'
    ||| c == '"'
    ||| c == '<'
    ||| c == '>'
    ||| c == '|'
}

/// A character of a file name: a dash for one that is unfit.
pub open spec fn fit_char(c: char) -> char {
    if unfit(c) {
        '-'
    } else {
        c
    }
}

/// The text with a dash for every unfit character.
pub open spec fn fit(s: Seq<char>) -> Seq<char> {
    s.map_values(|c: char| fit_char(c))
}

/// The text without its leading dots and dashes and the white space around what
/// is left, as often as that leaves a dot in front.
pub open spec fn unhidden(s: Seq<char>) -> Seq<char>
    decreases s.len(),
    via unhidden_ends
{
    let k = skip(s, 0, s.len() as int, Class::DotDash);
    let rest = trim(s.skip(k));
    if rest.len() > 0 && rest[0] == '.' {
        unhidden(rest)
    } else {
        rest
    }
}

#[via_fn]
proof fn unhidden_ends(s: Seq<char>) {
    lemma_unhidden_shrinks(s);
}

proof fn lemma_unhidden_shrinks(s: Seq<char>)
    ensures
        ({
            let rest = trim(s.skip(skip(s, 0, s.len() as int, Class::DotDash)));
            rest.len() > 0 && rest[0] == '.' ==> rest.len() < s.len()
        }),
{
    let k = skip(s, 0, s.len() as int, Class::DotDash);
    lemma_skip(s, 0, s.len() as int, Class::DotDash);
    lemma_trim(s.skip(k));
}

/// What is left of a text when its white space is trimmed: a part of it that
/// begins and ends with something else.
proof fn lemma_trim(s: Seq<char>)
    ensures
        ({
            let a = skip(s, 0, s.len() as int, Class::Blank);
            let t = trim(s);
            &&& 0 <= a <= a + t.len() <= s.len()
            &&& t == s.subrange(a, a + t.len())
            &&& t.len() > 0 ==> t[0] == s[a] && !is_blank(t[0]) && !is_blank(t.last())
        }),
{
    let a = skip(s, 0, s.len() as int, Class::Blank);
    lemma_skip(s, 0, s.len() as int, Class::Blank);
    let u = trim_start(s);
    lemma_tail_start(u, u.len() as int, Class::Blank);
    let t = trim(s);
    assert(t =~= s.subrange(a, a + t.len()));
}

/// A subject as a file name.
pub open spec fn file_name(subject: Seq<char>) -> Seq<char> {
    let name = unhidden(trim(fit(subject)));
    if name.len() == 0 {
        "Message"@
    } else if name.len() > 120 {
        trim_end(name.take(120))
    } else {
        name
    }
}

/// A message subject reduced to something usable as a file name: no separators,
/// no leading dots, and short enough for any file system.
pub fn sanitize_filename(subject: &str) -> (out: String)
    ensures
        out@ == file_name(subject@),
{
    let v = chars_of(subject);
    let mut cleaned: Vec<char> = Vec::new();
    let mut i: usize = 0;
    while i < v.len()
        invariant
            i <= v.len(),
            cleaned@ == fit(v@.take(i as int)),
        decreases v.len() - i,
    {
        let c = v[i];
        let bad = control(c) || c == '/' || c == '\\' || c == ':' || c == '*' || c == '?' || c
            == '"' || c == '<' || c == '>' || c == '|';
        cleaned.push(
            if bad {
                '-'
            } else {
                c
            },
        );
        proof {
            assert(fit(v@.take(i as int + 1)) =~= fit(v@.take(i as int)).push(fit_char(c)));
        }
        i = i + 1;
    }
    proof {
        assert(v@.take(v@.len() as int) =~= v@);
    }
    let mut name: &[char] = trimmed(&cleaned);
    loop
        invariant_except_break
            unhidden(name@) == unhidden(trim(fit(subject@))),
        ensures
            name@ == unhidden(trim(fit(subject@))),
        decreases name.len(),
    {
        let k = skip_over(name, 0, name.len(), Class::DotDash);
        let rest = trimmed(slice_subrange(name, k, name.len()));
        proof {
            assert(name@.skip(k as int) =~= name@.subrange(k as int, name@.len() as int));
        }
        if rest.len() > 0 && rest[0] == '.' {
            proof {
                lemma_unhidden_shrinks(name@);
            }
            name = rest;
        } else {
            name = rest;
            break;
        }
    }
    if name.len() == 0 {
        return copy_of("Message");
    }
    if name.len() > 120 {
        let short = slice_subrange(name, 0, 120);
        proof {
            assert(name@.take(120) =~= name@.subrange(0, 120));
        }
        return string_of(trimmed_end(short));
    }
    string_of(name)
}

/// A file name made of a subject is not empty, is at most 120 characters long,
/// holds no separator and no other unfit character, and begins with no dot.
pub proof fn file_name_is_usable(subject: Seq<char>)
    ensures
        0 < file_name(subject).len() <= 120,
        file_name(subject)[0] != '.',
        forall|i: int| 0 <= i < file_name(subject).len() ==> !unfit(#[trigger] file_name(subject)[i]),
{
    reveal_strlit("Message");
    let cleaned = fit(subject);
    lemma_trim(cleaned);
    let t = trim(cleaned);
    assert forall|i: int| 0 <= i < t.len() implies !unfit(#[trigger] t[i]) by {}
    lemma_unhidden(t);
    let name = unhidden(t);
    if name.len() > 120 {
        lemma_tail_start(name.take(120), 120, Class::Blank);
        assert(name.take(120)[0] == name[0]);
    }
}

proof fn lemma_unhidden(s: Seq<char>)
    requires
        forall|i: int| 0 <= i < s.len() ==> !unfit(#[trigger] s[i]),
    ensures
        forall|i: int| 0 <= i < unhidden(s).len() ==> !unfit(#[trigger] unhidden(s)[i]),
        unhidden(s).len() > 0 ==> unhidden(s)[0] != '.' && !is_blank(unhidden(s)[0]),
    decreases s.len(),
{
    let k = skip(s, 0, s.len() as int, Class::DotDash);
    lemma_skip(s, 0, s.len() as int, Class::DotDash);
    lemma_trim(s.skip(k));
    let rest = trim(s.skip(k));
    assert forall|i: int| 0 <= i < rest.len() implies !unfit(#[trigger] rest[i]) by {}
    if rest.len() > 0 && rest[0] == '.' {
        lemma_unhidden_shrinks(s);
        lemma_unhidden(rest);
    }
}

} // verus!
