//! The reader: what is on screen, and what the reader's and the application's doings
//! make of it.

use std::collections::{HashMap, HashSet};

use vstd::prelude::*;

use crate::document::{chips_html, tag_chips_html, TagChip};
use crate::message_row::RowAction;
use crate::models::{copy_strings, mails, message_key, packed, Mail, Message};
use crate::reader_style::ReaderStyle;
use crate::remote::{has_remote_resources, remote_places};
use crate::text::{
    chars_of, copy_of, decimal, decimal_string, join, joined, opt_text, same, texts, trim,
    trimmed_string,
};

verus! {

broadcast use vstd::std_specs::hash::group_hash_axioms;

// ----- What the reader knows of a sender -----

/// Whether a sender's address survived its provider's checks.
#[derive(Debug, Clone, Copy, PartialEq, Eq, Structural)]
pub enum SenderTrust {
    Pass,
    Unverified,
    Suspicious,
    Fail,
}

/// The class of a verdict in the document's stylesheet.
pub open spec fn trust_class_name(t: SenderTrust) -> Seq<char> {
    match t {
        SenderTrust::Pass => "trust-pass"@,
        SenderTrust::Unverified => "trust-unverified"@,
        SenderTrust::Suspicious => "trust-suspicious"@,
        SenderTrust::Fail => "trust-fail"@,
    }
}

fn trust_class(t: SenderTrust) -> (r: &'static str)
    ensures
        r@ == trust_class_name(t),
{
    match t {
        SenderTrust::Pass => "trust-pass",
        SenderTrust::Unverified => "trust-unverified",
        SenderTrust::Suspicious => "trust-suspicious",
        SenderTrust::Fail => "trust-fail",
    }
}

/// Who signed a message well, and with which key.
#[derive(Debug)]
pub struct GoodSignature {
    pub signer: String,
    pub key_id: String,
}

/// What a message's OpenPGP encryption and signature say.
#[derive(Debug)]
pub struct PgpStatus {
    pub encrypted: bool,
    pub signed: bool,
    /// The class of the verdict in the document's stylesheet.
    pub class: String,
    pub summary: String,
    pub notes: Vec<String>,
    pub key_missing: bool,
    pub key_untrusted: bool,
    pub good: Option<GoodSignature>,
}

/// The verdict on a sender.
#[derive(Debug)]
pub struct SenderCheck {
    pub trust: SenderTrust,
    /// The verdict in words.
    pub label: String,
    pub summary: String,
    pub findings: Vec<String>,
    pub pgp: Option<PgpStatus>,
}

/// One part of the details of a verdict.
pub enum CheckLine {
    PgpHeading,
    Text(String),
    Dim(String),
    /// The button that fetches the sender's key.
    FetchKey,
    /// The button that vouches for the sender's key.
    TrustKey,
    Separator,
    Heading(String),
    /// That a pass does not make a message safe.
    Footnote,
}

/// One part of the details of a verdict, with its text as a sequence of characters.
pub enum CheckPart {
    PgpHeading,
    Text(Seq<char>),
    Dim(Seq<char>),
    FetchKey,
    TrustKey,
    Separator,
    Heading(Seq<char>),
    Footnote,
}

pub open spec fn check_parts(v: Seq<CheckLine>) -> Seq<CheckPart> {
    v.map_values(
        |l: CheckLine|
            match l {
                CheckLine::PgpHeading => CheckPart::PgpHeading,
                CheckLine::Text(s) => CheckPart::Text(s@),
                CheckLine::Dim(s) => CheckPart::Dim(s@),
                CheckLine::FetchKey => CheckPart::FetchKey,
                CheckLine::TrustKey => CheckPart::TrustKey,
                CheckLine::Separator => CheckPart::Separator,
                CheckLine::Heading(s) => CheckPart::Heading(s@),
                CheckLine::Footnote => CheckPart::Footnote,
            },
    )
}

/// What OpenPGP says of a message, and what helps against a missing key and against one
/// that nobody vouches for.
pub open spec fn pgp_parts(p: &PgpStatus) -> Seq<CheckPart> {
    seq![CheckPart::PgpHeading, CheckPart::Text(p.summary@)] + (if p.notes@.len() > 0 {
        seq![CheckPart::Dim(join(texts(p.notes@), "\n"@))]
    } else {
        seq![]
    }) + (if p.key_missing {
        seq![CheckPart::FetchKey]
    } else if p.key_untrusted {
        seq![CheckPart::TrustKey]
    } else {
        seq![]
    }) + seq![CheckPart::Separator]
}

/// The details of a verdict.
pub open spec fn verdict_parts(c: &SenderCheck) -> Seq<CheckPart> {
    (match &c.pgp {
        Some(p) => pgp_parts(p),
        None => seq![],
    }) + seq![CheckPart::Heading(c.label@), CheckPart::Text(c.summary@)] + (if c.findings@.len()
        > 0 {
        seq![CheckPart::Separator, CheckPart::Dim(join(texts(c.findings@), "\n"@))]
    } else {
        seq![]
    }) + seq![CheckPart::Footnote]
}

fn add_line(lines: &mut Vec<CheckLine>, line: CheckLine)
    ensures
        check_parts(final(lines)@) == check_parts(old(lines)@) + check_parts(seq![line]),
{
    let ghost had = check_parts(lines@);
    lines.push(line);
    proof {
        assert(check_parts(lines@) =~= had + check_parts(seq![line]));
    }
}

fn add_pgp_lines(lines: &mut Vec<CheckLine>, p: &PgpStatus)
    ensures
        check_parts(final(lines)@) == check_parts(old(lines)@) + pgp_parts(p),
{
    let ghost had = check_parts(lines@);
    add_line(lines, CheckLine::PgpHeading);
    add_line(lines, CheckLine::Text(copy_of(p.summary.as_str())));
    if p.notes.len() > 0 {
        add_line(lines, CheckLine::Dim(joined(&p.notes, "\n")));
    }
    if p.key_missing {
        add_line(lines, CheckLine::FetchKey);
    } else if p.key_untrusted {
        add_line(lines, CheckLine::TrustKey);
    }
    add_line(lines, CheckLine::Separator);
    proof {
        assert(check_parts(lines@) =~= had + pgp_parts(p));
    }
}

/// The details of a verdict. The OpenPGP verdict leads where there is one.
pub fn sender_details(c: &SenderCheck) -> (lines: Vec<CheckLine>)
    ensures
        check_parts(lines@) == verdict_parts(c),
{
    let mut lines: Vec<CheckLine> = Vec::new();
    if let Some(p) = &c.pgp {
        add_pgp_lines(&mut lines, p);
    }
    let ghost pgp = check_parts(lines@);
    proof {
        match &c.pgp {
            Some(p) => {
                assert(pgp =~= pgp_parts(p));
            },
            None => {
                assert(pgp =~= seq![]);
            },
        }
    }
    add_line(&mut lines, CheckLine::Heading(copy_of(c.label.as_str())));
    add_line(&mut lines, CheckLine::Text(copy_of(c.summary.as_str())));
    if c.findings.len() > 0 {
        add_line(&mut lines, CheckLine::Separator);
        add_line(&mut lines, CheckLine::Dim(joined(&c.findings, "\n")));
    }
    add_line(&mut lines, CheckLine::Footnote);
    proof {
        assert(check_parts(lines@) =~= verdict_parts(c));
    }
    lines
}

// ----- Texts in scripts -----

/// `str`'s `Debug` format of the standard library.
pub uninterp spec fn debug_quoted(s: Seq<char>) -> Seq<char>;

/// `str`'s `Debug` format of the standard library: the text in double quotes, with what
/// cannot stand there escaped. Which characters that are is settled by Unicode's tables
/// and left unsaid here.
#[verifier::external_body]
fn debug_text(s: &str) -> (out: String)
    ensures
        out@ == debug_quoted(s@),
{
    format!("{s:?}")
}

/// A hexadecimal digit in lower case.
pub open spec fn hex_char(d: int) -> char {
    if d < 10 {
        ((48 + d) as u8) as char
    } else {
        ((87 + d) as u8) as char
    }
}

/// What a character becomes in a JSON string.
pub open spec fn json_char(c: char) -> Seq<char> {
    if c == '"' {
        seq!['\\', '"']
    } else if c == '\\' {
        seq!['\\', '\\']
    } else if c == '\u{8}' {
        seq!['\\', 'b']
    } else if c == '\t' {
        seq!['\\', 't']
    } else if c == '\n' {
        seq!['\\', 'n']
    } else if c == '\u{c}' {
        seq!['\\', 'f']
    } else if c == '\r' {
        seq!['\\', 'r']
    } else if c <= '\u{1f}' {
        seq!['\\', 'u', '0', '0', hex_char(c as int / 16), hex_char(c as int % 16)]
    } else {
        seq![c]
    }
}

/// What the characters become in a JSON string.
pub open spec fn json_chars(s: Seq<char>) -> Seq<char>
    decreases s.len(),
{
    if s.len() == 0 {
        seq![]
    } else {
        json_char(s[0]) + json_chars(s.drop_first())
    }
}

/// A text as a JSON string.
pub open spec fn json_quoted(s: Seq<char>) -> Seq<char> {
    seq!['"'] + json_chars(s) + seq!['"']
}

/// `serde_json::to_string` of a string: the JSON string that stands for it. It succeeds
/// for every string: writing into memory does not fail.
#[verifier::external_body]
fn json_text(s: &str) -> (out: Option<String>)
    ensures
        opt_text(out) == Some(json_quoted(s@)),
{
    serde_json::to_string(s).ok()
}

/// A JSON string closes only at its end: a quote inside of it stands behind a backslash,
/// and no control character stands in it.
pub proof fn json_closes_at_its_end(s: Seq<char>, i: int)
    requires
        0 <= i < json_chars(s).len(),
    ensures
        json_chars(s)[i] > '\u{1f}',
        json_chars(s)[i] == '"' ==> i > 0 && json_chars(s)[i - 1] == '\\',
    decreases s.len(),
{
    let (x, rest) = (json_char(s[0]), json_chars(s.drop_first()));
    assert(s.len() > 0);
    assert(json_chars(s) == x + rest);
    if i < x.len() {
        assert((x + rest)[i] == x[i]);
        lemma_json_char(s[0], i);
        if i > 0 {
            assert((x + rest)[i - 1] == x[i - 1]);
        }
    } else {
        json_closes_at_its_end(s.drop_first(), i - x.len());
        assert((x + rest)[i] == rest[i - x.len()]);
        if rest[i - x.len()] == '"' {
            assert((x + rest)[i - 1] == rest[i - x.len() - 1]);
        }
    }
}

proof fn lemma_json_char(c: char, i: int)
    requires
        0 <= i < json_char(c).len(),
    ensures
        json_char(c)[i] > '\u{1f}',
        json_char(c)[i] == '"' ==> i > 0 && json_char(c)[i - 1] == '\\',
{
    let x = json_char(c);
    let d = c as int;
    if c <= '\u{1f}' {
        assert(0 <= d / 16 <= 1);
    }
    assert(i == 0 || i == 1 || i == 2 || i == 3 || i == 4 || i == 5);
}

/// A text for a JavaScript string in single quotes.
pub open spec fn script_quoted(s: Seq<char>) -> Seq<char>
    decreases s.len(),
{
    if s.len() == 0 {
        seq![]
    } else {
        script_quoted(s.drop_last()) + (if s.last() == '\\' {
            seq!['\\', '\\']
        } else if s.last() == '\'' {
            seq!['\\', '\'']
        } else {
            seq![s.last()]
        })
    }
}

fn script_text(s: &str) -> (out: String)
    ensures
        out@ == script_quoted(s@),
{
    let v = chars_of(s);
    let mut out = String::new();
    let mut i: usize = 0;
    while i < v.len()
        invariant
            i <= v.len(),
            out@ == script_quoted(v@.take(i as int)),
        decreases v.len() - i,
    {
        proof {
            let next = v@.take(i + 1);
            assert(next.drop_last() =~= v@.take(i as int));
            assert(next.last() == v@[i as int]);
        }
        let ghost had = out@;
        if v[i] == '\\' {
            out.push('\\');
            out.push('\\');
            proof {
                assert(out@ =~= had + seq!['\\', '\\']);
            }
        } else if v[i] == '\'' {
            out.push('\\');
            out.push('\'');
            proof {
                assert(out@ =~= had + seq!['\\', '\'']);
            }
        } else {
            out.push(v[i]);
            proof {
                assert(out@ =~= had + seq![v@[i as int]]);
            }
        }
        i = i + 1;
    }
    proof {
        assert(v@.take(v@.len() as int) =~= v@);
    }
    out
}

// ----- The scripts themselves -----

/// The script that lights the OpenPGP chip of a card.
pub open spec fn pgp_patch(key: (u32, u32), pgp: Option<PgpStatus>) -> Seq<char> {
    match pgp {
        Some(p) => {
            let enc = if p.encrypted {
                " enc"@
            } else {
                ""@
            };
            let sig = if p.signed {
                " sig"@
            } else {
                ""@
            };
            "var p=document.querySelector('.vireo-pgp[data-key=\""@
    + decimal(key.0 as nat)
    + ":"@
    + decimal(key.1 as nat)
    + "\"]');if(p){p.className='vireo-pgp on"@
    + enc
    + sig
    + " "@
    + p.class@
    + "';p.title="@
    + debug_quoted(p.summary@)
    + ";}"@
        },
        None => seq![],
    }
}

/// The script that lights the seals of a card with its verdict.
pub open spec fn badge_script(key: (u32, u32), check: SenderCheck) -> Seq<char> {
    "(function(){"@
    + pgp_patch(key, check.pgp)
    + "var b=document.querySelector('.vireo-verify[data-key=\""@
    + decimal(key.0 as nat)
    + ":"@
    + decimal(key.1 as nat)
    + "\"]');if(!b)return;b.className='vireo-verify on "@
    + trust_class_name(check.trust)
    + "';b.title="@
    + debug_quoted(check.label@)
    + ";})()"@
}

fn pgp_patch_text(key: (u32, u32), pgp: &Option<PgpStatus>) -> (out: String)
    ensures
        out@ == pgp_patch(key, *pgp),
{
    match pgp {
        Some(p) => {
            let account = decimal_string(key.0 as u64);
            let number = decimal_string(key.1 as u64);
            let enc: &str = if p.encrypted {
                " enc"
            } else {
                ""
            };
            let sig: &str = if p.signed {
                " sig"
            } else {
                ""
            };
            let mut out = copy_of("var p=document.querySelector('.vireo-pgp[data-key=\"");
            out.append(account.as_str());
            out.append(":");
            out.append(number.as_str());
            out.append("\"]');if(p){p.className='vireo-pgp on");
            out.append(enc);
            out.append(sig);
            out.append(" ");
            out.append(p.class.as_str());
            out.append("';p.title=");
            out.append(debug_text(p.summary.as_str()).as_str());
            out.append(";}");
            out
        },
        None => String::new(),
    }
}

fn badge_script_text(key: (u32, u32), check: &SenderCheck) -> (out: String)
    ensures
        out@ == badge_script(key, *check),
{
    let account = decimal_string(key.0 as u64);
    let number = decimal_string(key.1 as u64);
    let chip = pgp_patch_text(key, &check.pgp);
    let mut out = copy_of("(function(){");
    out.append(chip.as_str());
    out.append("var b=document.querySelector('.vireo-verify[data-key=\"");
    out.append(account.as_str());
    out.append(":");
    out.append(number.as_str());
    out.append("\"]');if(!b)return;b.className='vireo-verify on ");
    out.append(trust_class(check.trust));
    out.append("';b.title=");
    out.append(debug_text(check.label.as_str()).as_str());
    out.append(";})()");
    out
}

/// Keys as JavaScript strings.
pub open spec fn quoted_keys(keys: Seq<(u32, u32)>) -> Seq<Seq<char>> {
    keys.map_values(
        |k: (u32, u32)| "'"@ + decimal(k.0 as nat) + ":"@ + decimal(k.1 as nat) + "'"@,
    )
}

/// The script that outlines the selected cards.
pub open spec fn select_script(keys: Seq<(u32, u32)>) -> Seq<char> {
    "(function(){var s=["@
    + join(quoted_keys(keys), ","@)
    + "];             var els=document.querySelectorAll('.vireo-msg');             for(var i=0;i<els.length;i++){var k=els[i].dataset.key;             els[i].classList.toggle('selected', s.indexOf(k)>=0);}})()"@
}

fn select_script_text(keys: &Vec<(u32, u32)>) -> (out: String)
    ensures
        out@ == select_script(keys@),
{
    let ghost want = quoted_keys(keys@);
    let mut names: Vec<String> = Vec::new();
    let mut i: usize = 0;
    while i < keys.len()
        invariant
            i <= keys.len(),
            want == quoted_keys(keys@),
            texts(names@) == want.take(i as int),
        decreases keys.len() - i,
    {
        let mut one = copy_of("'");
        one.append(decimal_string(keys[i].0 as u64).as_str());
        one.append(":");
        one.append(decimal_string(keys[i].1 as u64).as_str());
        one.append("'");
        let ghost had = texts(names@);
        names.push(one);
        proof {
            assert(texts(names@) =~= had.push(one@));
            assert(want.take(i + 1) =~= want.take(i as int).push(want[i as int]));
        }
        i = i + 1;
    }
    proof {
        assert(want.take(want.len() as int) =~= want);
    }
    let list = joined(&names, ",");
    let mut out = copy_of("(function(){var s=[");
    out.append(list.as_str());
    out.append("];             var els=document.querySelectorAll('.vireo-msg');             for(var i=0;i<els.length;i++){var k=els[i].dataset.key;             els[i].classList.toggle('selected', s.indexOf(k)>=0);}})()");
    out
}

/// The script that puts a card's unread mark back.
pub open spec fn dot_script(key: (u32, u32)) -> Seq<char> {
    "(function(){var s=document.querySelector('.vireo-msg[data-key=\""@
    + decimal(key.0 as nat)
    + ":"@
    + decimal(key.1 as nat)
    + "\"]');if(s)s.classList.add('unread');var h=document.querySelector('.vireo-msg-hdr[data-key=\""@
    + decimal(key.0 as nat)
    + ":"@
    + decimal(key.1 as nat)
    + "\"]');if(!h||h.querySelector('.vireo-dot'))return;var d=document.createElement('span');d.className='vireo-dot';d.setAttribute('data-key','"@
    + decimal(key.0 as nat)
    + ":"@
    + decimal(key.1 as nat)
    + "');var f=h.querySelector('.vireo-from');if(f)f.parentNode.insertBefore(d,f);else h.appendChild(d);})()"@
}

fn dot_script_text(key: (u32, u32)) -> (out: String)
    ensures
        out@ == dot_script(key),
{
    let account = decimal_string(key.0 as u64);
    let number = decimal_string(key.1 as u64);
    let mut out = copy_of("(function(){var s=document.querySelector('.vireo-msg[data-key=\"");
    out.append(account.as_str());
    out.append(":");
    out.append(number.as_str());
    out.append("\"]');if(s)s.classList.add('unread');var h=document.querySelector('.vireo-msg-hdr[data-key=\"");
    out.append(account.as_str());
    out.append(":");
    out.append(number.as_str());
    out.append("\"]');if(!h||h.querySelector('.vireo-dot'))return;var d=document.createElement('span');d.className='vireo-dot';d.setAttribute('data-key','");
    out.append(account.as_str());
    out.append(":");
    out.append(number.as_str());
    out.append("');var f=h.querySelector('.vireo-from');if(f)f.parentNode.insertBefore(d,f);else h.appendChild(d);})()");
    out
}

/// The script that takes a card's unread mark away.
pub open spec fn clear_dot_script(key: (u32, u32)) -> Seq<char> {
    "(function(){var d=document.querySelector('.vireo-dot[data-key=\""@
    + decimal(key.0 as nat)
    + ":"@
    + decimal(key.1 as nat)
    + "\"]');if(d)d.remove();var s=document.querySelector('.vireo-msg[data-key=\""@
    + decimal(key.0 as nat)
    + ":"@
    + decimal(key.1 as nat)
    + "\"]');if(s)s.classList.remove('unread');})()"@
}

fn clear_dot_script_text(key: (u32, u32)) -> (out: String)
    ensures
        out@ == clear_dot_script(key),
{
    let account = decimal_string(key.0 as u64);
    let number = decimal_string(key.1 as u64);
    let mut out = copy_of("(function(){var d=document.querySelector('.vireo-dot[data-key=\"");
    out.append(account.as_str());
    out.append(":");
    out.append(number.as_str());
    out.append("\"]');if(d)d.remove();var s=document.querySelector('.vireo-msg[data-key=\"");
    out.append(account.as_str());
    out.append(":");
    out.append(number.as_str());
    out.append("\"]');if(s)s.classList.remove('unread');})()");
    out
}

/// The script that replaces a card's tag chips.
pub open spec fn chips_script(key: (u32, u32), chips: Seq<char>) -> Seq<char> {
    "(function(){var t=document.querySelector('.vireo-tags[data-key=\""@
    + decimal(key.0 as nat)
    + ":"@
    + decimal(key.1 as nat)
    + "\"]');if(t)t.innerHTML="@
    + json_quoted(chips)
    + ";})()"@
}

fn chips_script_text(key: (u32, u32), chips: &str) -> (out: String)
    ensures
        out@ == chips_script(key, chips@),
{
    let account = decimal_string(key.0 as u64);
    let number = decimal_string(key.1 as u64);
    let json: String = match json_text(chips) {
        Some(j) => j,
        None => copy_of("''"),
    };
    let mut out = copy_of("(function(){var t=document.querySelector('.vireo-tags[data-key=\"");
    out.append(account.as_str());
    out.append(":");
    out.append(number.as_str());
    out.append("\"]');if(t)t.innerHTML=");
    out.append(json.as_str());
    out.append(";})()");
    out
}

/// The script that lights a card's star, or puts it out.
pub open spec fn star_script(key: (u32, u32), starred: bool) -> Seq<char> {
    let verb = if starred {
        "add"@
    } else {
        "remove"@
    };
    "(function(){var b=document.querySelector('.vireo-act[data-act=\"star\"][data-key=\""@
    + decimal(key.0 as nat)
    + ":"@
    + decimal(key.1 as nat)
    + "\"]');if(b)b.classList."@
    + verb
    + "('on');})()"@
}

fn star_script_text(key: (u32, u32), starred: bool) -> (out: String)
    ensures
        out@ == star_script(key, starred),
{
    let account = decimal_string(key.0 as u64);
    let number = decimal_string(key.1 as u64);
    let verb: &str = if starred {
        "add"
    } else {
        "remove"
    };
    let mut out = copy_of("(function(){var b=document.querySelector('.vireo-act[data-act=\"star\"][data-key=\"");
    out.append(account.as_str());
    out.append(":");
    out.append(number.as_str());
    out.append("\"]');if(b)b.classList.");
    out.append(verb);
    out.append("('on');})()");
    out
}

/// The script that scrolls a card to the top and outlines it.
pub open spec fn focus_script(key: (u32, u32)) -> Seq<char> {
    "(function(){if(!document.body.classList.contains('vireo-conv'))return;var s=document.querySelector('.vireo-msg[data-key=\""@
    + decimal(key.0 as nat)
    + ":"@
    + decimal(key.1 as nat)
    + "\"]');if(!s)return;document.querySelectorAll('.vireo-msg.selected').forEach(function(e){e.classList.remove('selected');});s.classList.add('selected');s.style.scrollMarginTop='14px';s.scrollIntoView({behavior:'smooth',block:'start'});})()"@
}

fn focus_script_text(key: (u32, u32)) -> (out: String)
    ensures
        out@ == focus_script(key),
{
    let account = decimal_string(key.0 as u64);
    let number = decimal_string(key.1 as u64);
    let mut out = copy_of("(function(){if(!document.body.classList.contains('vireo-conv'))return;var s=document.querySelector('.vireo-msg[data-key=\"");
    out.append(account.as_str());
    out.append(":");
    out.append(number.as_str());
    out.append("\"]');if(!s)return;document.querySelectorAll('.vireo-msg.selected').forEach(function(e){e.classList.remove('selected');});s.classList.add('selected');s.style.scrollMarginTop='14px';s.scrollIntoView({behavior:'smooth',block:'start'});})()");
    out
}

/// The script that takes the outline off all cards.
pub const BLUR_SCRIPT: &'static str = "(function(){document.querySelectorAll('.vireo-msg.selected').forEach(function(e){e.classList.remove('selected');});})()";

/// The script that copies what is selected in a message's body.
pub const COPY_SCRIPT: &'static str = "window.__vireoCopySel && window.__vireoCopySel()";

/// The script that searches for a text in the messages.
pub open spec fn find_script(text: Seq<char>) -> Seq<char> {
    "vireoFind('"@ + script_quoted(text) + "')"@
}

// ----- The reader's state -----

/// When a message counts as read.
#[derive(Debug, Clone, Copy, PartialEq, Eq, Structural)]
pub enum ReadMark {
    /// As soon as it is shown.
    Shown,
    /// A while after it is shown.
    Delay,
    /// When the reader says so.
    Manual,
}

/// How a click on a card changes the selection.
#[derive(Debug, Clone, Copy, PartialEq, Eq, Structural)]
pub enum SelectMode {
    /// A plain click: this message alone.
    Plain,
    /// With Ctrl: add or remove this one.
    Toggle,
    /// With Shift: everything between the first of the selection and this one.
    Range,
}

/// How the reader likes to read.
#[derive(Clone, Copy, PartialEq, Eq, Structural)]
pub struct Looks {
    /// Whether a lone message is carded like those of a conversation.
    pub single_message_card: bool,
    pub always_show_recipients: bool,
    pub read_mark: ReadMark,
    pub show_banner: bool,
    pub card_actions_hover: bool,
    pub card_actions_auto: bool,
    pub palette_collapse_secs: u64,
    /// Whether messages are forced to be dark or light.
    pub content_dark: Option<bool>,
}

/// What is on screen.
pub struct Content {
    /// The message that the header, the avatar and the sender's check are about.
    pub current: Option<Message>,
    /// The whole conversation, newest first.
    pub thread: Vec<Message>,
    /// The folders of those messages that came from another one, under packed keys.
    pub folder_labels: HashMap<u64, String>,
    /// Whether remote content was found and is withheld: this drives the banner alone.
    pub blocked: bool,
    /// Whether remote content was permitted for what is on screen. What is stripped goes
    /// by this, never by what was found.
    pub remote_allowed: bool,
    pub account_name: Option<String>,
    /// Whether the body is being fetched.
    pub loading: bool,
    /// Whether the conversation came ready-made.
    pub instant: bool,
}

/// What is on screen, with its messages' texts as sequences of characters.
pub struct Shown {
    pub current: Option<Mail>,
    pub thread: Seq<Mail>,
    pub folder_labels: Map<u64, String>,
    pub blocked: bool,
    pub remote_allowed: bool,
    pub account_name: Option<String>,
    pub loading: bool,
    pub instant: bool,
}

pub open spec fn opt_mail(m: Option<Message>) -> Option<Mail> {
    match m {
        Some(m) => Some(m@),
        None => None,
    }
}

impl View for Content {
    type V = Shown;

    open spec fn view(&self) -> Shown {
        Shown {
            current: opt_mail(self.current),
            thread: mails(self.thread@),
            folder_labels: self.folder_labels@,
            blocked: self.blocked,
            remote_allowed: self.remote_allowed,
            account_name: self.account_name,
            loading: self.loading,
            instant: self.instant,
        }
    }
}

/// What is remembered of messages, under packed keys, and which of them are selected.
pub struct Marks {
    /// The messages that were marked unread by hand while they were on screen.
    pub no_autoread: HashSet<u64>,
    /// The messages that are shown with the sender's own formatting.
    pub sender_style: HashSet<u64>,
    /// How tall each message's frame was last time.
    pub frame_heights: HashMap<u64, u32>,
    pub selected_cards: Vec<(u32, u32)>,
}

/// What is remembered of messages, as sets, a map and a sequence.
pub struct Marking {
    pub no_autoread: Set<u64>,
    pub sender_style: Set<u64>,
    pub frame_heights: Map<u64, u32>,
    pub selected_cards: Seq<(u32, u32)>,
}

impl View for Marks {
    type V = Marking;

    open spec fn view(&self) -> Marking {
        Marking {
            no_autoread: self.no_autoread@,
            sender_style: self.sender_style@,
            frame_heights: self.frame_heights@,
            selected_cards: self.selected_cards@,
        }
    }
}

pub open spec fn opt_list(v: Option<Vec<String>>) -> Option<Seq<Seq<char>>> {
    match v {
        Some(v) => Some(texts(v@)),
        None => None,
    }
}

/// The tags, and the keywords that the header's chips were built for.
pub struct Tags {
    pub tags: Vec<TagChip>,
    pub header_tags: Option<Vec<String>>,
}

/// The tags, and the keywords that the header's chips were built for, as sequences.
pub struct Labels {
    pub tags: Seq<TagChip>,
    pub header_tags: Option<Seq<Seq<char>>>,
}

impl View for Tags {
    type V = Labels;

    open spec fn view(&self) -> Labels {
        Labels { tags: self.tags@, header_tags: opt_list(self.header_tags) }
    }
}

/// How far the document is.
pub struct Canvas {
    /// What the document on screen depends on.
    pub fingerprint: Option<Vec<String>>,
    /// Whether the document has been drawn.
    pub webview_ready: bool,
    /// Whether the conversation has scrolled to its first unread message already.
    pub did_autoscroll: bool,
    /// The card at the top of the view, and how far into it the view has scrolled.
    pub saved_anchor: Option<(u32, u32, u32)>,
    /// Counts the documents, so that each gets an address of its own.
    pub seq: u64,
    /// Counts what asks for a card to be focused, or for that to be called off.
    pub focus_gen: u64,
}

/// How far the document is, with its texts as sequences of characters.
pub struct Drawing {
    pub fingerprint: Option<Seq<Seq<char>>>,
    pub webview_ready: bool,
    pub did_autoscroll: bool,
    pub saved_anchor: Option<(u32, u32, u32)>,
    pub seq: u64,
    pub focus_gen: u64,
}

impl View for Canvas {
    type V = Drawing;

    open spec fn view(&self) -> Drawing {
        Drawing {
            fingerprint: opt_list(self.fingerprint),
            webview_ready: self.webview_ready,
            did_autoscroll: self.did_autoscroll,
            saved_anchor: self.saved_anchor,
            seq: self.seq,
            focus_gen: self.focus_gen,
        }
    }
}

/// The search within the messages.
#[derive(Clone, Copy)]
pub struct Finding {
    pub find_open: bool,
    pub find_matches: Option<(u32, u32)>,
    /// Whether the search was closed since it was last asked for.
    pub find_closed: bool,
}

/// What is known of the senders.
pub struct Checks {
    /// The verdict on the sender of the current message.
    pub sender_check: Option<SenderCheck>,
    /// The verdicts on the senders of the conversation.
    pub member_checks: Vec<((u32, u32), SenderCheck)>,
}

/// What is known of the senders, as a sequence.
pub struct Verdicts {
    pub sender_check: Option<SenderCheck>,
    pub member_checks: Seq<((u32, u32), SenderCheck)>,
}

impl View for Checks {
    type V = Verdicts;

    open spec fn view(&self) -> Verdicts {
        Verdicts { sender_check: self.sender_check, member_checks: self.member_checks@ }
    }
}

/// The reader.
pub struct MessageView {
    pub looks: Looks,
    pub content: Content,
    pub marks: Marks,
    pub labels: Tags,
    /// The reader's own fonts and colours.
    pub reader_style: ReaderStyle,
    pub drawing: Canvas,
    pub find: Finding,
    pub checks: Checks,
}

/// The reader, with its texts as sequences of characters.
pub struct ReaderState {
    pub looks: Looks,
    pub content: Shown,
    pub marks: Marking,
    pub labels: Labels,
    pub reader_style: ReaderStyle,
    pub drawing: Drawing,
    pub find: Finding,
    pub checks: Verdicts,
}

impl View for MessageView {
    type V = ReaderState;

    open spec fn view(&self) -> ReaderState {
        ReaderState {
            looks: self.looks,
            content: self.content@,
            marks: self.marks@,
            labels: self.labels@,
            reader_style: self.reader_style,
            drawing: self.drawing@,
            find: self.find,
            checks: self.checks@,
        }
    }
}

// ----- What goes in and comes out -----

/// A conversation to show.
#[derive(Debug)]
pub struct Opening {
    /// The conversation, newest first.
    pub thread: Vec<Message>,
    /// Whether the sender is trusted, so that remote content may load.
    pub allow_remote: bool,
    pub account_name: Option<String>,
    /// The rules of the account's chip, where it has a colour.
    pub chip_css: Option<String>,
    /// Whether the body is still being fetched.
    pub loading: bool,
    /// The message that was selected, where it is not the newest.
    pub primary: Option<Box<Message>>,
    /// Whether the conversation was already assembled.
    pub instant: bool,
    /// The folders of those messages that live in another one, under packed keys.
    pub folder_labels: HashMap<u64, String>,
}

#[allow(inconsistent_fields)]
#[derive(Debug)]
pub enum MessageViewInput {
    SetBannerShown(bool),
    SetAlwaysShowRecipients(bool),
    SetSingleMessageCard(bool),
    Show(Opening),
    LoadRemoteOnce,
    AllowSenderAlways,
    /// The light or dark preference changed.
    ThemeChanged,
    Print,
    PrintPreview,
    /// Force messages to be dark or light, or let them follow the desktop.
    SetContentTheme(Option<bool>),
    SetReaderStyle(ReaderStyle),
    /// Show one message as its sender formatted it, or no longer.
    ToggleSenderStyle { account_id: u32, id: u32 },
    PgpFetchKey { account_id: u32, id: u32 },
    PgpTrustKey { account_id: u32, id: u32 },
    /// A key action finished.
    PgpDone { account_id: u32, id: u32, result: Result<String, String> },
    /// The document has been drawn.
    Rendered,
    SetSenderCheck(Box<SenderCheck>),
    SenderCheckFor { account_id: u32, id: u32, check: Box<SenderCheck> },
    /// A card's seal was clicked.
    SenderInfoAt { account_id: u32, id: u32 },
    /// A card's header was double-clicked.
    OpenHeader { account_id: u32, id: u32 },
    /// A message was marked unread by hand.
    SuppressAutoRead { account_id: u32, id: u32 },
    /// The page around the cards was clicked.
    ClearCards,
    CardClicked { account_id: u32, id: u32, mode: SelectMode },
    SelectAllCards,
    CopySelection,
    ComposeTo(String),
    AddContact(String),
    /// Which messages the list has selected.
    SetSelectedCards(Vec<(u32, u32)>),
    /// A message's frame was measured.
    FrameSized { account_id: u32, id: u32, height: u32 },
    /// A message has been in view for long enough.
    MarkSeen { account_id: u32, id: u32 },
    CardAction { action: RowAction, account_id: u32, id: u32 },
    CardContact { account_id: u32, id: u32 },
    SetCardActionsMode { hover_toggle: bool, hover_auto: bool },
    SetPaletteCollapse(u64),
    /// A message was read elsewhere.
    ClearDot { account_id: u32, id: u32 },
    /// A message was starred elsewhere.
    SetCardStar { account_id: u32, id: u32, starred: bool },
    /// A message's keywords changed.
    SetCardKeywords { account_id: u32, id: u32, keywords: Vec<String> },
    SetTags(Vec<TagChip>),
    SetReadMark(ReadMark),
    /// Open the search, so many milliseconds after it was last closed.
    OpenFind { since_closed: u64 },
    CloseFind,
    FindChanged(String),
    FindNext,
    FindPrev,
    FindCounted { current: u32, total: u32 },
    /// A reply to this message was opened.
    FocusCard { account_id: u32, id: u32 },
    /// The reply was closed.
    BlurCard,
    /// The card at the top of the view, and how far into it the view has scrolled.
    ScrollAnchor { account_id: u32, id: u32, offset: u32 },
}

#[allow(inconsistent_fields)]
#[derive(Debug)]
pub enum MessageViewOutput {
    /// Let remote content of this sender load from now on.
    AllowSender(String),
    /// Open a message in a window of its own.
    OpenWindow(Box<Message>),
    /// The selection changed.
    SelectCards(Vec<(u32, u32)>),
    /// A message has been read.
    MarkSeen { account_id: u32, id: u32 },
    CardAction { action: RowAction, message: Box<Message> },
    ContactSender(Box<Message>),
    ComposeTo(String),
    AddContactAddr(String),
    /// Fetch a message's body again.
    ReloadBody(Box<Message>),
    /// Something to tell the reader.
    Notice(String),
}

/// What the reader asks of the application.
#[allow(inconsistent_fields)]
pub enum ViewStep {
    Output(MessageViewOutput),
    HideLinkPreview,
    /// Paint the account's chip by these rules.
    PaintChip(String),
    /// Paint what stands behind the document.
    PaintCover,
    /// Bring the document up to date.
    Render,
    Print,
    PrintPreview,
    RunScript(String),
    /// Show the details of a verdict.
    ShowSender { account_id: u32, id: u32 },
    FetchKey { account_id: u32, id: u32 },
    /// Ask whether the key is to be trusted.
    AskTrust { account_id: u32, id: u32, signer: String, key_id: String },
    /// Close the search.
    SendCloseFind,
    FocusFindEntry,
    ClearFindEntry,
    /// Focus a card once the reader has its new size, if nothing called that off.
    ScheduleFocus { generation: u64, account_id: u32, id: u32 },
}

/// What the reader asks of the application, with its texts as sequences of characters.
#[allow(inconsistent_fields)]
pub enum Wish {
    AllowSender(Seq<char>),
    OpenWindow(Mail),
    SelectCards(Seq<(u32, u32)>),
    MarkSeen((u32, u32)),
    CardAction(RowAction, Mail),
    ContactSender(Mail),
    ComposeTo(Seq<char>),
    AddContactAddr(Seq<char>),
    ReloadBody(Mail),
    Notice(Seq<char>),
    HideLinkPreview,
    PaintChip(Seq<char>),
    PaintCover,
    Render,
    Print,
    PrintPreview,
    RunScript(Seq<char>),
    ShowSender((u32, u32)),
    FetchKey((u32, u32)),
    AskTrust((u32, u32), Seq<char>, Seq<char>),
    SendCloseFind,
    FocusFindEntry,
    ClearFindEntry,
    ScheduleFocus(u64, (u32, u32)),
}

impl View for ViewStep {
    type V = Wish;

    open spec fn view(&self) -> Wish {
        match self {
            ViewStep::Output(MessageViewOutput::AllowSender(a)) => Wish::AllowSender(a@),
            ViewStep::Output(MessageViewOutput::OpenWindow(m)) => Wish::OpenWindow(m@),
            ViewStep::Output(MessageViewOutput::SelectCards(keys)) => Wish::SelectCards(keys@),
            ViewStep::Output(MessageViewOutput::MarkSeen { account_id, id }) => Wish::MarkSeen(
                (*account_id, *id),
            ),
            ViewStep::Output(MessageViewOutput::CardAction { action, message }) => Wish::CardAction(
                *action,
                message@,
            ),
            ViewStep::Output(MessageViewOutput::ContactSender(m)) => Wish::ContactSender(m@),
            ViewStep::Output(MessageViewOutput::ComposeTo(a)) => Wish::ComposeTo(a@),
            ViewStep::Output(MessageViewOutput::AddContactAddr(a)) => Wish::AddContactAddr(a@),
            ViewStep::Output(MessageViewOutput::ReloadBody(m)) => Wish::ReloadBody(m@),
            ViewStep::Output(MessageViewOutput::Notice(t)) => Wish::Notice(t@),
            ViewStep::HideLinkPreview => Wish::HideLinkPreview,
            ViewStep::PaintChip(css) => Wish::PaintChip(css@),
            ViewStep::PaintCover => Wish::PaintCover,
            ViewStep::Render => Wish::Render,
            ViewStep::Print => Wish::Print,
            ViewStep::PrintPreview => Wish::PrintPreview,
            ViewStep::RunScript(js) => Wish::RunScript(js@),
            ViewStep::ShowSender { account_id, id } => Wish::ShowSender((*account_id, *id)),
            ViewStep::FetchKey { account_id, id } => Wish::FetchKey((*account_id, *id)),
            ViewStep::AskTrust { account_id, id, signer, key_id } => Wish::AskTrust(
                (*account_id, *id),
                signer@,
                key_id@,
            ),
            ViewStep::SendCloseFind => Wish::SendCloseFind,
            ViewStep::FocusFindEntry => Wish::FocusFindEntry,
            ViewStep::ClearFindEntry => Wish::ClearFindEntry,
            ViewStep::ScheduleFocus { generation, account_id, id } => Wish::ScheduleFocus(
                *generation,
                (*account_id, *id),
            ),
        }
    }
}

pub open spec fn wishes(v: Seq<ViewStep>) -> Seq<Wish> {
    v.map_values(|s: ViewStep| s@)
}

fn no_steps() -> (steps: Vec<ViewStep>)
    ensures
        wishes(steps@) == Seq::<Wish>::empty(),
{
    let steps: Vec<ViewStep> = Vec::new();
    proof {
        assert(wishes(steps@) =~= seq![]);
    }
    steps
}

fn one_step(step: ViewStep) -> (steps: Vec<ViewStep>)
    ensures
        wishes(steps@) == seq![step@],
{
    let mut steps: Vec<ViewStep> = Vec::new();
    steps.push(step);
    proof {
        assert(wishes(steps@) =~= seq![step@]);
    }
    steps
}

fn add_step(steps: &mut Vec<ViewStep>, step: ViewStep)
    ensures
        wishes(final(steps)@) == wishes(old(steps)@).push(step@),
{
    let ghost had = wishes(steps@);
    steps.push(step);
    proof {
        assert(wishes(steps@) =~= had.push(step@));
    }
}

fn add_steps(steps: &mut Vec<ViewStep>, more: Vec<ViewStep>)
    ensures
        wishes(final(steps)@) == wishes(old(steps)@) + wishes(more@),
{
    let ghost had = wishes(steps@);
    let ghost new = wishes(more@);
    let mut rest = more;
    steps.append(&mut rest);
    proof {
        assert(wishes(steps@) =~= had + new);
    }
}

fn run(script: String) -> (steps: Vec<ViewStep>)
    ensures
        wishes(steps@) == seq![Wish::RunScript(script@)],
{
    one_step(ViewStep::RunScript(script))
}

// ----- What each input does -----

/// The reader and what it asks for.
pub type Turn = (ReaderState, Seq<Wish>);

/// Whether any of the messages references remote resources.
pub open spec fn any_remote(thread: Seq<Mail>) -> bool {
    exists|i: int| 0 <= i < thread.len() && remote_places((#[trigger] thread[i]).body).len() > 0
}

/// The messages with the one of that key changed.
pub open spec fn changed(thread: Seq<Mail>, key: (u32, u32), f: spec_fn(Mail) -> Mail) -> Seq<Mail> {
    thread.map_values(
        |m: Mail|
            if m.key() == key {
                f(m)
            } else {
                m
            },
    )
}

/// The number from `i` on of the first message with that key, or how many there are.
pub open spec fn find_mail(thread: Seq<Mail>, key: (u32, u32), i: int) -> int
    decreases thread.len() - i,
{
    if i >= thread.len() {
        thread.len() as int
    } else if thread[i].key() == key {
        i
    } else {
        find_mail(thread, key, i + 1)
    }
}

/// The number from `i` on of the verdict on that message, or how many there are.
pub open spec fn find_check(checks: Seq<((u32, u32), SenderCheck)>, key: (u32, u32), i: int) -> int
    decreases checks.len() - i,
{
    if i >= checks.len() {
        checks.len() as int
    } else if checks[i].0 == key {
        i
    } else {
        find_check(checks, key, i + 1)
    }
}

/// The number from `i` on of that key, or how many there are.
pub open spec fn find_pair(keys: Seq<(u32, u32)>, key: (u32, u32), i: int) -> int
    decreases keys.len() - i,
{
    if i >= keys.len() {
        keys.len() as int
    } else if keys[i] == key {
        i
    } else {
        find_pair(keys, key, i + 1)
    }
}

/// Those of the keys that are among the others.
pub open spec fn among(keys: Seq<(u32, u32)>, order: Seq<(u32, u32)>) -> Seq<(u32, u32)>
    decreases keys.len(),
{
    if keys.len() == 0 {
        seq![]
    } else {
        let rest = among(keys.drop_last(), order);
        if order.contains(keys.last()) {
            rest.push(keys.last())
        } else {
            rest
        }
    }
}

/// Whether two styles are the same.
pub open spec fn same_style(a: ReaderStyle, b: ReaderStyle) -> bool {
    &&& a.colors == b.colors
    &&& match (a.font, b.font) {
        (Some(f), Some(g)) => {
            &&& opt_text(f.family) == opt_text(g.family)
            &&& f.size == g.size
            &&& f.absolute == g.absolute
            &&& f.weight == g.weight
            &&& f.slant == g.slant
            &&& f.stretch == g.stretch
        },
        (None, None) => true,
        _ => false,
    }
}

/// Whether two tags are the same: by what they are called, their colour and their keyword.
pub open spec fn same_tag(a: TagChip, b: TagChip) -> bool {
    a.keyword@ == b.keyword@ && a.label@ == b.label@ && a.color@ == b.color@
}

pub open spec fn same_tags(a: Seq<TagChip>, b: Seq<TagChip>) -> bool {
    &&& a.len() == b.len()
    &&& forall|i: int| 0 <= i < a.len() ==> same_tag(#[trigger] a[i], b[i])
}

impl ReaderState {
    /// The demand for a new document, if one is on screen.
    pub open spec fn redraw(self) -> Seq<Wish> {
        if self.content.current is Some && !self.content.loading {
            seq![Wish::Render]
        } else {
            seq![]
        }
    }

    /// The demand to outline the selected cards. A lone card never wears the outline.
    pub open spec fn outline(self) -> Seq<Wish> {
        if self.content.thread.len() <= 1 {
            seq![]
        } else {
            seq![Wish::RunScript(select_script(self.marks.selected_cards))]
        }
    }

    /// The keys of the conversation, in the order in which it is shown.
    pub open spec fn order(self) -> Seq<(u32, u32)> {
        self.content.thread.map_values(|m: Mail| m.key())
    }

    /// A conversation is shown. Where it is another message than before, what was known
    /// of the last one is forgotten. While the body is still being fetched there is
    /// nothing to draw.
    #[verifier::opaque]
    pub open spec fn show(self, o: Opening) -> Turn {
        let thread = mails(o.thread@);
        let shown = match o.primary {
            Some(p) => Some(p@),
            None => if thread.len() > 0 {
                Some(thread[0])
            } else {
                None
            },
        };
        let same_message = self.content.current is Some && shown is Some && (self.content.current->0).key() == (
        shown->0).key();
        let fresh = if same_message {
            self
        } else {
            ReaderState {
                checks: Verdicts { sender_check: None, member_checks: seq![], ..self.checks },
                marks: Marking { no_autoread: Set::empty(), ..self.marks },
                drawing: Drawing { did_autoscroll: false, saved_anchor: None, ..self.drawing },
                ..self
            }
        };
        let s = ReaderState {
            content: Shown {
                current: shown,
                thread,
                folder_labels: o.folder_labels@,
                account_name: o.account_name,
                loading: o.loading,
                instant: o.instant,
                remote_allowed: o.allow_remote,
                blocked: any_remote(thread) && !o.allow_remote,
                ..fresh.content
            },
            ..fresh
        };
        (
            s,
            seq![Wish::HideLinkPreview] + (match o.chip_css {
                Some(css) => seq![Wish::PaintChip(css@)],
                None => seq![],
            }) + seq![Wish::PaintCover] + (if o.loading {
                seq![]
            } else {
                seq![Wish::Render]
            }),
        )
    }

    /// Remote content is permitted for what is on screen.
    pub open spec fn unblocked(self) -> ReaderState {
        ReaderState { content: Shown { remote_allowed: true, blocked: false, ..self.content }, ..self }
    }

    #[verifier::opaque]
    pub open spec fn allow_sender_always(self) -> Turn {
        (
            self.unblocked(),
            (match self.content.current {
                Some(m) => seq![Wish::AllowSender(m.from_addr)],
                None => seq![],
            }).push(Wish::Render),
        )
    }

    #[verifier::opaque]
    pub open spec fn set_content_theme(self, o: Option<bool>) -> Turn {
        if self.looks.content_dark != o {
            let s = ReaderState { looks: Looks { content_dark: o, ..self.looks }, ..self };
            (s, seq![Wish::PaintCover] + s.redraw())
        } else {
            (self, seq![])
        }
    }

    #[verifier::opaque]
    pub open spec fn set_reader_style(self, style: ReaderStyle) -> Turn {
        if same_style(self.reader_style, style) {
            (self, seq![])
        } else {
            let s = ReaderState { reader_style: style, ..self };
            (s, s.redraw())
        }
    }

    #[verifier::opaque]
    pub open spec fn toggle_sender_style(self, key: (u32, u32)) -> Turn {
        let k = packed(key);
        let s = ReaderState { marks: Marking { sender_style: if self.marks.sender_style.contains(k) {
                self.marks.sender_style.remove(k)
            } else {
                self.marks.sender_style.insert(k)
            }, ..self.marks }, ..self };
        (s, s.redraw())
    }

    /// The verdict on a member arrived. Its seal is lit at once where the document has
    /// been drawn, and with the document otherwise.
    #[verifier::opaque]
    pub open spec fn sender_check_for(self, key: (u32, u32), check: SenderCheck) -> Turn {
        let k = find_check(self.checks.member_checks, key, 0);
        let s = ReaderState { checks: Verdicts { member_checks: if k < self.checks.member_checks.len() {
                self.checks.member_checks.update(k, (key, check))
            } else {
                self.checks.member_checks.push((key, check))
            }, ..self.checks }, ..self };
        (
            s,
            if self.drawing.webview_ready {
                seq![Wish::RunScript(badge_script(key, check))]
            } else {
                seq![]
            },
        )
    }

    /// The verdict on a message.
    pub open spec fn check_of(self, key: (u32, u32)) -> Option<SenderCheck> {
        let k = find_check(self.checks.member_checks, key, 0);
        if k < self.checks.member_checks.len() {
            Some(self.checks.member_checks[k].1)
        } else {
            None
        }
    }

    #[verifier::opaque]
    pub open spec fn sender_info_at(self, key: (u32, u32)) -> Turn {
        (
            self,
            if self.check_of(key) is Some {
                seq![Wish::ShowSender(key)]
            } else {
                seq![]
            },
        )
    }

    #[verifier::opaque]
    pub open spec fn pgp_fetch_key(self, key: (u32, u32)) -> Turn {
        (
            self,
            match self.check_of(key) {
                Some(c) => if c.pgp is Some {
                    seq![Wish::FetchKey(key)]
                } else {
                    seq![]
                },
                None => seq![],
            },
        )
    }

    /// Only a good signature's key can be vouched for.
    #[verifier::opaque]
    pub open spec fn pgp_trust_key(self, key: (u32, u32)) -> Turn {
        (
            self,
            match self.check_of(key) {
                Some(c) => match c.pgp {
                    Some(p) => match p.good {
                        Some(g) => seq![Wish::AskTrust(key, g.signer@, g.key_id@)],
                        None => seq![],
                    },
                    None => seq![],
                },
                None => seq![],
            },
        )
    }

    #[verifier::opaque]
    pub open spec fn pgp_done(self, key: (u32, u32), result: Result<String, String>) -> Turn {
        let k = find_mail(self.content.thread, key, 0);
        (
            self,
            match result {
                Ok(text) => seq![Wish::Notice(text@)] + (if k < self.content.thread.len() {
                    seq![Wish::ReloadBody(self.content.thread[k])]
                } else {
                    seq![]
                }),
                Err(e) => seq![Wish::Notice(e@)],
            },
        )
    }

    /// The seals of all verdicts that have arrived.
    pub open spec fn badges(checks: Seq<((u32, u32), SenderCheck)>) -> Seq<Wish> {
        checks.map_values(
            |c: ((u32, u32), SenderCheck)| Wish::RunScript(badge_script(c.0, c.1)),
        )
    }

    #[verifier::opaque]
    pub open spec fn drawn(self) -> Turn {
        (ReaderState { drawing: Drawing { webview_ready: true, ..self.drawing }, ..self }, Self::badges(self.checks.member_checks))
    }

    /// A message is marked unread by hand: it keeps the mark until the conversation is
    /// opened again.
    #[verifier::opaque]
    pub open spec fn suppress_auto_read(self, key: (u32, u32)) -> Turn {
        (
            ReaderState {
                marks: Marking {
                    no_autoread: self.marks.no_autoread.insert(packed(key)),
                    ..self.marks
                },
                content: Shown {
                    thread: changed(self.content.thread, key, |m: Mail| Mail { unread: true, ..m }),
                    ..self.content
                },
                ..self
            },
            seq![Wish::RunScript(dot_script(key))],
        )
    }

    /// Another selection.
    pub open spec fn selecting(self, keys: Seq<(u32, u32)>) -> Turn {
        let s = ReaderState { marks: Marking { selected_cards: keys, ..self.marks }, ..self };
        (s, s.outline().push(Wish::SelectCards(keys)))
    }

    #[verifier::opaque]
    pub open spec fn clear_cards(self) -> Turn {
        if self.marks.selected_cards.len() > 0 {
            self.selecting(seq![])
        } else {
            (self, seq![])
        }
    }

    /// The selection that a click leads to, before what is not in the conversation is
    /// left out.
    pub open spec fn clicked_keys(self, key: (u32, u32), mode: SelectMode) -> Seq<(u32, u32)> {
        let order = self.order();
        let at = find_pair(order, key, 0);
        match mode {
            SelectMode::Plain => seq![key],
            SelectMode::Toggle => {
                let k = find_pair(self.marks.selected_cards, key, 0);
                if k < self.marks.selected_cards.len() {
                    self.marks.selected_cards.remove(k)
                } else {
                    self.marks.selected_cards.push(key)
                }
            },
            SelectMode::Range => {
                let first = if self.marks.selected_cards.len() > 0 {
                    find_pair(order, self.marks.selected_cards[0], 0)
                } else {
                    order.len() as int
                };
                let anchor = if first < order.len() {
                    first
                } else if at < order.len() {
                    at
                } else {
                    0
                };
                let here = if at < order.len() {
                    at
                } else {
                    anchor
                };
                if anchor <= here {
                    order.subrange(anchor, here + 1)
                } else {
                    order.subrange(here, anchor + 1)
                }
            },
        }
    }

    /// A card is clicked. Only in a conversation: a lone message is the selection already.
    #[verifier::opaque]
    pub open spec fn card_clicked(self, key: (u32, u32), mode: SelectMode) -> Turn {
        if self.content.thread.len() <= 1 {
            (self, seq![])
        } else {
            self.selecting(among(self.clicked_keys(key, mode), self.order()))
        }
    }

    #[verifier::opaque]
    pub open spec fn select_all_cards(self) -> Turn {
        if self.content.thread.len() <= 1 || self.marks.selected_cards == self.order() {
            (self, seq![])
        } else {
            self.selecting(self.order())
        }
    }

    /// The list's selection. A lone message there is merely the one that is open, and is
    /// not outlined.
    #[verifier::opaque]
    pub open spec fn set_selected_cards(self, keys: Seq<(u32, u32)>) -> Turn {
        let several = if keys.len() == 1 {
            seq![]
        } else {
            keys
        };
        if self.marks.selected_cards != several {
            let s = ReaderState { marks: Marking { selected_cards: several, ..self.marks }, ..self };
            (s, s.outline())
        } else {
            (self, seq![])
        }
    }

    /// A frame's height is remembered; where there are many, the others are forgotten.
    #[verifier::opaque]
    pub open spec fn frame_sized(self, key: (u32, u32), height: u32) -> Turn {
        let kept = if self.marks.frame_heights.len() > 512 {
            Map::empty()
        } else {
            self.marks.frame_heights
        };
        (ReaderState {
            marks: Marking { frame_heights: kept.insert(packed(key), height), ..self.marks },
            ..self
        }, seq![])
    }

    /// A message has been in view. One that was marked unread by hand keeps its mark.
    #[verifier::opaque]
    pub open spec fn mark_seen(self, key: (u32, u32)) -> Turn {
        if self.marks.no_autoread.contains(packed(key)) {
            (self, seq![])
        } else {
            (
                ReaderState {
                    content: Shown {
                        thread: changed(self.content.thread, key, |m: Mail| Mail { unread: false, ..m }),
                        ..self.content
                    },
                    ..self
                },
                if exists|i: int|
                    0 <= i < self.content.thread.len() && (#[trigger] self.content.thread[i]).key() == key
                        && self.content.thread[i].unread {
                    seq![Wish::MarkSeen(key)]
                } else {
                    seq![]
                },
            )
        }
    }

    /// What is wished for of a message of the conversation.
    pub open spec fn of_mail(self, key: (u32, u32), wish: spec_fn(Mail) -> Wish) -> Seq<Wish> {
        let k = find_mail(self.content.thread, key, 0);
        if k < self.content.thread.len() {
            seq![wish(self.content.thread[k])]
        } else {
            seq![]
        }
    }

    #[verifier::opaque]
    pub open spec fn card_action(self, action: RowAction, key: (u32, u32)) -> Turn {
        (self, self.of_mail(key, |m: Mail| Wish::CardAction(action, m)))
    }

    #[verifier::opaque]
    pub open spec fn card_contact(self, key: (u32, u32)) -> Turn {
        (self, self.of_mail(key, |m: Mail| Wish::ContactSender(m)))
    }

    #[verifier::opaque]
    pub open spec fn open_header(self, key: (u32, u32)) -> Turn {
        (self, self.of_mail(key, |m: Mail| Wish::OpenWindow(m)))
    }

    #[verifier::opaque]
    pub open spec fn set_card_actions_mode(self, hover_toggle: bool, hover_auto: bool) -> Turn {
        if self.looks.card_actions_hover != hover_toggle || self.looks.card_actions_auto != hover_auto {
            let s = ReaderState {
                looks: Looks {
                    card_actions_hover: hover_toggle,
                    card_actions_auto: hover_auto,
                    ..self.looks
                },
                ..self
            };
            (s, s.redraw())
        } else {
            (self, seq![])
        }
    }

    #[verifier::opaque]
    pub open spec fn set_palette_collapse(self, secs: u64) -> Turn {
        if self.looks.palette_collapse_secs != secs {
            let s = ReaderState { looks: Looks { palette_collapse_secs: secs, ..self.looks }, ..self };
            (s, s.redraw())
        } else {
            (self, seq![])
        }
    }

    #[verifier::opaque]
    pub open spec fn clear_dot(self, key: (u32, u32)) -> Turn {
        (
            ReaderState {
                content: Shown {
                    thread: changed(self.content.thread, key, |m: Mail| Mail { unread: false, ..m }),
                    ..self.content
                },
                ..self
            },
            seq![Wish::RunScript(clear_dot_script(key))],
        )
    }

    #[verifier::opaque]
    pub open spec fn set_card_star(self, key: (u32, u32), starred: bool) -> Turn {
        (
            ReaderState {
                content: Shown {
                    thread: changed(self.content.thread, key, |m: Mail| Mail { starred, ..m }),
                    ..self.content
                },
                ..self
            },
            seq![Wish::RunScript(star_script(key, starred))],
        )
    }

    #[verifier::opaque]
    pub open spec fn set_card_keywords(self, key: (u32, u32), keywords: Seq<Seq<char>>) -> Turn {
        let chips = chips_html(self.labels.tags, keywords, self.labels.tags.len());
        (
            ReaderState {
                content: Shown {
                    thread: changed(self.content.thread, key, |m: Mail| Mail { keywords, ..m }),
                    current: match self.content.current {
                        Some(m) => Some(
                            if m.key() == key {
                                Mail { keywords, ..m }
                            } else {
                                m
                            },
                        ),
                        None => None,
                    },
                    ..self.content
                },
                ..self
            },
            seq![Wish::RunScript(chips_script(key, chips))],
        )
    }

    /// The chips are part of the document: it is drawn again.
    #[verifier::opaque]
    pub open spec fn set_tags(self, tags: Seq<TagChip>) -> Turn {
        if same_tags(self.labels.tags, tags) {
            (self, seq![])
        } else if self.content.thread.len() > 0 {
            (ReaderState {
                labels: Labels { tags, header_tags: None, ..self.labels },
                drawing: Drawing { fingerprint: None, ..self.drawing },
                ..self
            }, seq![Wish::Render])
        } else {
            (ReaderState { labels: Labels { tags, header_tags: None, ..self.labels }, ..self }, seq![])
        }
    }

    #[verifier::opaque]
    pub open spec fn set_read_mark(self, policy: ReadMark) -> Turn {
        if self.looks.read_mark != policy {
            let s = ReaderState { looks: Looks { read_mark: policy, ..self.looks }, ..self };
            (s, s.redraw())
        } else {
            (self, seq![])
        }
    }

    /// The search is opened. Where it is open it is closed instead, and where it closed a
    /// moment ago it stays closed: the click that asks for it is the one that closed it.
    #[verifier::opaque]
    pub open spec fn open_find(self, since_closed: u64) -> Turn {
        if self.find.find_open {
            (self, seq![Wish::SendCloseFind])
        } else if self.find.find_closed && since_closed < 300 {
            (ReaderState { find: Finding { find_closed: false, ..self.find }, ..self }, seq![])
        } else {
            (
                ReaderState {
                    find: Finding { find_closed: false, find_open: true, ..self.find },
                    ..self
                },
                seq![Wish::FocusFindEntry],
            )
        }
    }

    #[verifier::opaque]
    pub open spec fn close_find(self) -> Turn {
        (
            ReaderState {
                find: Finding {
                    find_open: false,
                    find_closed: true,
                    find_matches: None,
                    ..self.find
                },
                ..self
            },
            seq![Wish::ClearFindEntry, Wish::RunScript("vireoFindClear()"@)],
        )
    }

    #[verifier::opaque]
    pub open spec fn find_changed(self, text: Seq<char>) -> Turn {
        let t = trim(text);
        if t.len() == 0 {
            (
                ReaderState { find: Finding { find_matches: None, ..self.find }, ..self },
                seq![Wish::RunScript("vireoFindClear()"@)],
            )
        } else {
            (self, seq![Wish::RunScript(find_script(t))])
        }
    }

    #[verifier::opaque]
    pub open spec fn focus_card(self, key: (u32, u32)) -> Turn {
        let generation = self.drawing.focus_gen.wrapping_add(1);
        (
            ReaderState { drawing: Drawing { focus_gen: generation, ..self.drawing }, ..self },
            seq![Wish::ScheduleFocus(generation, key)],
        )
    }

    #[verifier::opaque]
    pub open spec fn blur_card(self) -> Turn {
        (
            ReaderState {
                drawing: Drawing {
                    focus_gen: self.drawing.focus_gen.wrapping_add(1),
                    ..self.drawing
                },
                ..self
            },
            seq![Wish::RunScript(BLUR_SCRIPT@)] + self.outline(),
        )
    }
}

/// What an input makes of the reader, and what it asks for.
pub open spec fn view_step(s: ReaderState, msg: MessageViewInput) -> Turn {
    match msg {
        MessageViewInput::SetBannerShown(show) => (ReaderState {
            looks: Looks { show_banner: show, ..s.looks },
            ..s
        }, seq![]),
        MessageViewInput::SetAlwaysShowRecipients(on) => (
            ReaderState { looks: Looks { always_show_recipients: on, ..s.looks }, ..s },
            seq![],
        ),
        MessageViewInput::SetSingleMessageCard(on) => (
            ReaderState { looks: Looks { single_message_card: on, ..s.looks }, ..s },
            seq![],
        ),
        MessageViewInput::Show(opening) => s.show(opening),
        MessageViewInput::LoadRemoteOnce => (s.unblocked(), seq![Wish::Render]),
        MessageViewInput::AllowSenderAlways => s.allow_sender_always(),
        MessageViewInput::ThemeChanged => (s, seq![Wish::PaintCover] + s.redraw()),
        MessageViewInput::Print => (s, seq![Wish::Print]),
        MessageViewInput::PrintPreview => (s, seq![Wish::PrintPreview]),
        MessageViewInput::SetContentTheme(o) => s.set_content_theme(o),
        MessageViewInput::SetReaderStyle(style) => s.set_reader_style(style),
        MessageViewInput::ToggleSenderStyle { account_id, id } => s.toggle_sender_style(
            (account_id, id),
        ),
        MessageViewInput::PgpFetchKey { account_id, id } => s.pgp_fetch_key((account_id, id)),
        MessageViewInput::PgpTrustKey { account_id, id } => s.pgp_trust_key((account_id, id)),
        MessageViewInput::PgpDone { account_id, id, result } => s.pgp_done((account_id, id), result),
        MessageViewInput::Rendered => s.drawn(),
        MessageViewInput::SetSenderCheck(check) => (
            ReaderState { checks: Verdicts { sender_check: Some(*check), ..s.checks }, ..s },
            seq![],
        ),
        MessageViewInput::SenderCheckFor { account_id, id, check } => s.sender_check_for(
            (account_id, id),
            *check,
        ),
        MessageViewInput::SenderInfoAt { account_id, id } => s.sender_info_at((account_id, id)),
        MessageViewInput::OpenHeader { account_id, id } => s.open_header((account_id, id)),
        MessageViewInput::SuppressAutoRead { account_id, id } => s.suppress_auto_read(
            (account_id, id),
        ),
        MessageViewInput::ClearCards => s.clear_cards(),
        MessageViewInput::CardClicked { account_id, id, mode } => s.card_clicked(
            (account_id, id),
            mode,
        ),
        MessageViewInput::SelectAllCards => s.select_all_cards(),
        MessageViewInput::CopySelection => (s, seq![Wish::RunScript(COPY_SCRIPT@)]),
        MessageViewInput::ComposeTo(addr) => (s, seq![Wish::ComposeTo(addr@)]),
        MessageViewInput::AddContact(addr) => (s, seq![Wish::AddContactAddr(addr@)]),
        MessageViewInput::SetSelectedCards(keys) => s.set_selected_cards(keys@),
        MessageViewInput::FrameSized { account_id, id, height } => s.frame_sized(
            (account_id, id),
            height,
        ),
        MessageViewInput::MarkSeen { account_id, id } => s.mark_seen((account_id, id)),
        MessageViewInput::CardAction { action, account_id, id } => s.card_action(
            action,
            (account_id, id),
        ),
        MessageViewInput::CardContact { account_id, id } => s.card_contact((account_id, id)),
        MessageViewInput::SetCardActionsMode { hover_toggle, hover_auto } => s.set_card_actions_mode(
            hover_toggle,
            hover_auto,
        ),
        MessageViewInput::SetPaletteCollapse(secs) => s.set_palette_collapse(secs),
        MessageViewInput::ClearDot { account_id, id } => s.clear_dot((account_id, id)),
        MessageViewInput::SetCardStar { account_id, id, starred } => s.set_card_star(
            (account_id, id),
            starred,
        ),
        MessageViewInput::SetCardKeywords { account_id, id, keywords } => s.set_card_keywords(
            (account_id, id),
            texts(keywords@),
        ),
        MessageViewInput::SetTags(tags) => s.set_tags(tags@),
        MessageViewInput::SetReadMark(policy) => s.set_read_mark(policy),
        MessageViewInput::OpenFind { since_closed } => s.open_find(since_closed),
        MessageViewInput::CloseFind => s.close_find(),
        MessageViewInput::FindChanged(text) => s.find_changed(text@),
        MessageViewInput::FindNext => (s, seq![Wish::RunScript("vireoFindStep(1)"@)]),
        MessageViewInput::FindPrev => (s, seq![Wish::RunScript("vireoFindStep(-1)"@)]),
        MessageViewInput::FindCounted { current, total } => (
            ReaderState { find: Finding { find_matches: Some((current, total)), ..s.find }, ..s },
            seq![],
        ),
        MessageViewInput::FocusCard { account_id, id } => s.focus_card((account_id, id)),
        MessageViewInput::BlurCard => s.blur_card(),
        MessageViewInput::ScrollAnchor { account_id, id, offset } => (
            ReaderState {
                drawing: Drawing { saved_anchor: Some((account_id, id, offset)), ..s.drawing },
                ..s
            },
            seq![],
        ),
    }
}

// ----- Looking things up -----

fn some_remote(thread: &Vec<Message>) -> (r: bool)
    ensures
        r == any_remote(mails(thread@)),
{
    let mut i: usize = 0;
    while i < thread.len()
        invariant
            i <= thread.len(),
            forall|j: int|
                0 <= j < i ==> remote_places((#[trigger] mails(thread@)[j]).body).len() == 0,
        decreases thread.len() - i,
    {
        if has_remote_resources(thread[i].body.as_str()) {
            proof {
                assert(remote_places(mails(thread@)[i as int].body).len() > 0);
            }
            return true;
        }
        i = i + 1;
    }
    false
}

fn find_message(thread: &Vec<Message>, key: (u32, u32)) -> (k: usize)
    ensures
        k == find_mail(mails(thread@), key, 0),
        k <= thread@.len(),
{
    let mut i: usize = 0;
    while i < thread.len()
        invariant
            i <= thread.len(),
            find_mail(mails(thread@), key, 0) == find_mail(mails(thread@), key, i as int),
        decreases thread.len() - i,
    {
        if thread[i].account_id == key.0 && thread[i].id == key.1 {
            return i;
        }
        i = i + 1;
    }
    i
}

fn find_verdict(checks: &Vec<((u32, u32), SenderCheck)>, key: (u32, u32)) -> (k: usize)
    ensures
        k == find_check(checks@, key, 0),
        k <= checks@.len(),
{
    let mut i: usize = 0;
    while i < checks.len()
        invariant
            i <= checks.len(),
            find_check(checks@, key, 0) == find_check(checks@, key, i as int),
        decreases checks.len() - i,
    {
        if checks[i].0.0 == key.0 && checks[i].0.1 == key.1 {
            return i;
        }
        i = i + 1;
    }
    i
}

fn find_in(keys: &Vec<(u32, u32)>, key: (u32, u32)) -> (k: usize)
    ensures
        k == find_pair(keys@, key, 0),
        k <= keys@.len(),
{
    let mut i: usize = 0;
    while i < keys.len()
        invariant
            i <= keys.len(),
            find_pair(keys@, key, 0) == find_pair(keys@, key, i as int),
        decreases keys.len() - i,
    {
        if keys[i].0 == key.0 && keys[i].1 == key.1 {
            return i;
        }
        i = i + 1;
    }
    i
}

/// A key is found where it is, and only there.
proof fn lemma_find_pair(keys: Seq<(u32, u32)>, key: (u32, u32), i: int)
    requires
        0 <= i <= keys.len(),
    ensures
        i <= find_pair(keys, key, i) <= keys.len(),
        find_pair(keys, key, i) < keys.len() ==> keys[find_pair(keys, key, i)] == key,
        find_pair(keys, key, i) == keys.len() ==> forall|j: int|
            i <= j < keys.len() ==> keys[j] != key,
    decreases keys.len() - i,
{
    if i < keys.len() && keys[i] != key {
        lemma_find_pair(keys, key, i + 1);
    }
}

fn keep_among(keys: &Vec<(u32, u32)>, order: &Vec<(u32, u32)>) -> (r: Vec<(u32, u32)>)
    ensures
        r@ == among(keys@, order@),
{
    let mut r: Vec<(u32, u32)> = Vec::new();
    let mut i: usize = 0;
    while i < keys.len()
        invariant
            i <= keys.len(),
            r@ == among(keys@.take(i as int), order@),
        decreases keys.len() - i,
    {
        proof {
            let next = keys@.take(i + 1);
            assert(next.drop_last() =~= keys@.take(i as int));
            assert(next.last() == keys@[i as int]);
            lemma_find_pair(order@, keys@[i as int], 0);
        }
        if find_in(order, keys[i]) < order.len() {
            r.push(keys[i]);
        }
        i = i + 1;
    }
    proof {
        assert(keys@.take(keys@.len() as int) =~= keys@);
    }
    r
}

fn copy_keys(keys: &Vec<(u32, u32)>) -> (r: Vec<(u32, u32)>)
    ensures
        r@ == keys@,
{
    part_of(keys, 0, keys.len())
}

fn part_of(keys: &Vec<(u32, u32)>, from: usize, to: usize) -> (r: Vec<(u32, u32)>)
    requires
        from <= to <= keys@.len(),
    ensures
        r@ == keys@.subrange(from as int, to as int),
{
    let mut r: Vec<(u32, u32)> = Vec::new();
    let mut i: usize = from;
    while i < to
        invariant
            from <= i <= to <= keys@.len(),
            r@ == keys@.subrange(from as int, i as int),
        decreases to - i,
    {
        r.push(keys[i]);
        proof {
            assert(keys@.subrange(from as int, i + 1) =~= keys@.subrange(
                from as int,
                i as int,
            ).push(keys@[i as int]));
        }
        i = i + 1;
    }
    r
}

fn same_keys(a: &Vec<(u32, u32)>, b: &Vec<(u32, u32)>) -> (r: bool)
    ensures
        r == (a@ == b@),
{
    if a.len() != b.len() {
        return false;
    }
    let mut i: usize = 0;
    while i < a.len()
        invariant
            i <= a.len(),
            a.len() == b.len(),
            forall|j: int| 0 <= j < i ==> a@[j] == b@[j],
        decreases a.len() - i,
    {
        if a[i].0 != b[i].0 || a[i].1 != b[i].1 {
            return false;
        }
        i = i + 1;
    }
    proof {
        assert(a@ =~= b@);
    }
    true
}

fn thread_keys(thread: &Vec<Message>) -> (r: Vec<(u32, u32)>)
    ensures
        r@ == mails(thread@).map_values(|m: Mail| m.key()),
{
    let ghost want = mails(thread@).map_values(|m: Mail| m.key());
    let mut r: Vec<(u32, u32)> = Vec::new();
    let mut i: usize = 0;
    while i < thread.len()
        invariant
            i <= thread.len(),
            want == mails(thread@).map_values(|m: Mail| m.key()),
            r@ == want.take(i as int),
        decreases thread.len() - i,
    {
        r.push(thread[i].key());
        proof {
            assert(want.take(i + 1) =~= want.take(i as int).push(want[i as int]));
        }
        i = i + 1;
    }
    proof {
        assert(want.take(want.len() as int) =~= want);
    }
    r
}

fn set_unread(thread: &mut Vec<Message>, key: (u32, u32), unread: bool) -> (changes: bool)
    ensures
        mails(final(thread)@) == changed(
            mails(old(thread)@),
            key,
            |m: Mail| Mail { unread, ..m },
        ),
        changes == exists|i: int|
            0 <= i < mails(old(thread)@).len() && (#[trigger] mails(old(thread)@)[i]).key() == key
                && mails(old(thread)@)[i].unread != unread,
{
    let ghost before = mails(thread@);
    let ghost f = |m: Mail| Mail { unread, ..m };
    let mut changes: bool = false;
    let mut i: usize = 0;
    while i < thread.len()
        invariant
            i <= thread.len(),
            thread@.len() == before.len(),
            f == (|m: Mail| Mail { unread, ..m }),
            forall|j: int| i <= j < thread@.len() ==> (#[trigger] thread@[j])@ == before[j],
            forall|j: int|
                0 <= j < i ==> (#[trigger] thread@[j])@ == (if before[j].key() == key {
                    f(before[j])
                } else {
                    before[j]
                }),
            changes == exists|j: int|
                0 <= j < i && (#[trigger] before[j]).key() == key && before[j].unread != unread,
        decreases thread.len() - i,
    {
        if thread[i].account_id == key.0 && thread[i].id == key.1 {
            if thread[i].unread != unread {
                changes = true;
                proof {
                    assert(before[i as int].key() == key);
                }
            }
            thread[i].unread = unread;
        }
        i = i + 1;
    }
    proof {
        assert(mails(thread@) =~= changed(before, key, f));
    }
    changes
}

fn set_starred(thread: &mut Vec<Message>, key: (u32, u32), starred: bool)
    ensures
        mails(final(thread)@) == changed(
            mails(old(thread)@),
            key,
            |m: Mail| Mail { starred, ..m },
        ),
{
    let ghost before = mails(thread@);
    let ghost f = |m: Mail| Mail { starred, ..m };
    let mut i: usize = 0;
    while i < thread.len()
        invariant
            i <= thread.len(),
            thread@.len() == before.len(),
            f == (|m: Mail| Mail { starred, ..m }),
            forall|j: int| i <= j < thread@.len() ==> (#[trigger] thread@[j])@ == before[j],
            forall|j: int|
                0 <= j < i ==> (#[trigger] thread@[j])@ == (if before[j].key() == key {
                    f(before[j])
                } else {
                    before[j]
                }),
        decreases thread.len() - i,
    {
        if thread[i].account_id == key.0 && thread[i].id == key.1 {
            thread[i].starred = starred;
        }
        i = i + 1;
    }
    proof {
        assert(mails(thread@) =~= changed(before, key, f));
    }
}

fn set_keywords(thread: &mut Vec<Message>, key: (u32, u32), list: &Vec<String>)
    ensures
        mails(final(thread)@) == changed(
            mails(old(thread)@),
            key,
            |m: Mail| Mail { keywords: texts(list@), ..m },
        ),
{
    let ghost before = mails(thread@);
    let ghost f = |m: Mail| Mail { keywords: texts(list@), ..m };
    let mut i: usize = 0;
    while i < thread.len()
        invariant
            i <= thread.len(),
            thread@.len() == before.len(),
            f == (|m: Mail| Mail { keywords: texts(list@), ..m }),
            forall|j: int| i <= j < thread@.len() ==> (#[trigger] thread@[j])@ == before[j],
            forall|j: int|
                0 <= j < i ==> (#[trigger] thread@[j])@ == (if before[j].key() == key {
                    f(before[j])
                } else {
                    before[j]
                }),
        decreases thread.len() - i,
    {
        if thread[i].account_id == key.0 && thread[i].id == key.1 {
            thread[i].keywords = copy_strings(list);
        }
        i = i + 1;
    }
    proof {
        assert(mails(thread@) =~= changed(before, key, f));
    }
}

fn is_same_style(a: &ReaderStyle, b: &ReaderStyle) -> (r: bool)
    ensures
        r == same_style(*a, *b),
{
    if a.colors != b.colors {
        return false;
    }
    match (&a.font, &b.font) {
        (Some(f), Some(g)) => {
            let family: bool = match (&f.family, &g.family) {
                (Some(x), Some(y)) => *x == *y,
                (None, None) => true,
                _ => false,
            };
            family && f.size == g.size && f.absolute == g.absolute && f.weight == g.weight
                && f.slant == g.slant && f.stretch == g.stretch
        },
        (None, None) => true,
        _ => false,
    }
}

fn are_same_tags(a: &Vec<TagChip>, b: &Vec<TagChip>) -> (r: bool)
    ensures
        r == same_tags(a@, b@),
{
    if a.len() != b.len() {
        return false;
    }
    let mut i: usize = 0;
    while i < a.len()
        invariant
            i <= a.len(),
            a.len() == b.len(),
            forall|j: int| 0 <= j < i ==> same_tag(#[trigger] a@[j], b@[j]),
        decreases a.len() - i,
    {
        if !(a[i].keyword == b[i].keyword && a[i].label == b[i].label && a[i].color == b[i].color) {
            proof {
                assert(!same_tag(a@[i as int], b@[i as int]));
            }
            return false;
        }
        i = i + 1;
    }
    true
}

// ----- Taking inputs -----

impl MessageView {
    fn redraw(&self) -> (steps: Vec<ViewStep>)
        ensures
            wishes(steps@) == self@.redraw(),
    {
        if self.content.current.is_some() && !self.content.loading {
            one_step(ViewStep::Render)
        } else {
            no_steps()
        }
    }

    /// Outlines the selected cards in the document on screen. Drawing it again would lose
    /// the reader's place.
    fn apply_card_selection(&self) -> (steps: Vec<ViewStep>)
        ensures
            wishes(steps@) == self@.outline(),
    {
        if self.content.thread.len() <= 1 {
            no_steps()
        } else {
            run(select_script_text(&self.marks.selected_cards))
        }
    }

    fn select_keys(&mut self, keys: Vec<(u32, u32)>) -> (steps: Vec<ViewStep>)
        ensures
            final(self)@ == old(self)@.selecting(keys@).0,
            wishes(steps@) == old(self)@.selecting(keys@).1,
    {
        self.marks.selected_cards = copy_keys(&keys);
        let mut steps = self.apply_card_selection();
        add_step(&mut steps, ViewStep::Output(MessageViewOutput::SelectCards(keys)));
        steps
    }

    #[verifier::rlimit(60)]
    fn on_show(&mut self, o: Opening) -> (steps: Vec<ViewStep>)
        ensures
            final(self)@ == old(self)@.show(o).0,
            wishes(steps@) == old(self)@.show(o).1,
    {
        proof {
            reveal(ReaderState::show);
        }
        let ghost was = self@;
        let ghost given = o;
        let shown: Option<Message> = match o.primary {
            Some(p) => Some(*p),
            None => if o.thread.len() > 0 {
                Some(o.thread[0].copy())
            } else {
                None
            },
        };
        let same_message: bool = match (&self.content.current, &shown) {
            (Some(a), Some(b)) => a.id == b.id && a.account_id == b.account_id,
            _ => false,
        };
        if !same_message {
            self.checks.sender_check = None;
            self.checks.member_checks = Vec::new();
            self.marks.no_autoread = HashSet::new();
            self.drawing.did_autoscroll = false;
            self.drawing.saved_anchor = None;
        }
        self.content.current = shown;
        let remote = some_remote(&o.thread);
        self.content.thread = o.thread;
        self.content.folder_labels = o.folder_labels;
        self.content.account_name = o.account_name;
        self.content.loading = o.loading;
        self.content.instant = o.instant;
        self.content.remote_allowed = o.allow_remote;
        self.content.blocked = remote && !o.allow_remote;
        let mut steps = one_step(ViewStep::HideLinkPreview);
        if let Some(css) = o.chip_css {
            add_step(&mut steps, ViewStep::PaintChip(css));
        }
        add_step(&mut steps, ViewStep::PaintCover);
        if !self.content.loading {
            add_step(&mut steps, ViewStep::Render);
        }
        proof {
            assert(self@ == was.show(given).0);
            assert(wishes(steps@) =~= was.show(given).1);
        }
        steps
    }

    fn unblock(&mut self)
        ensures
            final(self)@ == old(self)@.unblocked(),
    {
        self.content.remote_allowed = true;
        self.content.blocked = false;
    }

    #[verifier::rlimit(30)]
    fn on_allow_sender_always(&mut self) -> (steps: Vec<ViewStep>)
        ensures
            final(self)@ == old(self)@.allow_sender_always().0,
            wishes(steps@) == old(self)@.allow_sender_always().1,
    {
        proof {
            reveal(ReaderState::allow_sender_always);
        }
        let mut steps = no_steps();
        if let Some(m) = &self.content.current {
            steps = one_step(
                ViewStep::Output(MessageViewOutput::AllowSender(copy_of(m.from_addr.as_str()))),
            );
        }
        self.unblock();
        add_step(&mut steps, ViewStep::Render);
        steps
    }

    #[verifier::rlimit(30)]
    fn on_set_content_theme(&mut self, o: Option<bool>) -> (steps: Vec<ViewStep>)
        ensures
            final(self)@ == old(self)@.set_content_theme(o).0,
            wishes(steps@) == old(self)@.set_content_theme(o).1,
    {
        proof {
            reveal(ReaderState::set_content_theme);
        }
        let same: bool = match (self.looks.content_dark, o) {
            (Some(a), Some(b)) => a == b,
            (None, None) => true,
            _ => false,
        };
        if same {
            return no_steps();
        }
        self.looks.content_dark = o;
        let mut steps = one_step(ViewStep::PaintCover);
        let more = self.redraw();
        add_steps(&mut steps, more);
        steps
    }

    fn on_set_reader_style(&mut self, style: ReaderStyle) -> (steps: Vec<ViewStep>)
        ensures
            final(self)@ == old(self)@.set_reader_style(style).0,
            wishes(steps@) == old(self)@.set_reader_style(style).1,
    {
        proof {
            reveal(ReaderState::set_reader_style);
        }
        if is_same_style(&self.reader_style, &style) {
            return no_steps();
        }
        self.reader_style = style;
        self.redraw()
    }

    fn on_toggle_sender_style(&mut self, key: (u32, u32)) -> (steps: Vec<ViewStep>)
        ensures
            final(self)@ == old(self)@.toggle_sender_style(key).0,
            wishes(steps@) == old(self)@.toggle_sender_style(key).1,
    {
        proof {
            reveal(ReaderState::toggle_sender_style);
        }
        let k = message_key(key.0, key.1);
        if self.marks.sender_style.contains(&k) {
            self.marks.sender_style.remove(&k);
        } else {
            self.marks.sender_style.insert(k);
        }
        self.redraw()
    }

    fn on_sender_check_for(&mut self, key: (u32, u32), check: SenderCheck) -> (steps: Vec<ViewStep>)
        ensures
            final(self)@ == old(self)@.sender_check_for(key, check).0,
            wishes(steps@) == old(self)@.sender_check_for(key, check).1,
    {
        proof {
            reveal(ReaderState::sender_check_for);
        }
        let ghost was = self@;
        let steps: Vec<ViewStep> = if self.drawing.webview_ready {
            run(badge_script_text(key, &check))
        } else {
            no_steps()
        };
        let k = find_verdict(&self.checks.member_checks, key);
        if k < self.checks.member_checks.len() {
            self.checks.member_checks.set(k, (key, check));
        } else {
            self.checks.member_checks.push((key, check));
        }
        steps
    }

    /// The verdict on a message, if one has arrived.
    pub fn check_for(&self, account_id: u32, id: u32) -> (r: Option<&SenderCheck>)
        ensures
            (match r {
                Some(c) => Some(*c),
                None => None,
            }) == self@.check_of((account_id, id)),
    {
        let k = find_verdict(&self.checks.member_checks, (account_id, id));
        if k < self.checks.member_checks.len() {
            Some(&self.checks.member_checks[k].1)
        } else {
            None
        }
    }

    fn on_sender_info_at(&self, key: (u32, u32)) -> (steps: Vec<ViewStep>)
        ensures
            self@ == self@.sender_info_at(key).0,
            wishes(steps@) == self@.sender_info_at(key).1,
    {
        proof {
            reveal(ReaderState::sender_info_at);
        }
        match self.check_for(key.0, key.1) {
            Some(_) => one_step(ViewStep::ShowSender { account_id: key.0, id: key.1 }),
            None => no_steps(),
        }
    }

    fn on_pgp_fetch_key(&self, key: (u32, u32)) -> (steps: Vec<ViewStep>)
        ensures
            self@ == self@.pgp_fetch_key(key).0,
            wishes(steps@) == self@.pgp_fetch_key(key).1,
    {
        proof {
            reveal(ReaderState::pgp_fetch_key);
        }
        if let Some(c) = self.check_for(key.0, key.1) {
            if c.pgp.is_some() {
                return one_step(ViewStep::FetchKey { account_id: key.0, id: key.1 });
            }
        }
        no_steps()
    }

    fn on_pgp_trust_key(&self, key: (u32, u32)) -> (steps: Vec<ViewStep>)
        ensures
            self@ == self@.pgp_trust_key(key).0,
            wishes(steps@) == self@.pgp_trust_key(key).1,
    {
        proof {
            reveal(ReaderState::pgp_trust_key);
        }
        if let Some(c) = self.check_for(key.0, key.1) {
            if let Some(p) = &c.pgp {
                if let Some(g) = &p.good {
                    return one_step(
                        ViewStep::AskTrust {
                            account_id: key.0,
                            id: key.1,
                            signer: copy_of(g.signer.as_str()),
                            key_id: copy_of(g.key_id.as_str()),
                        },
                    );
                }
            }
        }
        no_steps()
    }

    fn on_pgp_done(&self, key: (u32, u32), result: Result<String, String>) -> (steps: Vec<ViewStep>)
        ensures
            self@ == self@.pgp_done(key, result).0,
            wishes(steps@) == self@.pgp_done(key, result).1,
    {
        proof {
            reveal(ReaderState::pgp_done);
        }
        match result {
            Ok(text) => {
                let mut steps = one_step(ViewStep::Output(MessageViewOutput::Notice(text)));
                let k = find_message(&self.content.thread, key);
                if k < self.content.thread.len() {
                    let m = Box::new(self.content.thread[k].copy());
                    add_step(&mut steps, ViewStep::Output(MessageViewOutput::ReloadBody(m)));
                }
                proof {
                    assert(wishes(steps@) =~= self@.pgp_done(key, result).1);
                }
                steps
            },
            Err(e) => one_step(ViewStep::Output(MessageViewOutput::Notice(e))),
        }
    }

    #[verifier::rlimit(30)]
    fn on_drawn(&mut self) -> (steps: Vec<ViewStep>)
        ensures
            final(self)@ == old(self)@.drawn().0,
            wishes(steps@) == old(self)@.drawn().1,
    {
        proof {
            reveal(ReaderState::drawn);
        }
        let ghost want = ReaderState::badges(self.checks.member_checks@);
        self.drawing.webview_ready = true;
        let mut steps = no_steps();
        let mut i: usize = 0;
        while i < self.checks.member_checks.len()
            invariant
                i <= self.checks.member_checks.len(),
                want == ReaderState::badges(self.checks.member_checks@),
                wishes(steps@) == want.take(i as int),
            decreases self.checks.member_checks.len() - i,
        {
            let js = badge_script_text(self.checks.member_checks[i].0, &self.checks.member_checks[i].1);
            add_step(&mut steps, ViewStep::RunScript(js));
            proof {
                assert(want.take(i + 1) =~= want.take(i as int).push(want[i as int]));
            }
            i = i + 1;
        }
        proof {
            assert(want.take(want.len() as int) =~= want);
        }
        steps
    }

    fn on_suppress_auto_read(&mut self, key: (u32, u32)) -> (steps: Vec<ViewStep>)
        ensures
            final(self)@ == old(self)@.suppress_auto_read(key).0,
            wishes(steps@) == old(self)@.suppress_auto_read(key).1,
    {
        proof {
            reveal(ReaderState::suppress_auto_read);
        }
        self.marks.no_autoread.insert(message_key(key.0, key.1));
        let _ = set_unread(&mut self.content.thread, key, true);
        run(dot_script_text(key))
    }

    fn on_clear_cards(&mut self) -> (steps: Vec<ViewStep>)
        ensures
            final(self)@ == old(self)@.clear_cards().0,
            wishes(steps@) == old(self)@.clear_cards().1,
    {
        proof {
            reveal(ReaderState::clear_cards);
        }
        if self.marks.selected_cards.len() > 0 {
            let keys: Vec<(u32, u32)> = Vec::new();
            proof {
                assert(keys@ =~= seq![]);
            }
            self.select_keys(keys)
        } else {
            no_steps()
        }
    }

    fn clicked_keys(&self, key: (u32, u32), mode: SelectMode, order: &Vec<(u32, u32)>) -> (r: Vec<
        (u32, u32),
    >)
        requires
            order@ == self@.order(),
            order@.len() > 0,
        ensures
            r@ == self@.clicked_keys(key, mode),
    {
        match mode {
            SelectMode::Plain => {
                let r: Vec<(u32, u32)> = vec![key];
                proof {
                    assert(r@ =~= seq![key]);
                }
                r
            },
            SelectMode::Toggle => {
                let mut r = copy_keys(&self.marks.selected_cards);
                let k = find_in(&r, key);
                if k < r.len() {
                    let _ = r.remove(k);
                } else {
                    r.push(key);
                }
                r
            },
            SelectMode::Range => {
                let at = find_in(order, key);
                let first: usize = if self.marks.selected_cards.len() > 0 {
                    find_in(order, self.marks.selected_cards[0])
                } else {
                    order.len()
                };
                let anchor: usize = if first < order.len() {
                    first
                } else if at < order.len() {
                    at
                } else {
                    0
                };
                let here: usize = if at < order.len() {
                    at
                } else {
                    anchor
                };
                if anchor <= here {
                    part_of(order, anchor, here + 1)
                } else {
                    part_of(order, here, anchor + 1)
                }
            },
        }
    }

    #[verifier::rlimit(30)]
    fn on_card_clicked(&mut self, key: (u32, u32), mode: SelectMode) -> (steps: Vec<ViewStep>)
        ensures
            final(self)@ == old(self)@.card_clicked(key, mode).0,
            wishes(steps@) == old(self)@.card_clicked(key, mode).1,
    {
        proof {
            reveal(ReaderState::card_clicked);
        }
        if self.content.thread.len() <= 1 {
            return no_steps();
        }
        let order = thread_keys(&self.content.thread);
        let keys = self.clicked_keys(key, mode, &order);
        let kept = keep_among(&keys, &order);
        self.select_keys(kept)
    }

    fn on_select_all_cards(&mut self) -> (steps: Vec<ViewStep>)
        ensures
            final(self)@ == old(self)@.select_all_cards().0,
            wishes(steps@) == old(self)@.select_all_cards().1,
    {
        proof {
            reveal(ReaderState::select_all_cards);
        }
        if self.content.thread.len() <= 1 {
            return no_steps();
        }
        let order = thread_keys(&self.content.thread);
        if same_keys(&self.marks.selected_cards, &order) {
            return no_steps();
        }
        self.select_keys(order)
    }

    fn on_set_selected_cards(&mut self, keys: Vec<(u32, u32)>) -> (steps: Vec<ViewStep>)
        ensures
            final(self)@ == old(self)@.set_selected_cards(keys@).0,
            wishes(steps@) == old(self)@.set_selected_cards(keys@).1,
    {
        proof {
            reveal(ReaderState::set_selected_cards);
        }
        let several: Vec<(u32, u32)> = if keys.len() == 1 {
            Vec::new()
        } else {
            keys
        };
        if same_keys(&self.marks.selected_cards, &several) {
            return no_steps();
        }
        self.marks.selected_cards = several;
        self.apply_card_selection()
    }

    fn on_frame_sized(&mut self, key: (u32, u32), height: u32) -> (steps: Vec<ViewStep>)
        ensures
            final(self)@ == old(self)@.frame_sized(key, height).0,
            wishes(steps@) == old(self)@.frame_sized(key, height).1,
    {
        proof {
            reveal(ReaderState::frame_sized);
        }
        if self.marks.frame_heights.len() > 512 {
            self.marks.frame_heights.clear();
        }
        self.marks.frame_heights.insert(message_key(key.0, key.1), height);
        no_steps()
    }

    #[verifier::rlimit(30)]
    fn on_mark_seen(&mut self, key: (u32, u32)) -> (steps: Vec<ViewStep>)
        ensures
            final(self)@ == old(self)@.mark_seen(key).0,
            wishes(steps@) == old(self)@.mark_seen(key).1,
    {
        proof {
            reveal(ReaderState::mark_seen);
        }
        let ghost was = self@;
        if self.marks.no_autoread.contains(&message_key(key.0, key.1)) {
            return no_steps();
        }
        let found = set_unread(&mut self.content.thread, key, false);
        if found {
            one_step(
                ViewStep::Output(
                    MessageViewOutput::MarkSeen { account_id: key.0, id: key.1 },
                ),
            )
        } else {
            no_steps()
        }
    }

    fn on_card_action(&self, action: RowAction, key: (u32, u32)) -> (steps: Vec<ViewStep>)
        ensures
            self@ == self@.card_action(action, key).0,
            wishes(steps@) == self@.card_action(action, key).1,
    {
        proof {
            reveal(ReaderState::card_action);
        }
        let k = find_message(&self.content.thread, key);
        if k < self.content.thread.len() {
            let message = Box::new(self.content.thread[k].copy());
            one_step(ViewStep::Output(MessageViewOutput::CardAction { action, message }))
        } else {
            no_steps()
        }
    }

    fn on_card_contact(&self, key: (u32, u32)) -> (steps: Vec<ViewStep>)
        ensures
            self@ == self@.card_contact(key).0,
            wishes(steps@) == self@.card_contact(key).1,
    {
        proof {
            reveal(ReaderState::card_contact);
        }
        let k = find_message(&self.content.thread, key);
        if k < self.content.thread.len() {
            let m = Box::new(self.content.thread[k].copy());
            one_step(ViewStep::Output(MessageViewOutput::ContactSender(m)))
        } else {
            no_steps()
        }
    }

    fn on_open_header(&self, key: (u32, u32)) -> (steps: Vec<ViewStep>)
        ensures
            self@ == self@.open_header(key).0,
            wishes(steps@) == self@.open_header(key).1,
    {
        proof {
            reveal(ReaderState::open_header);
        }
        let k = find_message(&self.content.thread, key);
        if k < self.content.thread.len() {
            let m = Box::new(self.content.thread[k].copy());
            one_step(ViewStep::Output(MessageViewOutput::OpenWindow(m)))
        } else {
            no_steps()
        }
    }

    fn on_set_card_actions_mode(&mut self, hover_toggle: bool, hover_auto: bool) -> (steps: Vec<ViewStep>)
        ensures
            final(self)@ == old(self)@.set_card_actions_mode(hover_toggle, hover_auto).0,
            wishes(steps@) == old(self)@.set_card_actions_mode(hover_toggle, hover_auto).1,
    {
        proof {
            reveal(ReaderState::set_card_actions_mode);
        }
        if self.looks.card_actions_hover != hover_toggle || self.looks.card_actions_auto != hover_auto {
            self.looks.card_actions_hover = hover_toggle;
            self.looks.card_actions_auto = hover_auto;
            self.redraw()
        } else {
            no_steps()
        }
    }

    fn on_set_palette_collapse(&mut self, secs: u64) -> (steps: Vec<ViewStep>)
        ensures
            final(self)@ == old(self)@.set_palette_collapse(secs).0,
            wishes(steps@) == old(self)@.set_palette_collapse(secs).1,
    {
        proof {
            reveal(ReaderState::set_palette_collapse);
        }
        if self.looks.palette_collapse_secs != secs {
            self.looks.palette_collapse_secs = secs;
            self.redraw()
        } else {
            no_steps()
        }
    }

    fn on_clear_dot(&mut self, key: (u32, u32)) -> (steps: Vec<ViewStep>)
        ensures
            final(self)@ == old(self)@.clear_dot(key).0,
            wishes(steps@) == old(self)@.clear_dot(key).1,
    {
        proof {
            reveal(ReaderState::clear_dot);
        }
        let _ = set_unread(&mut self.content.thread, key, false);
        run(clear_dot_script_text(key))
    }

    fn on_set_card_star(&mut self, key: (u32, u32), starred: bool) -> (steps: Vec<ViewStep>)
        ensures
            final(self)@ == old(self)@.set_card_star(key, starred).0,
            wishes(steps@) == old(self)@.set_card_star(key, starred).1,
    {
        proof {
            reveal(ReaderState::set_card_star);
        }
        set_starred(&mut self.content.thread, key, starred);
        run(star_script_text(key, starred))
    }

    fn set_current_keywords(&mut self, key: (u32, u32), list: &Vec<String>)
        ensures
            final(self)@ == (ReaderState { content: Shown { current: match old(self)@.content.current {
                    Some(m) => Some(
                        if m.key() == key {
                            Mail { keywords: texts(list@), ..m }
                        } else {
                            m
                        },
                    ),
                    None => None,
                }, ..old(self)@.content }, ..old(self)@ }),
    {
        if let Some(m) = &mut self.content.current {
            if m.account_id == key.0 && m.id == key.1 {
                m.keywords = copy_strings(list);
            }
        }
    }

    #[verifier::rlimit(30)]
    fn on_set_card_keywords(&mut self, key: (u32, u32), list: &Vec<String>) -> (steps: Vec<ViewStep>)
        ensures
            final(self)@ == old(self)@.set_card_keywords(key, texts(list@)).0,
            wishes(steps@) == old(self)@.set_card_keywords(key, texts(list@)).1,
    {
        proof {
            reveal(ReaderState::set_card_keywords);
        }
        set_keywords(&mut self.content.thread, key, list);
        self.set_current_keywords(key, list);
        let chips = tag_chips_html(&self.labels.tags, list);
        run(chips_script_text(key, chips.as_str()))
    }

    fn on_set_tags(&mut self, tags: Vec<TagChip>) -> (steps: Vec<ViewStep>)
        ensures
            final(self)@ == old(self)@.set_tags(tags@).0,
            wishes(steps@) == old(self)@.set_tags(tags@).1,
    {
        proof {
            reveal(ReaderState::set_tags);
        }
        if are_same_tags(&self.labels.tags, &tags) {
            return no_steps();
        }
        self.labels.tags = tags;
        self.labels.header_tags = None;
        if self.content.thread.len() > 0 {
            self.drawing.fingerprint = None;
            one_step(ViewStep::Render)
        } else {
            no_steps()
        }
    }

    fn on_set_read_mark(&mut self, policy: ReadMark) -> (steps: Vec<ViewStep>)
        ensures
            final(self)@ == old(self)@.set_read_mark(policy).0,
            wishes(steps@) == old(self)@.set_read_mark(policy).1,
    {
        proof {
            reveal(ReaderState::set_read_mark);
        }
        if self.looks.read_mark != policy {
            self.looks.read_mark = policy;
            self.redraw()
        } else {
            no_steps()
        }
    }

    fn on_open_find(&mut self, since_closed: u64) -> (steps: Vec<ViewStep>)
        ensures
            final(self)@ == old(self)@.open_find(since_closed).0,
            wishes(steps@) == old(self)@.open_find(since_closed).1,
    {
        proof {
            reveal(ReaderState::open_find);
        }
        if self.find.find_open {
            return one_step(ViewStep::SendCloseFind);
        }
        let just_closed = self.find.find_closed && since_closed < 300;
        self.find.find_closed = false;
        if just_closed {
            return no_steps();
        }
        self.find.find_open = true;
        one_step(ViewStep::FocusFindEntry)
    }

    fn on_close_find(&mut self) -> (steps: Vec<ViewStep>)
        ensures
            final(self)@ == old(self)@.close_find().0,
            wishes(steps@) == old(self)@.close_find().1,
    {
        proof {
            reveal(ReaderState::close_find);
        }
        self.find.find_open = false;
        self.find.find_closed = true;
        self.find.find_matches = None;
        let mut steps = one_step(ViewStep::ClearFindEntry);
        add_step(&mut steps, ViewStep::RunScript(copy_of("vireoFindClear()")));
        proof {
            assert(wishes(steps@) =~= seq![
                Wish::ClearFindEntry,
                Wish::RunScript("vireoFindClear()"@),
            ]);
        }
        steps
    }

    fn on_find_changed(&mut self, text: &str) -> (steps: Vec<ViewStep>)
        ensures
            final(self)@ == old(self)@.find_changed(text@).0,
            wishes(steps@) == old(self)@.find_changed(text@).1,
    {
        proof {
            reveal(ReaderState::find_changed);
        }
        let t = trimmed_string(text);
        if t.as_str().is_empty() {
            self.find.find_matches = None;
            return run(copy_of("vireoFindClear()"));
        }
        let mut js = copy_of("vireoFind('");
        js.append(script_text(t.as_str()).as_str());
        js.append("')");
        run(js)
    }

    fn on_focus_card(&mut self, key: (u32, u32)) -> (steps: Vec<ViewStep>)
        ensures
            final(self)@ == old(self)@.focus_card(key).0,
            wishes(steps@) == old(self)@.focus_card(key).1,
    {
        proof {
            reveal(ReaderState::focus_card);
        }
        self.drawing.focus_gen = self.drawing.focus_gen.wrapping_add(1);
        one_step(
            ViewStep::ScheduleFocus { generation: self.drawing.focus_gen, account_id: key.0, id: key.1 },
        )
    }

    fn on_blur_card(&mut self) -> (steps: Vec<ViewStep>)
        ensures
            final(self)@ == old(self)@.blur_card().0,
            wishes(steps@) == old(self)@.blur_card().1,
    {
        proof {
            reveal(ReaderState::blur_card);
        }
        self.drawing.focus_gen = self.drawing.focus_gen.wrapping_add(1);
        let mut steps = run(copy_of(BLUR_SCRIPT));
        let more = self.apply_card_selection();
        add_steps(&mut steps, more);
        steps
    }

    /// The script that focuses a card, unless something called that off since it was asked
    /// for.
    pub fn focus_card_script(&self, generation: u64, account_id: u32, id: u32) -> (r: Option<String>)
        ensures
            opt_text(r) == (if self@.drawing.focus_gen == generation {
                Some(focus_script((account_id, id)))
            } else {
                None
            }),
    {
        if self.drawing.focus_gen == generation {
            Some(focus_script_text((account_id, id)))
        } else {
            None
        }
    }

    fn set_show_banner(&mut self, show: bool) -> (steps: Vec<ViewStep>)
        ensures
            final(self)@ == (ReaderState {
                looks: Looks { show_banner: show, ..old(self)@.looks },
                ..old(self)@
            }),
            wishes(steps@) == Seq::<Wish>::empty(),
    {
        self.looks.show_banner = show;
        no_steps()
    }

    fn set_recipients(&mut self, on: bool) -> (steps: Vec<ViewStep>)
        ensures
            final(self)@ == (ReaderState {
                looks: Looks { always_show_recipients: on, ..old(self)@.looks },
                ..old(self)@
            }),
            wishes(steps@) == Seq::<Wish>::empty(),
    {
        self.looks.always_show_recipients = on;
        no_steps()
    }

    fn set_single(&mut self, on: bool) -> (steps: Vec<ViewStep>)
        ensures
            final(self)@ == (ReaderState {
                looks: Looks { single_message_card: on, ..old(self)@.looks },
                ..old(self)@
            }),
            wishes(steps@) == Seq::<Wish>::empty(),
    {
        self.looks.single_message_card = on;
        no_steps()
    }

    fn set_find_matches(&mut self, m: Option<(u32, u32)>) -> (steps: Vec<ViewStep>)
        ensures
            final(self)@ == (ReaderState {
                find: Finding { find_matches: m, ..old(self)@.find },
                ..old(self)@
            }),
            wishes(steps@) == Seq::<Wish>::empty(),
    {
        self.find.find_matches = m;
        no_steps()
    }

    fn set_anchor(&mut self, a: Option<(u32, u32, u32)>) -> (steps: Vec<ViewStep>)
        ensures
            final(self)@ == (ReaderState {
                drawing: Drawing { saved_anchor: a, ..old(self)@.drawing },
                ..old(self)@
            }),
            wishes(steps@) == Seq::<Wish>::empty(),
    {
        self.drawing.saved_anchor = a;
        no_steps()
    }

    fn set_check(&mut self, c: Option<SenderCheck>) -> (steps: Vec<ViewStep>)
        ensures
            final(self)@ == (ReaderState {
                checks: Verdicts { sender_check: c, ..old(self)@.checks },
                ..old(self)@
            }),
            wishes(steps@) == Seq::<Wish>::empty(),
    {
        self.checks.sender_check = c;
        no_steps()
    }

    fn load_remote_once(&mut self) -> (steps: Vec<ViewStep>)
        ensures
            final(self)@ == old(self)@.unblocked(),
            wishes(steps@) == seq![Wish::Render],
    {
        self.unblock();
        one_step(ViewStep::Render)
    }

    fn theme_changed(&self) -> (steps: Vec<ViewStep>)
        ensures
            wishes(steps@) == seq![Wish::PaintCover] + self@.redraw(),
    {
        let mut steps = one_step(ViewStep::PaintCover);
        let more = self.redraw();
        add_steps(&mut steps, more);
        steps
    }

    /// Takes an input: the reader as it becomes, and what it asks of the application.
    #[verifier::spinoff_prover]
    #[verifier::rlimit(100)]
    pub fn update(&mut self, msg: MessageViewInput) -> (steps: Vec<ViewStep>)
        ensures
            final(self)@ == view_step(old(self)@, msg).0,
            wishes(steps@) == view_step(old(self)@, msg).1,
    {
        match msg {
            MessageViewInput::SetBannerShown(show) => self.set_show_banner(show),
            MessageViewInput::SetAlwaysShowRecipients(on) => self.set_recipients(on),
            MessageViewInput::SetSingleMessageCard(on) => self.set_single(on),
            MessageViewInput::Show(opening) => self.on_show(opening),
            MessageViewInput::LoadRemoteOnce => self.load_remote_once(),
            MessageViewInput::AllowSenderAlways => self.on_allow_sender_always(),
            MessageViewInput::ThemeChanged => self.theme_changed(),
            MessageViewInput::Print => one_step(ViewStep::Print),
            MessageViewInput::PrintPreview => one_step(ViewStep::PrintPreview),
            MessageViewInput::SetContentTheme(o) => self.on_set_content_theme(o),
            MessageViewInput::SetReaderStyle(style) => self.on_set_reader_style(style),
            MessageViewInput::ToggleSenderStyle { account_id, id } => self.on_toggle_sender_style(
                (account_id, id),
            ),
            MessageViewInput::PgpFetchKey { account_id, id } => self.on_pgp_fetch_key(
                (account_id, id),
            ),
            MessageViewInput::PgpTrustKey { account_id, id } => self.on_pgp_trust_key(
                (account_id, id),
            ),
            MessageViewInput::PgpDone { account_id, id, result } => self.on_pgp_done(
                (account_id, id),
                result,
            ),
            MessageViewInput::Rendered => self.on_drawn(),
            MessageViewInput::SetSenderCheck(check) => self.set_check(Some(*check)),
            MessageViewInput::SenderCheckFor { account_id, id, check } => self.on_sender_check_for(
                (account_id, id),
                *check,
            ),
            MessageViewInput::SenderInfoAt { account_id, id } => self.on_sender_info_at(
                (account_id, id),
            ),
            MessageViewInput::OpenHeader { account_id, id } => self.on_open_header((account_id, id)),
            MessageViewInput::SuppressAutoRead { account_id, id } => self.on_suppress_auto_read(
                (account_id, id),
            ),
            MessageViewInput::ClearCards => self.on_clear_cards(),
            MessageViewInput::CardClicked { account_id, id, mode } => self.on_card_clicked(
                (account_id, id),
                mode,
            ),
            MessageViewInput::SelectAllCards => self.on_select_all_cards(),
            MessageViewInput::CopySelection => run(copy_of(COPY_SCRIPT)),
            MessageViewInput::ComposeTo(addr) => one_step(
                ViewStep::Output(MessageViewOutput::ComposeTo(addr)),
            ),
            MessageViewInput::AddContact(addr) => one_step(
                ViewStep::Output(MessageViewOutput::AddContactAddr(addr)),
            ),
            MessageViewInput::SetSelectedCards(keys) => self.on_set_selected_cards(keys),
            MessageViewInput::FrameSized { account_id, id, height } => self.on_frame_sized(
                (account_id, id),
                height,
            ),
            MessageViewInput::MarkSeen { account_id, id } => self.on_mark_seen((account_id, id)),
            MessageViewInput::CardAction { action, account_id, id } => self.on_card_action(
                action,
                (account_id, id),
            ),
            MessageViewInput::CardContact { account_id, id } => self.on_card_contact(
                (account_id, id),
            ),
            MessageViewInput::SetCardActionsMode { hover_toggle, hover_auto } => {
                self.on_set_card_actions_mode(hover_toggle, hover_auto)
            },
            MessageViewInput::SetPaletteCollapse(secs) => self.on_set_palette_collapse(secs),
            MessageViewInput::ClearDot { account_id, id } => self.on_clear_dot((account_id, id)),
            MessageViewInput::SetCardStar { account_id, id, starred } => self.on_set_card_star(
                (account_id, id),
                starred,
            ),
            MessageViewInput::SetCardKeywords { account_id, id, keywords } => {
                self.on_set_card_keywords((account_id, id), &keywords)
            },
            MessageViewInput::SetTags(tags) => self.on_set_tags(tags),
            MessageViewInput::SetReadMark(policy) => self.on_set_read_mark(policy),
            MessageViewInput::OpenFind { since_closed } => self.on_open_find(since_closed),
            MessageViewInput::CloseFind => self.on_close_find(),
            MessageViewInput::FindChanged(text) => self.on_find_changed(text.as_str()),
            MessageViewInput::FindNext => run(copy_of("vireoFindStep(1)")),
            MessageViewInput::FindPrev => run(copy_of("vireoFindStep(-1)")),
            MessageViewInput::FindCounted { current, total } => self.set_find_matches(
                Some((current, total)),
            ),
            MessageViewInput::FocusCard { account_id, id } => self.on_focus_card((account_id, id)),
            MessageViewInput::BlurCard => self.on_blur_card(),
            MessageViewInput::ScrollAnchor { account_id, id, offset } => self.set_anchor(
                Some((account_id, id, offset)),
            ),
        }
    }
}

} // verus!
