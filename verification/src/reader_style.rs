//! The reader's own fonts and colours, as a stylesheet laid over a message.

use vstd::prelude::*;

use crate::text::{
    chars_of, copy_of, decimal, decimal_string, digit_char, find_from_ci, holds_ci, join, joined,
    opt_text, push_decimal, split, split_at, texts, trim, trimmed,
};

verus! {

/// The slant of a font.
#[derive(Debug, Clone, Copy, PartialEq, Eq, Structural)]
pub enum Slant {
    Upright,
    Italic,
    Oblique,
}

/// The width of a font.
#[derive(Debug, Clone, Copy, PartialEq, Eq, Structural)]
pub enum Stretch {
    UltraCondensed,
    ExtraCondensed,
    Condensed,
    SemiCondensed,
    Normal,
    SemiExpanded,
    Expanded,
    ExtraExpanded,
    UltraExpanded,
}

/// A font as the reader picked it. The size is in 1024ths of a point, or of a
/// device pixel when it is absolute; none was given where it is not positive.
/// The weight's scale is that of CSS, where 400 is regular.
#[derive(Debug)]
pub struct Font {
    pub family: Option<String>,
    pub size: i32,
    pub absolute: bool,
    pub weight: i32,
    pub slant: Slant,
    pub stretch: Stretch,
}

/// What the reader lays over every message: a font, and colours of their own.
#[derive(Debug)]
pub struct ReaderStyle {
    pub font: Option<Font>,
    pub colors: bool,
}

impl ReaderStyle {
    /// The style that overrides nothing.
    pub fn none() -> (r: ReaderStyle)
        ensures
            r.font is None,
            !r.colors,
    {
        ReaderStyle { font: None, colors: false }
    }

    /// Whether the style overrides anything.
    pub fn active(&self) -> (r: bool)
        ensures
            r == (self.font is Some || self.colors),
    {
        self.font.is_some() || self.colors
    }
}

// ----- The font in CSS -----

/// The family that stands in where none was picked.
pub open spec fn family_name(font: &Font) -> Seq<char> {
    match opt_text(font.family) {
        Some(f) => if trim(f).len() > 0 {
            f
        } else {
            "sans-serif"@
        },
        None => "sans-serif"@,
    }
}

/// The text without backslashes and double quotes.
pub open spec fn unquoted(s: Seq<char>) -> Seq<char>
    decreases s.len(),
{
    if s.len() == 0 {
        seq![]
    } else if s.last() == '\\' || s.last() == '"' {
        unquoted(s.drop_last())
    } else {
        unquoted(s.drop_last()).push(s.last())
    }
}

/// The names of a list of families, trimmed and each in quotes, without the empty ones.
pub open spec fn quoted_names(names: Seq<Seq<char>>) -> Seq<Seq<char>>
    decreases names.len(),
{
    if names.len() == 0 {
        seq![]
    } else {
        let rest = quoted_names(names.drop_last());
        let name = trim(names.last());
        if name.len() == 0 {
            rest
        } else {
            rest.push("\""@ + unquoted(name) + "\""@)
        }
    }
}

/// The list of families in CSS: every one quoted, and a generic one at the end.
pub open spec fn css_family(font: &Font) -> Seq<char> {
    let family = family_name(font);
    let generic = if holds_ci(family, "mono"@) {
        "monospace"@
    } else {
        "sans-serif"@
    };
    join(quoted_names(split(family, 0, ',')), ","@) + ","@ + generic
}

/// The digits behind the point of a fraction of 1024, at most `n` of them.
pub open spec fn fraction_digits(rest: nat, n: nat) -> Seq<char>
    decreases n,
{
    if rest == 0 || n == 0 {
        seq![]
    } else {
        seq![digit_char(rest * 10 / 1024)] + fraction_digits(rest * 10 % 1024, (n - 1) as nat)
    }
}

/// A number of 1024ths in decimal digits. Ten digits behind the point are always
/// enough.
pub open spec fn scaled(units: nat) -> Seq<char> {
    if units % 1024 == 0 {
        decimal(units / 1024)
    } else {
        decimal(units / 1024) + "."@ + fraction_digits(units % 1024, 10)
    }
}

/// The size in CSS: points, or pixels when it is absolute; 11pt where none was given.
pub open spec fn css_size(font: &Font) -> Seq<char> {
    if font.size <= 0 {
        "11pt"@
    } else if font.absolute {
        scaled(font.size as nat) + "px"@
    } else {
        scaled(font.size as nat) + "pt"@
    }
}

/// The name of a stretch in CSS; nothing for the normal one.
pub open spec fn stretch_name(s: Stretch) -> Seq<char> {
    match s {
        Stretch::UltraCondensed => "ultra-condensed"@,
        Stretch::ExtraCondensed => "extra-condensed"@,
        Stretch::Condensed => "condensed"@,
        Stretch::SemiCondensed => "semi-condensed"@,
        Stretch::Normal => ""@,
        Stretch::SemiExpanded => "semi-expanded"@,
        Stretch::Expanded => "expanded"@,
        Stretch::ExtraExpanded => "extra-expanded"@,
        Stretch::UltraExpanded => "ultra-expanded"@,
    }
}

/// A weight that CSS takes.
pub open spec fn css_weight(weight: i32) -> nat {
    if weight < 1 {
        1
    } else if weight > 1000 {
        1000
    } else {
        weight as nat
    }
}

/// The declarations of the face: weight, slant and stretch, each only where it
/// departs from regular, so that a regular pick does not flatten the sender's own
/// bold and italic.
pub open spec fn css_face(font: &Font) -> Seq<char> {
    (if font.weight != 400 {
        "font-weight:"@ + decimal(css_weight(font.weight)) + " !important;"@
    } else {
        seq![]
    }) + (match font.slant {
        Slant::Italic => "font-style:italic !important;"@,
        Slant::Oblique => "font-style:oblique !important;"@,
        Slant::Upright => seq![],
    }) + (if font.stretch != Stretch::Normal {
        "font-stretch:"@ + stretch_name(font.stretch) + " !important;"@
    } else {
        seq![]
    })
}

/// A font in CSS: its families, its size, and the declarations of its face.
pub struct CssFont {
    pub family: String,
    pub size: String,
    pub face: String,
}

fn without_quotes(s: &[char]) -> (out: String)
    ensures
        out@ == unquoted(s@),
{
    let mut out = String::new();
    let mut i: usize = 0;
    while i < s.len()
        invariant
            i <= s.len(),
            out@ == unquoted(s@.take(i as int)),
        decreases s.len() - i,
    {
        proof {
            let next = s@.take(i as int + 1);
            assert(next.drop_last() =~= s@.take(i as int));
            assert(next.last() == s@[i as int]);
        }
        if s[i] != '\\' && s[i] != '"' {
            out.push(s[i]);
        }
        i = i + 1;
    }
    proof {
        assert(s@.take(s@.len() as int) =~= s@);
    }
    out
}

fn quote_names(names: &Vec<String>) -> (out: Vec<String>)
    ensures
        texts(out@) == quoted_names(texts(names@)),
{
    let mut out: Vec<String> = Vec::new();
    let mut i: usize = 0;
    proof {
        assert(texts(out@) =~= seq![]);
    }
    while i < names.len()
        invariant
            i <= names.len(),
            texts(out@) == quoted_names(texts(names@).take(i as int)),
        decreases names.len() - i,
    {
        proof {
            let next = texts(names@).take(i as int + 1);
            assert(next.drop_last() =~= texts(names@).take(i as int));
            assert(next.last() == names@[i as int]@);
        }
        let v = chars_of(names[i].as_str());
        let name = trimmed(&v);
        if name.len() > 0 {
            let mut one = copy_of("\"");
            one.append(without_quotes(name).as_str());
            one.append("\"");
            let ghost had = texts(out@);
            out.push(one);
            proof {
                assert(texts(out@) =~= had.push(one@));
            }
        }
        i = i + 1;
    }
    proof {
        assert(texts(names@).take(names@.len() as int) =~= texts(names@));
    }
    out
}

fn push_fraction(out: &mut String, rest: u64, n: u64)
    requires
        rest < 1024,
    ensures
        final(out)@ == old(out)@ + fraction_digits(rest as nat, n as nat),
    decreases n,
{
    let ghost had = out@;
    if rest > 0 && n > 0 {
        out.push((48 + (rest * 10 / 1024) as u8) as char);
        push_fraction(out, rest * 10 % 1024, n - 1);
        proof {
            let first = digit_char((rest * 10 / 1024) as nat);
            let tail = fraction_digits((rest * 10 % 1024) as nat, (n - 1) as nat);
            assert(had.push(first) + tail =~= had + (seq![first] + tail));
        }
    } else {
        proof {
            assert(had + seq![] =~= had);
        }
    }
}

fn scaled_string(units: u64) -> (out: String)
    ensures
        out@ == scaled(units as nat),
{
    let mut out = decimal_string(units / 1024);
    if units % 1024 != 0 {
        out.append(".");
        push_fraction(&mut out, units % 1024, 10);
    }
    out
}

fn stretch_text(s: Stretch) -> (out: &'static str)
    ensures
        out@ == stretch_name(s),
{
    match s {
        Stretch::UltraCondensed => "ultra-condensed",
        Stretch::ExtraCondensed => "extra-condensed",
        Stretch::Condensed => "condensed",
        Stretch::SemiCondensed => "semi-condensed",
        Stretch::Normal => "",
        Stretch::SemiExpanded => "semi-expanded",
        Stretch::Expanded => "expanded",
        Stretch::ExtraExpanded => "extra-expanded",
        Stretch::UltraExpanded => "ultra-expanded",
    }
}

/// A font as a CSS family list, a size, and the face's declarations.
pub fn css_font(font: &Font) -> (out: CssFont)
    ensures
        out.family@ == css_family(font),
        out.size@ == css_size(font),
        out.face@ == css_face(font),
{
    let family: String = match &font.family {
        Some(f) => {
            let v = chars_of(f.as_str());
            if trimmed(&v).len() > 0 {
                copy_of(f.as_str())
            } else {
                copy_of("sans-serif")
            }
        },
        None => copy_of("sans-serif"),
    };
    let chars = chars_of(family.as_str());
    let mono = chars_of("mono");
    let generic: &str = match find_from_ci(&chars, &mono, 0, chars.len()) {
        Some(_) => "monospace",
        None => "sans-serif",
    };
    let names = quote_names(&split_at(&chars, ','));
    let mut list = joined(&names, ",");
    list.append(",");
    list.append(generic);

    let size: String = if font.size <= 0 {
        copy_of("11pt")
    } else {
        let mut size = scaled_string(font.size as u64);
        if font.absolute {
            size.append("px");
        } else {
            size.append("pt");
        }
        size
    };

    let mut face = String::new();
    if font.weight != 400 {
        let weight: u64 = if font.weight < 1 {
            1
        } else if font.weight > 1000 {
            1000
        } else {
            font.weight as u64
        };
        face = copy_of("font-weight:");
        push_decimal(&mut face, weight);
        face.append(" !important;");
    }
    let ghost by_weight = face@;
    match font.slant {
        Slant::Italic => {
            face.append("font-style:italic !important;");
        },
        Slant::Oblique => {
            face.append("font-style:oblique !important;");
        },
        Slant::Upright => {
            proof {
                assert(by_weight + seq![] =~= by_weight);
            }
        },
    }
    let ghost by_slant = face@;
    if font.stretch != Stretch::Normal {
        let mut stretch = copy_of("font-stretch:");
        stretch.append(stretch_text(font.stretch));
        stretch.append(" !important;");
        face.append(stretch.as_str());
    } else {
        proof {
            assert(by_slant + seq![] =~= by_slant);
        }
    }
    CssFont { family: list, size, face }
}

// ----- The stylesheet -----

/// A selector under the scope, at a weight that outranks anything a sender wrote
/// short of an inline `!important`: it carries three `:not(#…)` clauses that it
/// trivially satisfies.
pub open spec fn under(scope: Seq<char>, selector: Seq<char>) -> Seq<char> {
    scope + " "@ + selector + ":not(#vireo-a):not(#vireo-b):not(#vireo-c)"@
}

/// Everything under the scope, at that weight.
pub open spec fn everything(scope: Seq<char>) -> Seq<char> {
    scope + " :not(#vireo-a):not(#vireo-b):not(#vireo-c)"@
}

/// The rules of a font: one family and size for everything, headings scaled from
/// it, code kept monospaced.
pub open spec fn font_rules(scope: Seq<char>, font: (Seq<char>, Seq<char>, Seq<char>)) -> Seq<char> {
    scope
    + ","@
    + everything(scope)
    + "{font-family:"@
    + font.0
    + " !important;font-size:"@
    + font.1
    + " !important;line-height:1.45 !important;"@
    + font.2
    + "}"@
    + under(scope, ":is(h1,h2,h3,h4,h5,h6)"@)
    + "{line-height:1.25 !important;}"@
    + under(scope, "h1"@)
    + "{font-size:calc("@
    + font.1
    + " * 1.6) !important;}"@
    + under(scope, "h2"@)
    + "{font-size:calc("@
    + font.1
    + " * 1.35) !important;}"@
    + under(scope, "h3"@)
    + "{font-size:calc("@
    + font.1
    + " * 1.15) !important;}"@
    + under(scope, ":is(small,sub,sup)"@)
    + "{font-size:calc("@
    + font.1
    + " * 0.85) !important;}"@
    + under(scope, ":is(pre,code,kbd,samp,tt)"@)
    + "{font-family:monospace !important;font-size:calc("@
    + font.1
    + " * 0.9) !important;}"@
}

/// The rules of the reader's colours: their text on a transparent ground, links
/// in the accent.
pub open spec fn color_rules(scope: Seq<char>, dark: bool, accent: Seq<char>) -> Seq<char> {
    let fg = if dark {
        "#e6e6e6"@
    } else {
        "#1a1a1a"@
    };
    scope
    + ","@
    + everything(scope)
    + "{color:"@
    + fg
    + " !important;-webkit-text-fill-color:"@
    + fg
    + " !important;background-color:transparent !important;background-image:none !important;text-shadow:none !important;}"@
    + under(scope, "a"@)
    + ","@
    + under(scope, "a"@)
    + " *{color:"@
    + accent
    + " !important;-webkit-text-fill-color:"@
    + accent
    + " !important;}"@
}

/// The stylesheet of a style, nothing where it overrides nothing.
pub open spec fn style_rules(
    style: &ReaderStyle,
    dark: bool,
    accent: Seq<char>,
    scope: Seq<char>,
) -> Seq<char> {
    (match &style.font {
        Some(f) => font_rules(scope, (css_family(f), css_size(f), css_face(f))),
        None => seq![],
    }) + (if style.colors {
        color_rules(scope, dark, accent)
    } else {
        seq![]
    })
}

fn under_scope(scope: &str, selector: &str) -> (out: String)
    ensures
        out@ == under(scope@, selector@),
{
    let mut out = copy_of(scope);
    out.append(" ");
    out.append(selector);
    out.append(":not(#vireo-a):not(#vireo-b):not(#vireo-c)");
    out
}

fn everything_under(scope: &str) -> (out: String)
    ensures
        out@ == everything(scope@),
{
    let mut out = copy_of(scope);
    out.append(" :not(#vireo-a):not(#vireo-b):not(#vireo-c)");
    out
}

fn font_css(scope: &str, font: &CssFont) -> (out: String)
    ensures
        out@ == font_rules(scope@, (font.family@, font.size@, font.face@)),
{
    let all = everything_under(scope);
    let h = under_scope(scope, ":is(h1,h2,h3,h4,h5,h6)");
    let h1 = under_scope(scope, "h1");
    let h2 = under_scope(scope, "h2");
    let h3 = under_scope(scope, "h3");
    let small = under_scope(scope, ":is(small,sub,sup)");
    let code = under_scope(scope, ":is(pre,code,kbd,samp,tt)");
    let mut out = copy_of(scope);
    out.append(",");
    out.append(all.as_str());
    out.append("{font-family:");
    out.append(font.family.as_str());
    out.append(" !important;font-size:");
    out.append(font.size.as_str());
    out.append(" !important;line-height:1.45 !important;");
    out.append(font.face.as_str());
    out.append("}");
    out.append(h.as_str());
    out.append("{line-height:1.25 !important;}");
    out.append(h1.as_str());
    out.append("{font-size:calc(");
    out.append(font.size.as_str());
    out.append(" * 1.6) !important;}");
    out.append(h2.as_str());
    out.append("{font-size:calc(");
    out.append(font.size.as_str());
    out.append(" * 1.35) !important;}");
    out.append(h3.as_str());
    out.append("{font-size:calc(");
    out.append(font.size.as_str());
    out.append(" * 1.15) !important;}");
    out.append(small.as_str());
    out.append("{font-size:calc(");
    out.append(font.size.as_str());
    out.append(" * 0.85) !important;}");
    out.append(code.as_str());
    out.append("{font-family:monospace !important;font-size:calc(");
    out.append(font.size.as_str());
    out.append(" * 0.9) !important;}");
    out
}

fn color_css(scope: &str, dark: bool, accent: &str) -> (out: String)
    ensures
        out@ == color_rules(scope@, dark, accent@),
{
    let all = everything_under(scope);
    let a = under_scope(scope, "a");
    let fg: &str = if dark {
        "#e6e6e6"
    } else {
        "#1a1a1a"
    };
    let mut out = copy_of(scope);
    out.append(",");
    out.append(all.as_str());
    out.append("{color:");
    out.append(fg);
    out.append(" !important;-webkit-text-fill-color:");
    out.append(fg);
    out.append(" !important;background-color:transparent !important;background-image:none !important;text-shadow:none !important;}");
    out.append(a.as_str());
    out.append(",");
    out.append(a.as_str());
    out.append(" *{color:");
    out.append(accent);
    out.append(" !important;-webkit-text-fill-color:");
    out.append(accent);
    out.append(" !important;}");
    out
}

/// The stylesheet that lays the reader's own fonts and colours over a message, or
/// nothing when the style overrides nothing. `scope` is the element that the
/// rules hang under: `:root` in a sandboxed frame, the message's own block in the
/// printed document.
pub fn reader_style_css(style: &ReaderStyle, dark: bool, accent: &str, scope: &str) -> (css: String)
    ensures
        css@ == style_rules(style, dark, accent@, scope@),
        css@.len() == 0 <==> style.font is None && !style.colors,
{
    let mut css = String::new();
    if let Some(font) = &style.font {
        css = font_css(scope, &css_font(font));
        proof {
            reveal_strlit(",");
        }
    }
    let ghost fonts = css@;
    if style.colors {
        css.append(color_css(scope, dark, accent).as_str());
        proof {
            reveal_strlit(",");
        }
    } else {
        proof {
            assert(fonts + seq![] =~= fonts);
        }
    }
    css
}

} // verus!
