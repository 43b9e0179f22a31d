//! The mail providers that an account can be set up with.

use vstd::prelude::*;

use crate::text::{
    chars_of, is_blank, lemma_not_trimmed, lower_all, lower_chars, same_chars, trim, trimmed,
};

verus! {

/// How an account signs in.
#[derive(Debug, Clone, Copy, PartialEq, Eq, Structural)]
pub enum ProviderKind {
    /// Servers and a password, entered by hand.
    Manual,
    /// A known provider: a password, and servers that are filled in.
    Preset,
    /// Google, through the browser, or through the desktop's online accounts.
    Google,
    /// Microsoft, through the browser.
    Microsoft,
    /// The browser, with endpoints entered by hand.
    CustomOAuth,
}

/// One choice among the providers. It selects how to sign in and, for a preset, the
/// servers; the others have none here.
#[derive(Clone, Copy)]
pub struct Provider {
    pub label: &'static str,
    pub kind: ProviderKind,
    pub imap_host: &'static str,
    pub imap_port: u16,
    pub smtp_host: &'static str,
    pub smtp_port: u16,
    pub hint: &'static str,
}

impl Provider {
    pub open spec fn takes_password(self) -> bool {
        self.kind == ProviderKind::Manual || self.kind == ProviderKind::Preset
    }

    pub fn is_password(&self) -> (r: bool)
        ensures
            r == self.takes_password(),
    {
        self.kind == ProviderKind::Manual || self.kind == ProviderKind::Preset
    }

    pub fn is_oauth(&self) -> (r: bool)
        ensures
            r == !self.takes_password(),
    {
        !self.is_password()
    }

    /// The name of a built-in provider to sign in with.
    pub fn oauth_name(&self) -> (r: Option<&'static str>)
        ensures
            match r {
                Some(name) => (self.kind == ProviderKind::Google && name@ == "google"@) || (
                self.kind == ProviderKind::Microsoft && name@ == "microsoft"@),
                None => self.kind != ProviderKind::Google && self.kind != ProviderKind::Microsoft,
            },
    {
        match self.kind {
            ProviderKind::Google => Some("google"),
            ProviderKind::Microsoft => Some("microsoft"),
            _ => None,
        }
    }
}

pub const APP_PW: &'static str =
    "Requires an app-specific password (not your normal login password).";

pub open spec fn preset(
    label: &'static str,
    imap_host: &'static str,
    imap_port: u16,
    smtp_host: &'static str,
    smtp_port: u16,
    hint: &'static str,
) -> Provider {
    Provider {
        label,
        kind: ProviderKind::Preset,
        imap_host,
        imap_port,
        smtp_host,
        smtp_port,
        hint,
    }
}

pub open spec fn sign_in(label: &'static str, kind: ProviderKind, hint: &'static str) -> Provider {
    Provider { label, kind, imap_host: "", imap_port: 0, smtp_host: "", smtp_port: 0, hint }
}

/// The providers in the order in which they are offered: those with a sign-in first,
/// then those with a password for applications, then the two that are entered by hand.
pub open spec fn table() -> Seq<Provider> {
    seq![
        sign_in(
            "Google (Gmail) — sign in",
            ProviderKind::Google,
            "Sign in with your browser — no password needed.",
        ),
        sign_in(
            "Microsoft / Outlook — sign in",
            ProviderKind::Microsoft,
            "Sign in with your browser (experimental).",
        ),
        preset(
            "iCloud",
            "imap.mail.me.com",
            993,
            "smtp.mail.me.com",
            587,
            APP_PW,
        ),
        preset(
            "Yahoo Mail",
            "imap.mail.yahoo.com",
            993,
            "smtp.mail.yahoo.com",
            465,
            APP_PW,
        ),
        preset(
            "Proton Mail (Bridge)",
            "127.0.0.1",
            1143,
            "127.0.0.1",
            1025,
            "Requires Proton Mail Bridge running locally.",
        ),
        preset(
            "Fastmail",
            "imap.fastmail.com",
            993,
            "smtp.fastmail.com",
            465,
            APP_PW,
        ),
        preset(
            "AOL Mail",
            "imap.aol.com",
            993,
            "smtp.aol.com",
            465,
            APP_PW,
        ),
        preset(
            "Zoho Mail",
            "imap.zoho.com",
            993,
            "smtp.zoho.com",
            465,
            "",
        ),
        preset(
            "GMX",
            "imap.gmx.com",
            993,
            "mail.gmx.com",
            587,
            "Enable POP/IMAP access in GMX settings first.",
        ),
        preset(
            "Yandex Mail",
            "imap.yandex.com",
            993,
            "smtp.yandex.com",
            465,
            APP_PW,
        ),
        preset(
            "Mail.com",
            "imap.mail.com",
            993,
            "smtp.mail.com",
            587,
            "",
        ),
        sign_in(
            "Custom (OAuth)…",
            ProviderKind::CustomOAuth,
            "Enter your provider's OAuth endpoints, then sign in.",
        ),
        sign_in(
            "Other (IMAP/POP3)…",
            ProviderKind::Manual,
            "Enter your server details manually.",
        ),
    ]
}

fn preset_entry(
    label: &'static str,
    imap_host: &'static str,
    imap_port: u16,
    smtp_host: &'static str,
    smtp_port: u16,
    hint: &'static str,
) -> (p: Provider)
    ensures
        p == preset(label, imap_host, imap_port, smtp_host, smtp_port, hint),
{
    Provider {
        label,
        kind: ProviderKind::Preset,
        imap_host,
        imap_port,
        smtp_host,
        smtp_port,
        hint,
    }
}

fn sign_in_entry(label: &'static str, kind: ProviderKind, hint: &'static str) -> (p: Provider)
    ensures
        p == sign_in(label, kind, hint),
{
    Provider { label, kind, imap_host: "", imap_port: 0, smtp_host: "", smtp_port: 0, hint }
}

/// The providers in the order in which they are offered.
pub fn providers() -> (v: Vec<Provider>)
    ensures
        v@ == table(),
{
    vec![
        sign_in_entry(
            "Google (Gmail) — sign in",
            ProviderKind::Google,
            "Sign in with your browser — no password needed.",
        ),
        sign_in_entry(
            "Microsoft / Outlook — sign in",
            ProviderKind::Microsoft,
            "Sign in with your browser (experimental).",
        ),
        preset_entry(
            "iCloud",
            "imap.mail.me.com",
            993,
            "smtp.mail.me.com",
            587,
            APP_PW,
        ),
        preset_entry(
            "Yahoo Mail",
            "imap.mail.yahoo.com",
            993,
            "smtp.mail.yahoo.com",
            465,
            APP_PW,
        ),
        preset_entry(
            "Proton Mail (Bridge)",
            "127.0.0.1",
            1143,
            "127.0.0.1",
            1025,
            "Requires Proton Mail Bridge running locally.",
        ),
        preset_entry(
            "Fastmail",
            "imap.fastmail.com",
            993,
            "smtp.fastmail.com",
            465,
            APP_PW,
        ),
        preset_entry(
            "AOL Mail",
            "imap.aol.com",
            993,
            "smtp.aol.com",
            465,
            APP_PW,
        ),
        preset_entry(
            "Zoho Mail",
            "imap.zoho.com",
            993,
            "smtp.zoho.com",
            465,
            "",
        ),
        preset_entry(
            "GMX",
            "imap.gmx.com",
            993,
            "mail.gmx.com",
            587,
            "Enable POP/IMAP access in GMX settings first.",
        ),
        preset_entry(
            "Yandex Mail",
            "imap.yandex.com",
            993,
            "smtp.yandex.com",
            465,
            APP_PW,
        ),
        preset_entry(
            "Mail.com",
            "imap.mail.com",
            993,
            "smtp.mail.com",
            587,
            "",
        ),
        sign_in_entry(
            "Custom (OAuth)…",
            ProviderKind::CustomOAuth,
            "Enter your provider's OAuth endpoints, then sign in.",
        ),
        sign_in_entry(
            "Other (IMAP/POP3)…",
            ProviderKind::Manual,
            "Enter your server details manually.",
        ),
    ]
}

/// Where the first provider of a kind stands.
pub open spec fn kind_place(kind: ProviderKind) -> int {
    match kind {
        ProviderKind::Google => 0,
        ProviderKind::Microsoft => 1,
        ProviderKind::Preset => 2,
        ProviderKind::CustomOAuth => 11,
        ProviderKind::Manual => 12,
    }
}

/// That place holds a provider of the kind, and no earlier one does.
pub proof fn kind_stands_first(kind: ProviderKind, k: int)
    requires
        0 <= k < kind_place(kind),
    ensures
        kind_place(kind) < table().len(),
        table()[kind_place(kind)].kind == kind,
        table()[k].kind != kind,
{
}

/// Exactly one provider is entered by hand altogether.
pub proof fn one_is_manual(k: int)
    requires
        0 <= k < table().len(),
    ensures
        table()[k].kind == ProviderKind::Manual <==> k == kind_place(ProviderKind::Manual),
{
}

/// The place of the first provider of a kind.
pub fn kind_index(kind: ProviderKind) -> (r: u32)
    ensures
        r == kind_place(kind),
{
    match kind {
        ProviderKind::Google => 0,
        ProviderKind::Microsoft => 1,
        ProviderKind::Preset => 2,
        ProviderKind::CustomOAuth => 11,
        ProviderKind::Manual => 12,
    }
}

/// The place of the choice to enter everything by hand, which is the default.
pub fn manual_index() -> (r: u32)
    ensures
        r == kind_place(ProviderKind::Manual),
{
    kind_index(ProviderKind::Manual)
}

/// The provider at a place, the one entered by hand behind the end.
pub open spec fn provider(idx: u32) -> Provider {
    if idx < table().len() {
        table()[idx as int]
    } else {
        table()[kind_place(ProviderKind::Manual)]
    }
}

/// The provider at a place, the one entered by hand behind the end.
pub fn provider_at(idx: u32) -> (p: Provider)
    ensures
        p == provider(idx),
{
    let all = providers();
    if (idx as usize) < all.len() {
        all[idx as usize]
    } else {
        all[manual_index() as usize]
    }
}

/// The place at or behind `k` of the preset whose incoming server has this name,
/// whatever its case; that of the choice by hand where there is none.
pub open spec fn preset_from(host: Seq<char>, k: int) -> int
    decreases table().len() - k,
{
    if k >= table().len() {
        kind_place(ProviderKind::Manual)
    } else if table()[k].kind == ProviderKind::Preset && lower_all(table()[k].imap_host@)
        == lower_all(host) {
        k
    } else {
        preset_from(host, k + 1)
    }
}

pub open spec fn preset_for_host(host: Seq<char>) -> int {
    if trim(host).len() == 0 {
        kind_place(ProviderKind::Manual)
    } else {
        preset_from(trim(host), 0)
    }
}

/// The place of the preset whose incoming server has this name, or that of the
/// choice by hand where there is none.
pub fn preset_index_for_host(host: &str) -> (r: u32)
    ensures
        r == preset_for_host(host@),
        r < table().len(),
{
    let chars = chars_of(host);
    let bare = trimmed(&chars);
    if bare.len() == 0 {
        return manual_index();
    }
    let wanted = lower_chars(bare);
    let all = providers();
    let mut k: usize = 0;
    while k < all.len()
        invariant
            k <= all.len(),
            all@ == table(),
            all@.len() == 13,
            wanted@ == lower_all(trim(host@)),
            trim(host@).len() > 0,
            preset_from(trim(host@), 0) == preset_from(trim(host@), k as int),
        decreases all.len() - k,
    {
        if all[k].kind == ProviderKind::Preset {
            let name = chars_of(all[k].imap_host);
            if same_chars(&lower_chars(&name), &wanted) {
                return k as u32;
            }
        }
        k = k + 1;
    }
    manual_index()
}

proof fn lemma_hosts(k: int)
    requires
        0 <= k < table().len(),
        table()[k].kind == ProviderKind::Preset,
    ensures
        table()[k].imap_host@.len() > 5,
        table()[k].imap_host@.len() == host_mark(k).0,
        table()[k].imap_host@[5] == host_mark(k).1,
        !is_blank(table()[k].imap_host@[0]),
        !is_blank(table()[k].imap_host@.last()),
{
    reveal_strlit("imap.mail.me.com");
    reveal_strlit("imap.mail.yahoo.com");
    reveal_strlit("127.0.0.1");
    reveal_strlit("imap.fastmail.com");
    reveal_strlit("imap.aol.com");
    reveal_strlit("imap.zoho.com");
    reveal_strlit("imap.gmx.com");
    reveal_strlit("imap.yandex.com");
    reveal_strlit("imap.mail.com");
}

/// How long a preset's server name is, and its sixth character: no two presets agree
/// in both.
spec fn host_mark(k: int) -> (int, char) {
    if k == 2 {
        (16, 'm')
    } else if k == 3 {
        (19, 'm')
    } else if k == 4 {
        (9, '.')
    } else if k == 5 {
        (17, 'f')
    } else if k == 6 {
        (12, 'a')
    } else if k == 7 {
        (13, 'z')
    } else if k == 8 {
        (12, 'g')
    } else if k == 9 {
        (15, 'y')
    } else if k == 10 {
        (13, 'm')
    } else {
        (0, ' ')
    }
}

proof fn lemma_found(host: Seq<char>, j: int, k: int)
    requires
        0 <= j <= k < table().len(),
        table()[k].kind == ProviderKind::Preset,
        host == table()[k].imap_host@,
    ensures
        preset_from(host, j) == k,
    decreases k - j,
{
    if j < k {
        if table()[j].kind == ProviderKind::Preset {
            lemma_hosts(j);
            lemma_hosts(k);
            let a = lower_all(table()[j].imap_host@);
            let b = lower_all(host);
            assert(a.len() != b.len() || a[5] != b[5]);
        }
        lemma_found(host, j + 1, k);
    }
}

/// The server of each preset leads back to that preset.
pub proof fn preset_host_reads_back(k: int)
    requires
        0 <= k < table().len(),
        table()[k].kind == ProviderKind::Preset,
    ensures
        preset_for_host(table()[k].imap_host@) == k,
{
    lemma_hosts(k);
    lemma_not_trimmed(table()[k].imap_host@);
    lemma_found(table()[k].imap_host@, 0, k);
}

/// The case of a server's name does not matter.
pub proof fn host_case_does_not_matter(a: Seq<char>, b: Seq<char>, k: int)
    requires
        lower_all(a) == lower_all(b),
    ensures
        preset_from(a, k) == preset_from(b, k),
    decreases table().len() - k,
{
    if k < table().len() {
        host_case_does_not_matter(a, b, k + 1);
    }
}

/// Presets have servers and ports for both directions.
pub proof fn presets_are_complete(k: int)
    requires
        0 <= k < table().len(),
        table()[k].kind == ProviderKind::Preset,
    ensures
        table()[k].imap_host@.len() > 0,
        table()[k].smtp_host@.len() > 0,
        table()[k].imap_port > 0,
        table()[k].smtp_port > 0,
{
    reveal_strlit("imap.mail.me.com");
    reveal_strlit("imap.mail.yahoo.com");
    reveal_strlit("127.0.0.1");
    reveal_strlit("imap.fastmail.com");
    reveal_strlit("imap.aol.com");
    reveal_strlit("imap.zoho.com");
    reveal_strlit("imap.gmx.com");
    reveal_strlit("imap.yandex.com");
    reveal_strlit("imap.mail.com");
    reveal_strlit("smtp.mail.me.com");
    reveal_strlit("smtp.mail.yahoo.com");
    reveal_strlit("smtp.fastmail.com");
    reveal_strlit("smtp.aol.com");
    reveal_strlit("smtp.zoho.com");
    reveal_strlit("mail.gmx.com");
    reveal_strlit("smtp.yandex.com");
    reveal_strlit("smtp.mail.com");
}

} // verus!
