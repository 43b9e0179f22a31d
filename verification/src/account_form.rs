//! A mail account, and the form in which it is edited.

use vstd::prelude::*;
use vstd::slice::slice_subrange;

use crate::providers::{
    kind_index, kind_place, manual_index, preset_for_host, preset_index_for_host, provider,
    provider_at, Provider, ProviderKind,
};
use crate::text::{
    blank, chars_of, copy_of, decimal, decimal_string, find_from, holds, is_blank, is_blank_text,
    lower_all, lower_chars, matches_at, opt_text, parse_number, read_number, same, skip, skip_over,
    stands_at, string_of, trim, trimmed, trimmed_string, Class,
};

verus! {

// ----- An account -----

/// How mail comes in.
#[derive(Debug, Clone, Copy, PartialEq, Eq, Structural)]
pub enum Protocol {
    Imap,
    Pop3,
}

/// Where an account signs in through the browser; `T` is the type of a text.
#[derive(Debug)]
pub struct OAuthSettings<T> {
    pub auth_url: T,
    pub token_url: T,
    pub client_id: T,
    pub client_secret: T,
    pub scopes: T,
}

/// The server that mail comes from.
#[derive(Debug)]
pub struct Incoming<T> {
    pub protocol: Protocol,
    pub host: T,
    pub port: u16,
    pub starttls: bool,
    pub implicit_tls: bool,
}

/// The server that mail is sent through.
#[derive(Debug)]
pub struct Outgoing<T> {
    pub host: T,
    pub port: u16,
    pub implicit_tls: bool,
    pub auth: bool,
}

/// What an account logs in with.
#[derive(Debug)]
pub struct Login<T> {
    pub username: T,
    pub password: T,
    pub smtp_separate: bool,
    pub smtp_username: T,
    pub smtp_password: T,
}

/// How an account is shown. Without a label the address stands for it, without an
/// emoji its initials.
#[derive(Debug)]
pub struct Appearance<T> {
    pub color: Option<T>,
    pub emoji: Option<T>,
    pub label: Option<T>,
    pub signature: Option<T>,
    pub signature_html: bool,
}

/// Where an account of the desktop's comes from.
#[derive(Debug)]
pub struct Desktop<T> {
    pub id: Option<T>,
    /// Its mail is switched off in the desktop's settings.
    pub mail_disabled: bool,
    pub enabled_before: bool,
}

/// How an account signs in through the browser, if it does.
#[derive(Debug)]
pub struct Signing<T> {
    pub on: bool,
    pub settings: Option<OAuthSettings<T>>,
    pub refresh: T,
}

/// A mail account; `T` is the type of a text.
#[derive(Debug)]
pub struct Account<T> {
    pub name: T,
    pub email: T,
    pub enabled: bool,
    pub incoming: Incoming<T>,
    pub outgoing: Outgoing<T>,
    pub login: Login<T>,
    pub look: Appearance<T>,
    pub goa: Desktop<T>,
    pub oauth: Signing<T>,
}

pub type AccountConfig = Account<String>;

pub type AccountFacts = Account<Seq<char>>;

pub open spec fn settings_view(s: OAuthSettings<String>) -> OAuthSettings<Seq<char>> {
    OAuthSettings {
        auth_url: s.auth_url@,
        token_url: s.token_url@,
        client_id: s.client_id@,
        client_secret: s.client_secret@,
        scopes: s.scopes@,
    }
}

pub open spec fn opt_settings(s: Option<OAuthSettings<String>>) -> Option<OAuthSettings<Seq<char>>> {
    match s {
        Some(s) => Some(settings_view(s)),
        None => None,
    }
}

impl View for Incoming<String> {
    type V = Incoming<Seq<char>>;

    open spec fn view(&self) -> Incoming<Seq<char>> {
        Incoming {
            protocol: self.protocol,
            host: self.host@,
            port: self.port,
            starttls: self.starttls,
            implicit_tls: self.implicit_tls,
        }
    }
}

impl View for Outgoing<String> {
    type V = Outgoing<Seq<char>>;

    open spec fn view(&self) -> Outgoing<Seq<char>> {
        Outgoing {
            host: self.host@,
            port: self.port,
            implicit_tls: self.implicit_tls,
            auth: self.auth,
        }
    }
}

impl View for Login<String> {
    type V = Login<Seq<char>>;

    open spec fn view(&self) -> Login<Seq<char>> {
        Login {
            username: self.username@,
            password: self.password@,
            smtp_separate: self.smtp_separate,
            smtp_username: self.smtp_username@,
            smtp_password: self.smtp_password@,
        }
    }
}

impl View for Appearance<String> {
    type V = Appearance<Seq<char>>;

    open spec fn view(&self) -> Appearance<Seq<char>> {
        Appearance {
            color: opt_text(self.color),
            emoji: opt_text(self.emoji),
            label: opt_text(self.label),
            signature: opt_text(self.signature),
            signature_html: self.signature_html,
        }
    }
}

impl View for Desktop<String> {
    type V = Desktop<Seq<char>>;

    open spec fn view(&self) -> Desktop<Seq<char>> {
        Desktop {
            id: opt_text(self.id),
            mail_disabled: self.mail_disabled,
            enabled_before: self.enabled_before,
        }
    }
}

impl View for Signing<String> {
    type V = Signing<Seq<char>>;

    open spec fn view(&self) -> Signing<Seq<char>> {
        Signing { on: self.on, settings: opt_settings(self.settings), refresh: self.refresh@ }
    }
}

impl View for Account<String> {
    type V = AccountFacts;

    open spec fn view(&self) -> AccountFacts {
        Account {
            name: self.name@,
            email: self.email@,
            enabled: self.enabled,
            incoming: self.incoming@,
            outgoing: self.outgoing@,
            login: self.login@,
            look: self.look@,
            goa: self.goa@,
            oauth: self.oauth@,
        }
    }
}

/// The accounts of a list.
pub open spec fn all_facts(v: Seq<AccountConfig>) -> Seq<AccountFacts> {
    v.map_values(|a: AccountConfig| a@)
}

pub(crate) fn copy_option(s: &Option<String>) -> (r: Option<String>)
    ensures
        opt_text(r) == opt_text(*s),
{
    match s {
        Some(t) => Some(copy_of(t.as_str())),
        None => None,
    }
}

fn copy_settings(s: &OAuthSettings<String>) -> (r: OAuthSettings<String>)
    ensures
        settings_view(r) == settings_view(*s),
{
    OAuthSettings {
        auth_url: copy_of(s.auth_url.as_str()),
        token_url: copy_of(s.token_url.as_str()),
        client_id: copy_of(s.client_id.as_str()),
        client_secret: copy_of(s.client_secret.as_str()),
        scopes: copy_of(s.scopes.as_str()),
    }
}

pub(crate) fn copy_opt_settings(s: &Option<OAuthSettings<String>>) -> (r: Option<OAuthSettings<String>>)
    ensures
        opt_settings(r) == opt_settings(*s),
{
    match s {
        Some(s) => Some(copy_settings(s)),
        None => None,
    }
}

impl Account<String> {
    pub fn copy(&self) -> (r: AccountConfig)
        ensures
            r@ == self@,
    {
        Account {
            name: copy_of(self.name.as_str()),
            email: copy_of(self.email.as_str()),
            enabled: self.enabled,
            incoming: Incoming {
                protocol: self.incoming.protocol,
                host: copy_of(self.incoming.host.as_str()),
                port: self.incoming.port,
                starttls: self.incoming.starttls,
                implicit_tls: self.incoming.implicit_tls,
            },
            outgoing: Outgoing {
                host: copy_of(self.outgoing.host.as_str()),
                port: self.outgoing.port,
                implicit_tls: self.outgoing.implicit_tls,
                auth: self.outgoing.auth,
            },
            login: Login {
                username: copy_of(self.login.username.as_str()),
                password: copy_of(self.login.password.as_str()),
                smtp_separate: self.login.smtp_separate,
                smtp_username: copy_of(self.login.smtp_username.as_str()),
                smtp_password: copy_of(self.login.smtp_password.as_str()),
            },
            look: Appearance {
                color: copy_option(&self.look.color),
                emoji: copy_option(&self.look.emoji),
                label: copy_option(&self.look.label),
                signature: copy_option(&self.look.signature),
                signature_html: self.look.signature_html,
            },
            goa: Desktop {
                id: copy_option(&self.goa.id),
                mail_disabled: self.goa.mail_disabled,
                enabled_before: self.goa.enabled_before,
            },
            oauth: Signing {
                on: self.oauth.on,
                settings: copy_opt_settings(&self.oauth.settings),
                refresh: copy_of(self.oauth.refresh.as_str()),
            },
        }
    }
}

impl<T> Account<T> {
    /// Whether the account comes from the desktop's online accounts.
    pub open spec fn managed(self) -> bool {
        self.goa.id is Some
    }
}

/// What an account is called.
pub open spec fn called(a: AccountFacts) -> Seq<char> {
    if trim(a.name).len() == 0 {
        a.email
    } else {
        a.name
    }
}

/// What an account is called: its name, or its address where it has none.
pub fn display_name(acc: &AccountConfig) -> (name: String)
    ensures
        name@ == called(acc@),
{
    if is_blank_text(acc.name.as_str()) {
        copy_of(acc.email.as_str())
    } else {
        copy_of(acc.name.as_str())
    }
}

/// The edited account with what its editor does not show: how each server is spoken
/// to as long as its port stays, and whether sending authenticates.
pub open spec fn with_transport(account: AccountFacts, original: AccountFacts) -> AccountFacts {
    Account {
        incoming: if account.incoming.port == original.incoming.port {
            Incoming {
                starttls: original.incoming.starttls,
                implicit_tls: original.incoming.implicit_tls,
                ..account.incoming
            }
        } else {
            account.incoming
        },
        outgoing: Outgoing {
            implicit_tls: if account.outgoing.port == original.outgoing.port {
                original.outgoing.implicit_tls
            } else {
                account.outgoing.implicit_tls
            },
            auth: original.outgoing.auth,
            ..account.outgoing
        },
        ..account
    }
}

/// Keeps what the editor does not show: how each server is spoken to as long as its
/// port stays, and whether sending authenticates.
pub fn preserve_hidden_transport(account: &mut AccountConfig, original: &AccountConfig)
    ensures
        final(account)@ == with_transport(old(account)@, original@),
{
    if account.incoming.port == original.incoming.port {
        account.incoming.starttls = original.incoming.starttls;
        account.incoming.implicit_tls = original.incoming.implicit_tls;
    }
    if account.outgoing.port == original.outgoing.port {
        account.outgoing.implicit_tls = original.outgoing.implicit_tls;
    }
    account.outgoing.auth = original.outgoing.auth;
}

// ----- The signature -----

/// The text between the tags.
pub open spec fn visible_text(s: Seq<char>) -> Seq<char>
    decreases s.len(),
{
    if s.len() == 0 {
        seq![]
    } else {
        let rest = visible_text(s.drop_last());
        if s.last() == '<' || s.last() == '>' || in_tag(s.drop_last()) {
            rest
        } else {
            rest.push(s.last())
        }
    }
}

/// Whether what follows stands in a tag.
pub open spec fn in_tag(s: Seq<char>) -> bool
    decreases s.len(),
{
    if s.len() == 0 {
        false
    } else if s.last() == '<' {
        true
    } else if s.last() == '>' {
        false
    } else {
        in_tag(s.drop_last())
    }
}

pub open spec fn hard_space() -> Seq<char> {
    seq!['&', 'n', 'b', 's', 'p', ';']
}

/// Whether nothing but spaces, hard ones among them, stands from `i` on.
pub open spec fn nothing_to_see(s: Seq<char>, i: int) -> bool
    decreases s.len() - i,
{
    if i >= s.len() {
        true
    } else if stands_at(s, hard_space(), i) {
        nothing_to_see(s, i + 6)
    } else {
        is_blank(s[i]) && nothing_to_see(s, i + 1)
    }
}

/// The elements that show something of their own, without a text in them.
pub open spec fn shows(tag: Seq<char>) -> bool {
    ||| tag == "img"@
    ||| tag == "svg"@
    ||| tag == "hr"@
    ||| tag == "video"@
    ||| tag == "canvas"@
    ||| tag == "object"@
    ||| tag == "embed"@
    ||| tag == "iframe"@
    ||| tag == "input"@
}

/// Whether the tag of an element that shows something opens at `i`, outside of any other
/// tag.
pub open spec fn shown_at(s: Seq<char>, i: int) -> bool {
    &&& 0 <= i < s.len()
    &&& s[i] == '<'
    &&& !in_tag(s.take(i))
    &&& shows(lower_all(s.subrange(i + 1, skip(s, i + 1, s.len() as int, Class::TagName))))
}

/// Whether a document has no visible content: no element that shows something, and
/// nothing but spaces between its tags.
pub open spec fn invisible(s: Seq<char>) -> bool {
    &&& nothing_to_see(visible_text(s), 0)
    &&& forall|i: int| !#[trigger] shown_at(s, i)
}

fn shows_something(s: &[char]) -> (r: bool)
    ensures
        r == (exists|i: int| #[trigger] shown_at(s@, i)),
{
    let n = s.len();
    let mut tag = false;
    let mut i: usize = 0;
    while i < n
        invariant
            i <= n,
            n == s.len(),
            tag == in_tag(s@.take(i as int)),
            forall|k: int| k < i ==> !#[trigger] shown_at(s@, k),
        decreases n - i,
    {
        assert(s@.take(i + 1).drop_last() =~= s@.take(i as int));
        if s[i] == '<' && !tag {
            let end = skip_over(s, i + 1, n, Class::TagName);
            let lowered = lower_chars(slice_subrange(s, i + 1, end));
            let text = string_of(&lowered);
            let name = text.as_str();
            if same(name, "img") || same(name, "svg") || same(name, "hr") || same(name, "video")
                || same(name, "canvas") || same(name, "object") || same(name, "embed") || same(
                name,
                "iframe",
            ) || same(name, "input") {
                proof {
                    assert(shown_at(s@, i as int));
                }
                return true;
            }
        }
        if s[i] == '<' {
            tag = true;
        } else if s[i] == '>' {
            tag = false;
        }
        i = i + 1;
    }
    false
}

fn text_between_tags(s: &[char]) -> (out: Vec<char>)
    ensures
        out@ == visible_text(s@),
{
    let mut out: Vec<char> = Vec::new();
    let mut tag = false;
    let mut i: usize = 0;
    while i < s.len()
        invariant
            i <= s.len(),
            tag == in_tag(s@.take(i as int)),
            out@ == visible_text(s@.take(i as int)),
        decreases s.len() - i,
    {
        assert(s@.take(i + 1).drop_last() =~= s@.take(i as int));
        let c = s[i];
        if c == '<' {
            tag = true;
        } else if c == '>' {
            tag = false;
        } else if !tag {
            out.push(c);
        }
        i = i + 1;
    }
    assert(s@.take(i as int) =~= s@);
    out
}

/// Whether a signature has no visible content.
pub fn signature_is_empty(html: &str) -> (r: bool)
    ensures
        r == invisible(html@),
{
    let chars = chars_of(html);
    if shows_something(&chars) {
        return false;
    }
    let v = text_between_tags(&chars);
    let hard: Vec<char> = vec!['&', 'n', 'b', 's', 'p', ';'];
    assert(hard@ =~= hard_space());
    let mut i: usize = 0;
    while i < v.len()
        invariant
            i <= v.len(),
            v@ == visible_text(html@),
            forall|k: int| !#[trigger] shown_at(html@, k),
            hard@ == hard_space(),
            nothing_to_see(v@, 0) == nothing_to_see(v@, i as int),
        decreases v.len() - i,
    {
        if matches_at(&v, &hard, i) {
            i = i + 6;
        } else if blank(v[i]) {
            i = i + 1;
        } else {
            return false;
        }
    }
    true
}

// ----- The editor's form -----

/// What is entered on the servers.
#[derive(Debug)]
pub struct ServerForm<T> {
    /// The choice among IMAP and POP3.
    pub protocol: u32,
    pub host: T,
    pub port: T,
    pub smtp_host: T,
    pub smtp_port: T,
}

/// What is entered in the editor of an account.
#[derive(Debug)]
pub struct AccountForm<T> {
    /// The choice among the providers.
    pub provider: u32,
    pub name: T,
    pub email: T,
    pub label: T,
    pub color: T,
    pub servers: ServerForm<T>,
    pub login: Login<T>,
    pub oauth: OAuthSettings<T>,
}

pub type Form = AccountForm<String>;

impl View for AccountForm<String> {
    type V = AccountForm<Seq<char>>;

    open spec fn view(&self) -> AccountForm<Seq<char>> {
        AccountForm {
            provider: self.provider,
            name: self.name@,
            email: self.email@,
            label: self.label@,
            color: self.color@,
            servers: ServerForm {
                protocol: self.servers.protocol,
                host: self.servers.host@,
                port: self.servers.port@,
                smtp_host: self.servers.smtp_host@,
                smtp_port: self.servers.smtp_port@,
            },
            login: self.login@,
            oauth: settings_view(self.oauth),
        }
    }
}

pub open spec fn protocol_of(choice: u32) -> Protocol {
    if choice == 1 {
        Protocol::Pop3
    } else {
        Protocol::Imap
    }
}

/// The port that is entered, or the usual one where none is.
pub open spec fn port_of(text: Seq<char>, usual: u16) -> u16 {
    match parse_number(trim(text), 65535) {
        Some(n) => n as u16,
        None => usual,
    }
}

pub open spec fn usual_port(p: Protocol) -> u16 {
    if p == Protocol::Pop3 {
        995
    } else {
        993
    }
}

/// The incoming server as entered: by convention port 143 is upgraded to TLS and 993
/// speaks it at once.
pub open spec fn incoming_of(f: ServerForm<Seq<char>>) -> Incoming<Seq<char>> {
    let protocol = protocol_of(f.protocol);
    let port = port_of(f.port, usual_port(protocol));
    Incoming {
        protocol,
        host: trim(f.host),
        port,
        starttls: protocol == Protocol::Imap && port == 143,
        implicit_tls: protocol == Protocol::Imap && port == 993,
    }
}

pub open spec fn outgoing_of(f: ServerForm<Seq<char>>) -> Outgoing<Seq<char>> {
    let port = port_of(f.smtp_port, 587);
    Outgoing { host: trim(f.smtp_host), port, implicit_tls: port == 465, auth: true }
}

/// A label of its own; one that is empty or the address is none.
pub open spec fn label_in(f: AccountForm<Seq<char>>) -> Option<Seq<char>> {
    if trim(f.label).len() == 0 || trim(f.label) == trim(f.email) {
        None
    } else {
        Some(trim(f.label))
    }
}

/// The account as entered.
pub open spec fn entered(f: AccountForm<Seq<char>>, emoji: Option<Seq<char>>) -> AccountFacts {
    Account {
        name: trim(f.name),
        email: trim(f.email),
        enabled: true,
        incoming: incoming_of(f.servers),
        outgoing: outgoing_of(f.servers),
        login: Login {
            username: trim(f.login.username),
            password: f.login.password,
            smtp_separate: f.login.smtp_separate,
            smtp_username: trim(f.login.smtp_username),
            smtp_password: f.login.smtp_password,
        },
        look: Appearance {
            color: Some(f.color),
            emoji,
            label: label_in(f),
            signature: None,
            signature_html: true,
        },
        goa: Desktop { id: None, mail_disabled: false, enabled_before: false },
        oauth: Signing { on: false, settings: None, refresh: seq![] },
    }
}

fn read_port(text: &str, usual: u16) -> (port: u16)
    ensures
        port == port_of(text@, usual),
{
    let chars = chars_of(text);
    match read_number(trimmed(&chars), 65535) {
        Some(n) => n as u16,
        None => usual,
    }
}

fn read_incoming(f: &Form) -> (r: Incoming<String>)
    ensures
        r@ == incoming_of(f@.servers),
{
    let pop3 = f.servers.protocol == 1;
    let port = read_port(
        f.servers.port.as_str(),
        if pop3 {
            995
        } else {
            993
        },
    );
    Incoming {
        protocol: if pop3 {
            Protocol::Pop3
        } else {
            Protocol::Imap
        },
        host: trimmed_string(f.servers.host.as_str()),
        port,
        starttls: !pop3 && port == 143,
        implicit_tls: !pop3 && port == 993,
    }
}

fn read_outgoing(f: &Form) -> (r: Outgoing<String>)
    ensures
        r@ == outgoing_of(f@.servers),
{
    let port = read_port(f.servers.smtp_port.as_str(), 587);
    Outgoing {
        host: trimmed_string(f.servers.smtp_host.as_str()),
        port,
        implicit_tls: port == 465,
        auth: true,
    }
}

fn read_label(f: &Form) -> (r: Option<String>)
    ensures
        opt_text(r) == label_in(f@),
{
    let label = trimmed_string(f.label.as_str());
    if label.as_str().is_empty() || same(
        label.as_str(),
        trimmed_string(f.email.as_str()).as_str(),
    ) {
        None
    } else {
        Some(label)
    }
}

/// The account as entered in the editor.
pub fn read_account(f: &Form, emoji: &Option<String>) -> (a: AccountConfig)
    ensures
        a@ == entered(f@, opt_text(*emoji)),
{
    let none = String::new();
    assert(none@ =~= seq![]);
    Account {
        name: trimmed_string(f.name.as_str()),
        email: trimmed_string(f.email.as_str()),
        enabled: true,
        incoming: read_incoming(f),
        outgoing: read_outgoing(f),
        login: Login {
            username: trimmed_string(f.login.username.as_str()),
            password: copy_of(f.login.password.as_str()),
            smtp_separate: f.login.smtp_separate,
            smtp_username: trimmed_string(f.login.smtp_username.as_str()),
            smtp_password: copy_of(f.login.smtp_password.as_str()),
        },
        look: Appearance {
            color: Some(copy_of(f.color.as_str())),
            emoji: copy_option(emoji),
            label: read_label(f),
            signature: None,
            signature_html: true,
        },
        goa: Desktop { id: None, mail_disabled: false, enabled_before: false },
        oauth: Signing { on: false, settings: None, refresh: none },
    }
}

/// The fields of an account's own sign-in. An account of the desktop's cannot sign in
/// again here, so it shows none.
pub open spec fn shown_settings(a: AccountFacts) -> OAuthSettings<Seq<char>> {
    match a.oauth.settings {
        Some(s) => if !a.managed() && a.oauth.on {
            s
        } else {
            no_settings()
        },
        None => no_settings(),
    }
}

pub open spec fn no_settings() -> OAuthSettings<Seq<char>> {
    OAuthSettings {
        auth_url: seq![],
        token_url: seq![],
        client_id: seq![],
        client_secret: seq![],
        scopes: seq![],
    }
}

/// The place of the provider of an account: that of its sign-in by the token's
/// endpoint, otherwise that of its server.
pub open spec fn provider_place(a: AccountFacts) -> int {
    if !a.managed() && a.oauth.on {
        kind_place(
            match a.oauth.settings {
                Some(s) => if holds(s.token_url, "googleapis"@) {
                    ProviderKind::Google
                } else if holds(s.token_url, "microsoftonline"@) {
                    ProviderKind::Microsoft
                } else {
                    ProviderKind::CustomOAuth
                },
                None => ProviderKind::CustomOAuth,
            },
        )
    } else {
        preset_for_host(a.incoming.host)
    }
}

fn text_holds(s: &str, p: &str) -> (r: bool)
    ensures
        r == holds(s@, p@),
{
    let v = chars_of(s);
    find_from(&v, &chars_of(p), 0, v.len()).is_some()
}

/// The place of the provider of an account among the choices.
pub fn provider_index_for_account(acc: &AccountConfig) -> (r: u32)
    ensures
        r == provider_place(acc@),
{
    if acc.goa.id.is_none() && acc.oauth.on {
        let kind = match &acc.oauth.settings {
            Some(s) => if text_holds(s.token_url.as_str(), "googleapis") {
                ProviderKind::Google
            } else if text_holds(s.token_url.as_str(), "microsoftonline") {
                ProviderKind::Microsoft
            } else {
                ProviderKind::CustomOAuth
            },
            None => ProviderKind::CustomOAuth,
        };
        return kind_index(kind);
    }
    preset_index_for_host(acc.incoming.host.as_str())
}

/// The colour of an account that has none.
pub const DEFAULT_COLOR: &'static str = "#3584e4";

pub open spec fn text_or(s: Option<Seq<char>>, other: Seq<char>) -> Seq<char> {
    match s {
        Some(s) => s,
        None => other,
    }
}

pub(crate) fn text_or_else(s: &Option<String>, other: &str) -> (r: String)
    ensures
        r@ == text_or(opt_text(*s), other@),
{
    match s {
        Some(t) => copy_of(t.as_str()),
        None => copy_of(other),
    }
}

pub open spec fn protocol_choice(p: Protocol) -> u32 {
    if p == Protocol::Pop3 {
        1
    } else {
        0
    }
}

/// The form that shows an account.
pub open spec fn filled(a: AccountFacts) -> AccountForm<Seq<char>> {
    AccountForm {
        provider: provider_place(a) as u32,
        name: a.name,
        email: a.email,
        label: text_or(a.look.label, a.email),
        color: text_or(a.look.color, DEFAULT_COLOR@),
        servers: ServerForm {
            protocol: protocol_choice(a.incoming.protocol),
            host: a.incoming.host,
            port: decimal(a.incoming.port as nat),
            smtp_host: a.outgoing.host,
            smtp_port: decimal(a.outgoing.port as nat),
        },
        login: a.login,
        oauth: shown_settings(a),
    }
}

fn empty_settings() -> (r: OAuthSettings<String>)
    ensures
        settings_view(r) == no_settings(),
{
    let r = OAuthSettings {
        auth_url: String::new(),
        token_url: String::new(),
        client_id: String::new(),
        client_secret: String::new(),
        scopes: String::new(),
    };
    assert(r.auth_url@ =~= seq![] && r.token_url@ =~= seq![] && r.client_id@ =~= seq![]
        && r.client_secret@ =~= seq![] && r.scopes@ =~= seq![]);
    r
}

fn settings_to_show(acc: &AccountConfig) -> (r: OAuthSettings<String>)
    ensures
        settings_view(r) == shown_settings(acc@),
{
    match &acc.oauth.settings {
        Some(s) => if acc.goa.id.is_none() && acc.oauth.on {
            copy_settings(s)
        } else {
            empty_settings()
        },
        None => empty_settings(),
    }
}

fn copy_login(l: &Login<String>) -> (r: Login<String>)
    ensures
        r@ == l@,
{
    Login {
        username: copy_of(l.username.as_str()),
        password: copy_of(l.password.as_str()),
        smtp_separate: l.smtp_separate,
        smtp_username: copy_of(l.smtp_username.as_str()),
        smtp_password: copy_of(l.smtp_password.as_str()),
    }
}

/// The form that shows an account.
pub fn fill_editor(acc: &AccountConfig) -> (f: Form)
    ensures
        f@ == filled(acc@),
{
    AccountForm {
        provider: provider_index_for_account(acc),
        name: copy_of(acc.name.as_str()),
        email: copy_of(acc.email.as_str()),
        label: text_or_else(&acc.look.label, acc.email.as_str()),
        color: text_or_else(&acc.look.color, DEFAULT_COLOR),
        servers: ServerForm {
            protocol: if acc.incoming.protocol == Protocol::Pop3 {
                1
            } else {
                0
            },
            host: copy_of(acc.incoming.host.as_str()),
            port: decimal_string(acc.incoming.port as u64),
            smtp_host: copy_of(acc.outgoing.host.as_str()),
            smtp_port: decimal_string(acc.outgoing.port as u64),
        },
        login: copy_login(&acc.login),
        oauth: settings_to_show(acc),
    }
}

/// The form for a new account.
pub open spec fn blank_form() -> AccountForm<Seq<char>> {
    AccountForm {
        provider: kind_place(ProviderKind::Manual) as u32,
        name: seq![],
        email: seq![],
        label: seq![],
        color: DEFAULT_COLOR@,
        servers: ServerForm {
            protocol: 0,
            host: seq![],
            port: "993"@,
            smtp_host: seq![],
            smtp_port: "587"@,
        },
        login: Login {
            username: seq![],
            password: seq![],
            smtp_separate: false,
            smtp_username: seq![],
            smtp_password: seq![],
        },
        oauth: no_settings(),
    }
}

fn nothing() -> (s: String)
    ensures
        s@ == Seq::<char>::empty(),
{
    String::new()
}

/// The form for a new account.
pub fn clear_editor() -> (f: Form)
    ensures
        f@ == blank_form(),
{
    AccountForm {
        provider: manual_index(),
        name: nothing(),
        email: nothing(),
        label: nothing(),
        color: copy_of(DEFAULT_COLOR),
        servers: ServerForm {
            protocol: 0,
            host: nothing(),
            port: copy_of("993"),
            smtp_host: nothing(),
            smtp_port: copy_of("587"),
        },
        login: Login {
            username: nothing(),
            password: nothing(),
            smtp_separate: false,
            smtp_username: nothing(),
            smtp_password: nothing(),
        },
        oauth: empty_settings(),
    }
}

// ----- The form and its provider -----

/// What is built in for a provider to sign in with.
pub struct OAuthPreset<T> {
    pub settings: OAuthSettings<T>,
    pub imap_host: T,
    pub imap_port: u16,
    pub smtp_host: T,
    pub smtp_port: u16,
}

/// What is built in for the providers to sign in with.
pub struct OAuthPresets<T> {
    pub google: OAuthPreset<T>,
    pub microsoft: OAuthPreset<T>,
}

pub open spec fn preset_view(p: OAuthPreset<String>) -> OAuthPreset<Seq<char>> {
    OAuthPreset {
        settings: settings_view(p.settings),
        imap_host: p.imap_host@,
        imap_port: p.imap_port,
        smtp_host: p.smtp_host@,
        smtp_port: p.smtp_port,
    }
}

impl View for OAuthPresets<String> {
    type V = OAuthPresets<Seq<char>>;

    open spec fn view(&self) -> OAuthPresets<Seq<char>> {
        OAuthPresets { google: preset_view(self.google), microsoft: preset_view(self.microsoft) }
    }
}

/// Servers to fill in.
pub struct Servers<T> {
    pub host: T,
    pub port: T,
    pub smtp_host: T,
    pub smtp_port: T,
}

/// What the editor shows for a provider.
pub struct FormLayout<T> {
    pub hint: T,
    /// Whether the protocol, the name and the password to log in with, separate ones
    /// for sending, and a test of the connection are shown.
    pub password: bool,
    pub servers: bool,
    /// Whether the account's name and address are shown.
    pub identity: bool,
    /// Whether the way through the desktop's online accounts is shown.
    pub desktop_hint: bool,
    pub sign_in: bool,
    /// Whether the fields of a sign-in entered by hand are shown.
    pub client: bool,
    /// Separate credentials for sending are switched off.
    pub drop_separate: bool,
    /// What was said of signing in is taken back.
    pub hide_status: bool,
    pub fill: Option<Servers<T>>,
}

/// Whether the provider can be signed in to only through the desktop's online
/// accounts: there is no client to do it with.
pub open spec fn needs_desktop(p: Provider, presets: OAuthPresets<Seq<char>>) -> bool {
    p.kind == ProviderKind::Google && trim(presets.google.settings.client_id).len() == 0
}

pub open spec fn preset_servers(p: OAuthPreset<Seq<char>>) -> Servers<Seq<char>> {
    Servers {
        host: p.imap_host,
        port: decimal(p.imap_port as nat),
        smtp_host: p.smtp_host,
        smtp_port: decimal(p.smtp_port as nat),
    }
}

/// The servers that a provider fills in.
pub open spec fn servers_of(p: Provider, presets: OAuthPresets<Seq<char>>) -> Option<
    Servers<Seq<char>>,
> {
    match p.kind {
        ProviderKind::Preset => Some(
            Servers {
                host: p.imap_host@,
                port: decimal(p.imap_port as nat),
                smtp_host: p.smtp_host@,
                smtp_port: decimal(p.smtp_port as nat),
            },
        ),
        ProviderKind::Google => Some(preset_servers(presets.google)),
        ProviderKind::Microsoft => Some(preset_servers(presets.microsoft)),
        ProviderKind::Manual => None,
        ProviderKind::CustomOAuth => None,
    }
}

/// What the editor shows for the provider at a place.
pub open spec fn layout(place: u32, presets: OAuthPresets<Seq<char>>) -> FormLayout<Seq<char>> {
    let p = provider(place);
    let custom = p.kind == ProviderKind::CustomOAuth;
    let desktop = needs_desktop(p, presets);
    FormLayout {
        hint: p.hint@,
        password: p.takes_password(),
        servers: p.takes_password() || custom,
        identity: !desktop,
        desktop_hint: desktop,
        sign_in: !p.takes_password() && !desktop,
        client: custom,
        drop_separate: !p.takes_password(),
        hide_status: p.takes_password() || desktop,
        fill: servers_of(p, presets),
    }
}

pub open spec fn opt_servers(s: Option<Servers<String>>) -> Option<Servers<Seq<char>>> {
    match s {
        Some(s) => Some(
            Servers {
                host: s.host@,
                port: s.port@,
                smtp_host: s.smtp_host@,
                smtp_port: s.smtp_port@,
            },
        ),
        None => None,
    }
}

impl View for FormLayout<String> {
    type V = FormLayout<Seq<char>>;

    open spec fn view(&self) -> FormLayout<Seq<char>> {
        FormLayout {
            hint: self.hint@,
            password: self.password,
            servers: self.servers,
            identity: self.identity,
            desktop_hint: self.desktop_hint,
            sign_in: self.sign_in,
            client: self.client,
            drop_separate: self.drop_separate,
            hide_status: self.hide_status,
            fill: opt_servers(self.fill),
        }
    }
}

fn fill_servers(host: &str, port: u16, smtp_host: &str, smtp_port: u16) -> (s: Option<
    Servers<String>,
>)
    ensures
        opt_servers(s) == Some(
            Servers {
                host: host@,
                port: decimal(port as nat),
                smtp_host: smtp_host@,
                smtp_port: decimal(smtp_port as nat),
            },
        ),
{
    Some(
        Servers {
            host: copy_of(host),
            port: decimal_string(port as u64),
            smtp_host: copy_of(smtp_host),
            smtp_port: decimal_string(smtp_port as u64),
        },
    )
}

/// What the editor shows for the provider at a place: servers and credentials for
/// those with a password, a sign-in for the others, with the servers of those that
/// are known.
pub fn apply_provider(place: u32, presets: &OAuthPresets<String>) -> (l: FormLayout<String>)
    ensures
        l@ == layout(place, presets@),
{
    let p = provider_at(place);
    let password = p.is_password();
    let custom = p.kind == ProviderKind::CustomOAuth;
    let desktop = p.kind == ProviderKind::Google && is_blank_text(
        presets.google.settings.client_id.as_str(),
    );
    let fill: Option<Servers<String>> = match p.kind {
        ProviderKind::Preset => fill_servers(p.imap_host, p.imap_port, p.smtp_host, p.smtp_port),
        ProviderKind::Google => fill_servers(
            presets.google.imap_host.as_str(),
            presets.google.imap_port,
            presets.google.smtp_host.as_str(),
            presets.google.smtp_port,
        ),
        ProviderKind::Microsoft => fill_servers(
            presets.microsoft.imap_host.as_str(),
            presets.microsoft.imap_port,
            presets.microsoft.smtp_host.as_str(),
            presets.microsoft.smtp_port,
        ),
        ProviderKind::Manual => None,
        ProviderKind::CustomOAuth => None,
    };
    FormLayout {
        hint: copy_of(p.hint),
        password,
        servers: password || custom,
        identity: !desktop,
        desktop_hint: desktop,
        sign_in: !password && !desktop,
        client: custom,
        drop_separate: !password,
        hide_status: password || desktop,
        fill,
    }
}

/// How the account of a form signs in: as built in for the provider, or as entered.
pub open spec fn chosen_settings(
    f: AccountForm<Seq<char>>,
    presets: OAuthPresets<Seq<char>>,
) -> OAuthSettings<Seq<char>> {
    match provider(f.provider).kind {
        ProviderKind::Google => presets.google.settings,
        ProviderKind::Microsoft => presets.microsoft.settings,
        _ => OAuthSettings {
            auth_url: trim(f.oauth.auth_url),
            token_url: trim(f.oauth.token_url),
            client_id: trim(f.oauth.client_id),
            client_secret: f.oauth.client_secret,
            scopes: trim(f.oauth.scopes),
        },
    }
}

/// How the account of a form signs in: as built in for the provider, or as entered.
pub fn oauth_settings_from_form(f: &Form, presets: &OAuthPresets<String>) -> (s: OAuthSettings<
    String,
>)
    ensures
        settings_view(s) == chosen_settings(f@, presets@),
{
    match provider_at(f.provider).kind {
        ProviderKind::Google => copy_settings(&presets.google.settings),
        ProviderKind::Microsoft => copy_settings(&presets.microsoft.settings),
        _ => OAuthSettings {
            auth_url: trimmed_string(f.oauth.auth_url.as_str()),
            token_url: trimmed_string(f.oauth.token_url.as_str()),
            client_id: trimmed_string(f.oauth.client_id.as_str()),
            client_secret: copy_of(f.oauth.client_secret.as_str()),
            scopes: trimmed_string(f.oauth.scopes.as_str()),
        },
    }
}

} // verus!
