//! The window that manages the mail accounts: the list of them, and the editor of one.

use vstd::prelude::*;

use crate::account_form::{
    all_facts, apply_provider, blank_form, called, chosen_settings, clear_editor, copy_opt_settings,
    copy_option, display_name, entered, fill_editor, filled, invisible, layout,
    oauth_settings_from_form, preserve_hidden_transport, read_account, settings_view,
    signature_is_empty, text_or, text_or_else, with_transport, Account, AccountConfig,
    AccountFacts, AccountForm, Appearance, Desktop, Form, FormLayout, Login, OAuthPresets,
    OAuthSettings, Signing,
};
use crate::providers::{provider, provider_at};
use crate::text::{
    chars_of, copy_of, is_blank_text, lower_all, lower_chars, opt_text, same, same_chars, texts,
    trim, trimmed_string,
};

verus! {

/// A mail account of the desktop's that can be taken over; `account` is what it becomes.
pub struct GoaMailAccount<T> {
    pub email: T,
    pub provider: T,
    pub oauth2: bool,
    pub password_based: bool,
    pub account: Account<T>,
}

impl View for GoaMailAccount<String> {
    type V = GoaMailAccount<Seq<char>>;

    open spec fn view(&self) -> GoaMailAccount<Seq<char>> {
        GoaMailAccount {
            email: self.email@,
            provider: self.provider@,
            oauth2: self.oauth2,
            password_based: self.password_based,
            account: self.account@,
        }
    }
}

pub open spec fn all_goa(v: Seq<GoaMailAccount<String>>) -> Seq<GoaMailAccount<Seq<char>>> {
    v.map_values(|g: GoaMailAccount<String>| g@)
}

/// The accounts window.
pub struct AccountsWindow {
    /// The accounts in the order in which they are shown.
    pub accounts: Vec<AccountConfig>,
    /// Which one is edited, none while one is added.
    pub editing: Option<usize>,
    /// The emoji that is chosen in the editor.
    pub emoji: Option<String>,
    /// The address that the label mirrors until it is changed by hand.
    pub label_synced: String,
    /// The desktop's accounts that are not here yet.
    pub goa: Vec<GoaMailAccount<String>>,
    /// What a sign-in brought, until the account is saved.
    pub pending_oauth_refresh: Option<String>,
}

/// The accounts window, with its texts as sequences of characters.
pub struct AccountsState {
    pub accounts: Seq<AccountFacts>,
    pub editing: Option<usize>,
    pub emoji: Option<Seq<char>>,
    pub label_synced: Seq<char>,
    pub goa: Seq<GoaMailAccount<Seq<char>>>,
    pub pending: Option<Seq<char>>,
}

impl View for AccountsWindow {
    type V = AccountsState;

    open spec fn view(&self) -> AccountsState {
        AccountsState {
            accounts: all_facts(self.accounts@),
            editing: self.editing,
            emoji: opt_text(self.emoji),
            label_synced: self.label_synced@,
            goa: all_goa(self.goa@),
            pending: opt_text(self.pending_oauth_refresh),
        }
    }
}

#[allow(inconsistent_fields)]
#[derive(Debug)]
pub enum AccountsInput {
    AddAccount,
    EditAccount(usize),
    /// The address changed; the label as it stands.
    EmailChanged { email: String, label: String },
    MoveRow { from: usize, to: usize },
    /// Switch an account on or off in the list.
    ToggleEnabled { index: usize, enabled: bool },
    /// Switch the account in the editor on or off.
    ToggleCurrentEnabled(bool),
    /// Take over one of the desktop's accounts.
    ImportGoa(usize),
    /// Another provider was chosen.
    ProviderChanged(u32),
    OAuthSignIn(Form),
    OpenOnlineAccounts,
    SetEmoji(String),
    ClearEmoji,
    TestConnection(Form),
    Save,
    /// Save, once the signature has been read from its editor.
    SaveWithSig { sig_html: String, form: Form },
    /// Ask whether to remove the account in the editor.
    RemoveCurrent,
    ConfirmRemove,
}

/// What the window reports; `T` is the type of a text and `L` that of a list of them.
#[allow(inconsistent_fields)]
#[derive(Debug)]
pub enum AccountsOutput<T, L> {
    /// The account was saved, under this address before if it was edited.
    Saved { original_email: Option<T>, account: Account<T> },
    Removed { email: T },
    /// The addresses in their new order.
    Reordered(L),
    EnabledChanged { email: T, enabled: bool },
    ImportGoa(Account<T>),
    Closed,
}

/// A test of both servers.
#[derive(Debug)]
pub struct ConnTest {
    pub incoming: Result<(), String>,
    pub smtp: Result<(), String>,
}

/// What came of work in the background.
#[derive(Debug)]
pub enum AccountsCmd {
    /// A test of the connection, with the choice of the protocol.
    Test(ConnTest, u32),
    /// A sign-in: what to sign in with from now on, or what went wrong.
    OAuth(Result<String, String>),
}

/// How a status line looks.
#[derive(Debug, Clone, Copy, PartialEq, Eq, Structural)]
pub enum StatusClass {
    Dim,
    Success,
    Error,
}

/// What the window is to do next.
#[allow(inconsistent_fields)]
pub enum AccountsStep<T, L> {
    /// Fill the editor; what was said of tests and of signing in is taken back.
    Fill(AccountForm<T>),
    Layout(FormLayout<T>),
    /// Whether the fields of the connection can be edited.
    SetEditable(bool),
    SetSignature(Option<T>),
    SetEmojiLabel(T),
    /// Whether the account can be removed, and whether it is the desktop's.
    ShowGroups { remove: bool, manage: bool },
    /// The switch of an account of the desktop's.
    SetManaged { enabled: bool, sensitive: bool, note: T },
    OpenEditor,
    CloseEditor,
    SetLabel(T),
    ListAccounts,
    /// List the desktop's accounts again, where there are any.
    ListGoa { shown: bool },
    Output(AccountsOutput<T, L>),
    Test(Account<T>),
    /// What to say of the test, and whether another can be started.
    TestStatus { text: T, class: StatusClass, ready: bool },
    SignIn(OAuthSettings<T>),
    /// What to say of signing in.
    SignInStatus { text: T, class: StatusClass },
    /// Whether a sign-in can be started.
    SignInReady(bool),
    OpenOnlineAccounts,
    /// Read the signature from its editor.
    ReadSignature,
    /// Whether the server's field is marked as wrong.
    MarkHost(bool),
    AskRemoval(T),
}

pub type Output = AccountsOutput<String, Vec<String>>;

pub type Report = AccountsOutput<Seq<char>, Seq<Seq<char>>>;

pub type Step = AccountsStep<String, Vec<String>>;

pub type Deed = AccountsStep<Seq<char>, Seq<Seq<char>>>;

pub open spec fn output_view(o: Output) -> Report {
    match o {
        AccountsOutput::Saved { original_email, account } => AccountsOutput::Saved {
            original_email: opt_text(original_email),
            account: account@,
        },
        AccountsOutput::Removed { email } => AccountsOutput::Removed { email: email@ },
        AccountsOutput::Reordered(v) => AccountsOutput::Reordered(texts(v@)),
        AccountsOutput::EnabledChanged { email, enabled } => AccountsOutput::EnabledChanged {
            email: email@,
            enabled,
        },
        AccountsOutput::ImportGoa(a) => AccountsOutput::ImportGoa(a@),
        AccountsOutput::Closed => AccountsOutput::Closed,
    }
}

impl View for AccountsStep<String, Vec<String>> {
    type V = Deed;

    open spec fn view(&self) -> Deed {
        match *self {
            AccountsStep::Fill(f) => AccountsStep::Fill(f@),
            AccountsStep::Layout(l) => AccountsStep::Layout(l@),
            AccountsStep::SetEditable(b) => AccountsStep::SetEditable(b),
            AccountsStep::SetSignature(s) => AccountsStep::SetSignature(opt_text(s)),
            AccountsStep::SetEmojiLabel(t) => AccountsStep::SetEmojiLabel(t@),
            AccountsStep::ShowGroups { remove, manage } => AccountsStep::ShowGroups {
                remove,
                manage,
            },
            AccountsStep::SetManaged { enabled, sensitive, note } => AccountsStep::SetManaged {
                enabled,
                sensitive,
                note: note@,
            },
            AccountsStep::OpenEditor => AccountsStep::OpenEditor,
            AccountsStep::CloseEditor => AccountsStep::CloseEditor,
            AccountsStep::SetLabel(t) => AccountsStep::SetLabel(t@),
            AccountsStep::ListAccounts => AccountsStep::ListAccounts,
            AccountsStep::ListGoa { shown } => AccountsStep::ListGoa { shown },
            AccountsStep::Output(o) => AccountsStep::Output(output_view(o)),
            AccountsStep::Test(a) => AccountsStep::Test(a@),
            AccountsStep::TestStatus { text, class, ready } => AccountsStep::TestStatus {
                text: text@,
                class,
                ready,
            },
            AccountsStep::SignIn(s) => AccountsStep::SignIn(settings_view(s)),
            AccountsStep::SignInStatus { text, class } => AccountsStep::SignInStatus {
                text: text@,
                class,
            },
            AccountsStep::SignInReady(b) => AccountsStep::SignInReady(b),
            AccountsStep::OpenOnlineAccounts => AccountsStep::OpenOnlineAccounts,
            AccountsStep::ReadSignature => AccountsStep::ReadSignature,
            AccountsStep::MarkHost(b) => AccountsStep::MarkHost(b),
            AccountsStep::AskRemoval(t) => AccountsStep::AskRemoval(t@),
        }
    }
}

pub open spec fn deeds(v: Seq<Step>) -> Seq<Deed> {
    v.map_values(|s: Step| s@)
}

pub type Turn = (AccountsState, Seq<Deed>);

/// The addresses of the accounts.
pub open spec fn emails(v: Seq<AccountFacts>) -> Seq<Seq<char>> {
    v.map_values(|a: AccountFacts| a.email)
}

pub open spec fn disabled_note(disabled: bool) -> Seq<char> {
    if disabled {
        "Mail is disabled for this account in GNOME Settings"@
    } else {
        seq![]
    }
}

pub open spec fn removal_question(name: Seq<char>) -> Seq<char> {
    "Remove "@ + name
        + " from Vireo? Its saved password is deleted from the keyring. Mail on the server is not affected."@
}

/// The account that is saved where one was edited: what the editor does not show is
/// kept, and the sign-in of an account of the desktop's.
pub open spec fn kept_on_save(account: AccountFacts, original: AccountFacts) -> AccountFacts {
    let a = with_transport(account, original);
    Account {
        enabled: original.enabled,
        goa: original.goa,
        oauth: if original.managed() {
            Signing {
                on: original.oauth.on,
                settings: original.oauth.settings,
                refresh: a.oauth.refresh,
            }
        } else {
            a.oauth
        },
        ..a
    }
}

/// The account that is tested where one is edited.
pub open spec fn kept_on_test(account: AccountFacts, original: AccountFacts) -> AccountFacts {
    let a = with_transport(account, original);
    Account {
        goa: Desktop { id: original.goa.id, ..a.goa },
        oauth: if original.managed() {
            Signing {
                on: original.oauth.on,
                settings: original.oauth.settings,
                refresh: a.oauth.refresh,
            }
        } else {
            a.oauth
        },
        ..a
    }
}

/// The account with the sign-in of its form, unless it is the desktop's.
pub open spec fn with_sign_in(
    a: AccountFacts,
    form: AccountForm<Seq<char>>,
    presets: OAuthPresets<Seq<char>>,
    pending: Option<Seq<char>>,
) -> AccountFacts {
    if a.managed() {
        a
    } else if provider(form.provider).takes_password() {
        Account { oauth: Signing { on: false, settings: None, refresh: a.oauth.refresh }, ..a }
    } else {
        Account {
            oauth: Signing {
                on: true,
                settings: Some(chosen_settings(form, presets)),
                refresh: text_or(pending, a.oauth.refresh),
            },
            login: Login {
                username: if trim(a.login.username).len() == 0 {
                    a.email
                } else {
                    a.login.username
                },
                ..a.login
            },
            ..a
        }
    }
}

/// The signature as entered, none where it shows nothing.
pub open spec fn signature_of(sig_html: Seq<char>) -> Option<Seq<char>> {
    if invisible(trim(sig_html)) {
        None
    } else {
        Some(sig_html)
    }
}

/// Whether an account that signs in through the browser here has a client and was
/// signed in.
pub open spec fn signed_in(
    a: AccountFacts,
    pending: Option<Seq<char>>,
    original: Option<AccountFacts>,
) -> bool {
    if a.oauth.on && !a.managed() {
        &&& match a.oauth.settings {
            Some(s) => trim(s.client_id).len() > 0,
            None => false,
        }
        &&& pending is Some || match original {
            Some(o) => o.oauth.on,
            None => false,
        }
    } else {
        true
    }
}

/// Whether an account has what it takes: a server, a name to log in with, and a
/// password unless it signs in otherwise; the same for sending where that is separate.
/// The desktop keeps the passwords of its own accounts.
pub open spec fn complete(a: AccountFacts) -> bool {
    &&& a.incoming.host.len() > 0
    &&& a.login.username.len() > 0
    &&& a.oauth.on || a.managed() || a.login.password.len() > 0
    &&& !a.login.smtp_separate || (a.login.smtp_username.len() > 0 && (a.managed()
        || a.login.smtp_password.len() > 0))
}

impl AccountsState {
    /// The account that is edited, as it was.
    pub open spec fn original(self) -> Option<AccountFacts> {
        match self.editing {
            Some(i) => if i < self.accounts.len() {
                Some(self.accounts[i as int])
            } else {
                None
            },
            None => None,
        }
    }

    #[verifier::opaque]
    pub open spec fn add_account(self, presets: OAuthPresets<Seq<char>>) -> Turn {
        (
            AccountsState {
                editing: None,
                emoji: None,
                label_synced: seq![],
                pending: None,
                ..self
            },
            seq![
                AccountsStep::Fill(blank_form()),
                AccountsStep::Layout(layout(blank_form().provider, presets)),
                AccountsStep::SetEditable(true),
                AccountsStep::SetSignature(None),
                AccountsStep::SetEmojiLabel("Add"@),
                AccountsStep::ShowGroups { remove: false, manage: false },
                AccountsStep::OpenEditor,
            ],
        )
    }

    #[verifier::opaque]
    pub open spec fn edit_account(self, i: usize, presets: OAuthPresets<Seq<char>>) -> Turn {
        if i >= self.accounts.len() {
            (self, seq![])
        } else {
            let a = self.accounts[i as int];
            (
                AccountsState {
                    editing: Some(i),
                    emoji: a.look.emoji,
                    label_synced: a.email,
                    pending: None,
                    ..self
                },
                seq![
                    AccountsStep::Fill(filled(a)),
                    AccountsStep::Layout(layout(filled(a).provider, presets)),
                    AccountsStep::SetSignature(a.look.signature),
                    AccountsStep::SetEmojiLabel(text_or(a.look.emoji, "Add"@)),
                    AccountsStep::SetEditable(!a.managed()),
                    AccountsStep::ShowGroups { remove: !a.managed(), manage: a.managed() },
                    AccountsStep::SetManaged {
                        enabled: a.enabled,
                        sensitive: !a.goa.mail_disabled,
                        note: disabled_note(a.goa.mail_disabled),
                    },
                    AccountsStep::OpenEditor,
                ],
            )
        }
    }

    #[verifier::opaque]
    pub open spec fn email_changed(self, email: Seq<char>, label: Seq<char>) -> Turn {
        (
            AccountsState { label_synced: trim(email), ..self },
            if label.len() == 0 || label == self.label_synced {
                seq![AccountsStep::SetLabel(trim(email))]
            } else {
                seq![]
            },
        )
    }

    #[verifier::opaque]
    pub open spec fn move_row(self, from: usize, to: usize) -> Turn {
        if from >= self.accounts.len() {
            (self, seq![])
        } else {
            let rest = self.accounts.remove(from as int);
            let place = if to <= rest.len() {
                to as int
            } else {
                rest.len() as int
            };
            let accounts = rest.insert(place, self.accounts[from as int]);
            (
                AccountsState { accounts, ..self },
                seq![
                    AccountsStep::ListAccounts,
                    AccountsStep::Output(AccountsOutput::Reordered(emails(accounts))),
                ],
            )
        }
    }

    /// Whether switching an account on or off changes anything; one whose mail is
    /// switched off in the desktop's settings stays as it is.
    pub open spec fn can_switch(self, i: usize, enabled: bool) -> bool {
        i < self.accounts.len() && !self.accounts[i as int].goa.mail_disabled && self.accounts[i as int].enabled
            != enabled
    }

    pub open spec fn switched(self, i: usize, enabled: bool) -> AccountsState {
        AccountsState {
            accounts: self.accounts.update(
                i as int,
                Account { enabled, ..self.accounts[i as int] },
            ),
            ..self
        }
    }

    #[verifier::opaque]
    pub open spec fn toggle_enabled(self, i: usize, enabled: bool) -> Turn {
        if self.can_switch(i, enabled) {
            (
                self.switched(i, enabled),
                seq![
                    AccountsStep::Output(
                        AccountsOutput::EnabledChanged {
                            email: self.accounts[i as int].email,
                            enabled,
                        },
                    ),
                ],
            )
        } else {
            (self, seq![])
        }
    }

    #[verifier::opaque]
    pub open spec fn toggle_current(self, enabled: bool) -> Turn {
        match self.editing {
            Some(i) => {
                let (s, steps) = self.toggle_enabled(i, enabled);
                (
                    s,
                    if self.can_switch(i, enabled) {
                        steps.push(AccountsStep::ListAccounts)
                    } else {
                        steps
                    },
                )
            },
            None => (self, seq![]),
        }
    }

    #[verifier::opaque]
    pub open spec fn import_goa(self, i: usize) -> Turn {
        if i >= self.goa.len() {
            (self, seq![])
        } else {
            let account = self.goa[i as int].account;
            (
                AccountsState {
                    goa: self.goa.remove(i as int),
                    accounts: self.accounts.push(account),
                    ..self
                },
                seq![
                    AccountsStep::ListAccounts,
                    AccountsStep::ListGoa { shown: self.goa.len() > 1 },
                    AccountsStep::Output(AccountsOutput::ImportGoa(account)),
                ],
            )
        }
    }

    #[verifier::opaque]
    pub open spec fn oauth_sign_in(
        self,
        form: AccountForm<Seq<char>>,
        presets: OAuthPresets<Seq<char>>,
    ) -> Turn {
        let s = chosen_settings(form, presets);
        (
            self,
            if trim(s.client_id).len() == 0 || s.auth_url.len() == 0 || s.token_url.len() == 0 {
                seq![
                    AccountsStep::SignInStatus {
                        text: "Enter a client ID (and endpoints for a custom provider) first"@,
                        class: StatusClass::Error,
                    },
                ]
            } else {
                seq![
                    AccountsStep::SignInReady(false),
                    AccountsStep::SignInStatus {
                        text: "Opening browser… complete sign-in there."@,
                        class: StatusClass::Dim,
                    },
                    AccountsStep::SignIn(s),
                ]
            },
        )
    }

    #[verifier::opaque]
    pub open spec fn test_connection(self, form: AccountForm<Seq<char>>) -> Turn {
        let read = entered(form, self.emoji);
        let account = match self.original() {
            Some(o) => kept_on_test(read, o),
            None => read,
        };
        (
            self,
            seq![
                AccountsStep::TestStatus {
                    text: "Testing…"@,
                    class: StatusClass::Dim,
                    ready: false,
                },
                AccountsStep::Test(account),
            ],
        )
    }

    /// The account that a form makes.
    #[verifier::opaque]
    pub open spec fn made(
        self,
        sig_html: Seq<char>,
        form: AccountForm<Seq<char>>,
        presets: OAuthPresets<Seq<char>>,
    ) -> AccountFacts {
        let read = entered(form, self.emoji);
        let signed = Account {
            look: Appearance { signature: signature_of(sig_html), ..read.look },
            ..read
        };
        let kept = match self.original() {
            Some(o) => kept_on_save(signed, o),
            None => signed,
        };
        with_sign_in(kept, form, presets, self.pending)
    }

    /// The accounts with one saved: in the place of the one that was edited, or behind
    /// the others.
    pub open spec fn saved(self, account: AccountFacts) -> Seq<AccountFacts> {
        match self.editing {
            Some(i) => if i < self.accounts.len() {
                self.accounts.update(i as int, account)
            } else {
                self.accounts.push(account)
            },
            None => self.accounts.push(account),
        }
    }

    #[verifier::opaque]
    pub open spec fn save(
        self,
        sig_html: Seq<char>,
        form: AccountForm<Seq<char>>,
        presets: OAuthPresets<Seq<char>>,
    ) -> Turn {
        let account = self.made(sig_html, form, presets);
        let ready = signed_in(account, self.pending, self.original());
        let warned = if ready {
            seq![AccountsStep::MarkHost(false)]
        } else {
            seq![
                AccountsStep::MarkHost(false),
                AccountsStep::SignInStatus {
                    text: "Enter a client ID and sign in before saving"@,
                    class: StatusClass::Error,
                },
            ]
        };
        if !ready || !complete(account) {
            (self, warned.push(AccountsStep::MarkHost(true)))
        } else {
            (
                AccountsState { accounts: self.saved(account), pending: None, ..self },
                warned + seq![
                    AccountsStep::ListAccounts,
                    AccountsStep::Output(
                        AccountsOutput::Saved {
                            original_email: match self.original() {
                                Some(o) => Some(o.email),
                                None => None,
                            },
                            account,
                        },
                    ),
                    AccountsStep::CloseEditor,
                ],
            )
        }
    }

    #[verifier::opaque]
    pub open spec fn remove_current(self) -> Turn {
        (
            self,
            match self.original() {
                Some(a) => seq![AccountsStep::AskRemoval(removal_question(called(a)))],
                None => seq![],
            },
        )
    }

    #[verifier::opaque]
    pub open spec fn confirm_remove(self) -> Turn {
        match self.original() {
            Some(a) => (
                AccountsState { accounts: self.accounts.remove(self.editing->0 as int), ..self },
                seq![
                    AccountsStep::ListAccounts,
                    AccountsStep::Output(AccountsOutput::Removed { email: a.email }),
                    AccountsStep::CloseEditor,
                ],
            ),
            None => (self, seq![AccountsStep::CloseEditor]),
        }
    }
}

/// What the window makes of an input.
pub open spec fn accounts_step(
    s: AccountsState,
    msg: AccountsInput,
    presets: OAuthPresets<Seq<char>>,
) -> Turn {
    match msg {
        AccountsInput::AddAccount => s.add_account(presets),
        AccountsInput::EditAccount(i) => s.edit_account(i, presets),
        AccountsInput::EmailChanged { email, label } => s.email_changed(email@, label@),
        AccountsInput::MoveRow { from, to } => s.move_row(from, to),
        AccountsInput::ToggleEnabled { index, enabled } => s.toggle_enabled(index, enabled),
        AccountsInput::ToggleCurrentEnabled(enabled) => s.toggle_current(enabled),
        AccountsInput::ImportGoa(i) => s.import_goa(i),
        AccountsInput::ProviderChanged(place) => (
            s,
            seq![AccountsStep::Layout(layout(place, presets))],
        ),
        AccountsInput::OAuthSignIn(form) => s.oauth_sign_in(form@, presets),
        AccountsInput::OpenOnlineAccounts => (s, seq![AccountsStep::OpenOnlineAccounts]),
        AccountsInput::SetEmoji(text) => (
            AccountsState { emoji: Some(text@), ..s },
            seq![AccountsStep::SetEmojiLabel(text@)],
        ),
        AccountsInput::ClearEmoji => (
            AccountsState { emoji: None, ..s },
            seq![AccountsStep::SetEmojiLabel("Add"@)],
        ),
        AccountsInput::TestConnection(form) => s.test_connection(form@),
        AccountsInput::Save => (s, seq![AccountsStep::ReadSignature]),
        AccountsInput::SaveWithSig { sig_html, form } => s.save(sig_html@, form@, presets),
        AccountsInput::RemoveCurrent => s.remove_current(),
        AccountsInput::ConfirmRemove => s.confirm_remove(),
    }
}

fn no_steps() -> (v: Vec<Step>)
    ensures
        deeds(v@) == Seq::<Deed>::empty(),
{
    let v: Vec<Step> = Vec::new();
    assert(deeds(v@) =~= Seq::<Deed>::empty());
    v
}

fn add_step(v: &mut Vec<Step>, step: Step)
    ensures
        deeds(final(v)@) == deeds(old(v)@).push(step@),
{
    v.push(step);
    assert(deeds(v@) =~= deeds(old(v)@).push(step@));
}

fn one_step(step: Step) -> (v: Vec<Step>)
    ensures
        deeds(v@) == seq![step@],
{
    let mut v = no_steps();
    add_step(&mut v, step);
    assert(deeds(v@) =~= seq![step@]);
    v
}

fn emails_of(accounts: &Vec<AccountConfig>) -> (r: Vec<String>)
    ensures
        texts(r@) == emails(all_facts(accounts@)),
{
    let mut r: Vec<String> = Vec::new();
    let mut k: usize = 0;
    while k < accounts.len()
        invariant
            k <= accounts.len(),
            texts(r@) == emails(all_facts(accounts@)).take(k as int),
        decreases accounts.len() - k,
    {
        let ghost all = emails(all_facts(accounts@));
        let ghost had = texts(r@);
        r.push(copy_of(accounts[k].email.as_str()));
        proof {
            assert(all[k as int] == accounts@[k as int].email@);
            assert(texts(r@) =~= had.push(accounts@[k as int].email@));
            assert(all.take(k + 1) =~= all.take(k as int).push(all[k as int]));
        }
        k = k + 1;
    }
    assert(emails(all_facts(accounts@)).take(k as int) =~= emails(all_facts(accounts@)));
    r
}

/// Keeps what belongs to an account of the desktop's.
fn keep_sign_in(account: &mut AccountConfig, original: &AccountConfig)
    ensures
        final(account)@ == (Account {
            oauth: if original@.managed() {
                Signing {
                    on: original@.oauth.on,
                    settings: original@.oauth.settings,
                    refresh: old(account)@.oauth.refresh,
                }
            } else {
                old(account)@.oauth
            },
            ..old(account)@
        }),
{
    if original.goa.id.is_some() {
        account.oauth.on = original.oauth.on;
        account.oauth.settings = copy_opt_settings(&original.oauth.settings);
    }
}


impl AccountsWindow {
    /// The window over these accounts; of the desktop's it offers those that are not
    /// among them, going by the address whatever its case.
    pub fn new(accounts: Vec<AccountConfig>, goa: Vec<GoaMailAccount<String>>) -> (w:
        AccountsWindow)
        ensures
            w@ == (AccountsState {
                accounts: all_facts(accounts@),
                editing: None,
                emoji: None,
                label_synced: seq![],
                goa: not_yet_here(all_goa(goa@), all_facts(accounts@)),
                pending: None,
            }),
    {
        let rest = offered(goa, &accounts);
        let w = AccountsWindow {
            accounts,
            editing: None,
            emoji: None,
            label_synced: String::new(),
            goa: rest,
            pending_oauth_refresh: None,
        };
        assert(w.label_synced@ =~= seq![]);
        w
    }

    /// The account that is edited, as it was.
    fn edited(&self) -> (r: Option<&AccountConfig>)
        ensures
            (match r {
                Some(a) => Some(a@),
                None => None,
            }) == self@.original(),
    {
        match self.editing {
            Some(i) => if i < self.accounts.len() {
                Some(&self.accounts[i])
            } else {
                None
            },
            None => None,
        }
    }

    fn on_add_account(&mut self, presets: &OAuthPresets<String>) -> (steps: Vec<Step>)
        ensures
            (final(self)@, deeds(steps@)) == old(self)@.add_account(presets@),
    {
        proof {
            reveal(AccountsState::add_account);
        }
        self.editing = None;
        self.emoji = None;
        self.label_synced = String::new();
        assert(self.label_synced@ =~= seq![]);
        self.pending_oauth_refresh = None;
        let form = clear_editor();
        let shown = apply_provider(form.provider, presets);
        let mut steps = no_steps();
        add_step(&mut steps, AccountsStep::Fill(form));
        add_step(&mut steps, AccountsStep::Layout(shown));
        add_step(&mut steps, AccountsStep::SetEditable(true));
        add_step(&mut steps, AccountsStep::SetSignature(None));
        add_step(&mut steps, AccountsStep::SetEmojiLabel(copy_of("Add")));
        add_step(&mut steps, AccountsStep::ShowGroups { remove: false, manage: false });
        add_step(&mut steps, AccountsStep::OpenEditor);
        assert(deeds(steps@) =~= old(self)@.add_account(presets@).1);
        steps
    }

    fn on_edit_account(&mut self, i: usize, presets: &OAuthPresets<String>) -> (steps: Vec<Step>)
        ensures
            (final(self)@, deeds(steps@)) == old(self)@.edit_account(i, presets@),
    {
        proof {
            reveal(AccountsState::edit_account);
        }
        if i >= self.accounts.len() {
            return no_steps();
        }
        let acc = self.accounts[i].copy();
        assert(acc@ == self@.accounts[i as int]);
        let form = fill_editor(&acc);
        let shown = apply_provider(form.provider, presets);
        let managed = acc.goa.id.is_some();
        let disabled = acc.goa.mail_disabled;
        self.editing = Some(i);
        self.pending_oauth_refresh = None;
        self.label_synced = copy_of(acc.email.as_str());
        self.emoji = copy_option(&acc.look.emoji);
        let mut steps = no_steps();
        add_step(&mut steps, AccountsStep::Fill(form));
        add_step(&mut steps, AccountsStep::Layout(shown));
        add_step(&mut steps, AccountsStep::SetSignature(copy_option(&acc.look.signature)));
        add_step(&mut steps, AccountsStep::SetEmojiLabel(text_or_else(&acc.look.emoji, "Add")));
        add_step(&mut steps, AccountsStep::SetEditable(!managed));
        add_step(&mut steps, AccountsStep::ShowGroups { remove: !managed, manage: managed });
        add_step(
            &mut steps,
            AccountsStep::SetManaged {
                enabled: acc.enabled,
                sensitive: !disabled,
                note: note_for(disabled),
            },
        );
        add_step(&mut steps, AccountsStep::OpenEditor);
        assert(deeds(steps@) =~= old(self)@.edit_account(i, presets@).1);
        steps
    }

    fn on_email_changed(&mut self, email: &str, label: &str) -> (steps: Vec<Step>)
        ensures
            (final(self)@, deeds(steps@)) == old(self)@.email_changed(email@, label@),
    {
        proof {
            reveal(AccountsState::email_changed);
        }
        let bare = trimmed_string(email);
        let steps = if label.is_empty() || same(label, self.label_synced.as_str()) {
            one_step(AccountsStep::SetLabel(copy_of(bare.as_str())))
        } else {
            no_steps()
        };
        self.label_synced = bare;
        steps
    }

    fn on_move_row(&mut self, from: usize, to: usize) -> (steps: Vec<Step>)
        ensures
            (final(self)@, deeds(steps@)) == old(self)@.move_row(from, to),
    {
        proof {
            reveal(AccountsState::move_row);
        }
        if from >= self.accounts.len() {
            return no_steps();
        }
        let ghost had = self.accounts@;
        let acc = self.accounts.remove(from);
        let place: usize = if to <= self.accounts.len() {
            to
        } else {
            self.accounts.len()
        };
        proof {
            assert(all_facts(had.remove(from as int)) =~= all_facts(had).remove(from as int));
        }
        let ghost rest = self.accounts@;
        self.accounts.insert(place, acc);
        proof {
            assert(all_facts(rest.insert(place as int, acc)) =~= all_facts(rest).insert(
                place as int,
                acc@,
            ));
        }
        let mut steps = one_step(AccountsStep::ListAccounts);
        add_step(
            &mut steps,
            AccountsStep::Output(AccountsOutput::Reordered(emails_of(&self.accounts))),
        );
        assert(deeds(steps@) =~= old(self)@.move_row(from, to).1);
        steps
    }

    fn switch(&mut self, i: usize, enabled: bool)
        requires
            i < old(self).accounts@.len(),
        ensures
            final(self)@ == old(self)@.switched(i, enabled),
    {
        self.accounts[i].enabled = enabled;
        assert(self@.accounts =~= old(self)@.switched(i, enabled).accounts);
    }

    fn on_toggle_enabled(&mut self, i: usize, enabled: bool) -> (steps: Vec<Step>)
        ensures
            (final(self)@, deeds(steps@)) == old(self)@.toggle_enabled(i, enabled),
    {
        proof {
            reveal(AccountsState::toggle_enabled);
        }
        if i >= self.accounts.len() {
            return no_steps();
        }
        assert(self@.accounts[i as int] == self.accounts@[i as int]@);
        if self.accounts[i].goa.mail_disabled || self.accounts[i].enabled == enabled {
            return no_steps();
        }
        let email = copy_of(self.accounts[i].email.as_str());
        self.switch(i, enabled);
        one_step(AccountsStep::Output(AccountsOutput::EnabledChanged { email, enabled }))
    }

    fn on_toggle_current(&mut self, enabled: bool) -> (steps: Vec<Step>)
        ensures
            (final(self)@, deeds(steps@)) == old(self)@.toggle_current(enabled),
    {
        proof {
            reveal(AccountsState::toggle_current);
        }
        match self.editing {
            Some(i) => {
                let mut steps = self.on_toggle_enabled(i, enabled);
                proof {
                    reveal(AccountsState::toggle_enabled);
                }
                if steps.len() > 0 {
                    add_step(&mut steps, AccountsStep::ListAccounts);
                }
                steps
            },
            None => no_steps(),
        }
    }

    fn on_import_goa(&mut self, i: usize) -> (steps: Vec<Step>)
        ensures
            (final(self)@, deeds(steps@)) == old(self)@.import_goa(i),
    {
        proof {
            reveal(AccountsState::import_goa);
        }
        if i >= self.goa.len() {
            return no_steps();
        }
        let ghost had = self.goa@;
        let taken = self.goa.remove(i);
        assert(all_goa(had.remove(i as int)) =~= all_goa(had).remove(i as int));
        assert(taken@ == all_goa(had)[i as int]);
        let copied = taken.account.copy();
        let ghost accounts = self.accounts@;
        self.accounts.push(taken.account);
        assert(all_facts(self.accounts@) =~= all_facts(accounts).push(taken.account@));
        let mut steps = one_step(AccountsStep::ListAccounts);
        add_step(&mut steps, AccountsStep::ListGoa { shown: self.goa.len() > 0 });
        add_step(&mut steps, AccountsStep::Output(AccountsOutput::ImportGoa(copied)));
        assert(deeds(steps@) =~= old(self)@.import_goa(i).1);
        steps
    }

    fn on_oauth_sign_in(&self, form: &Form, presets: &OAuthPresets<String>) -> (steps: Vec<Step>)
        ensures
            (self@, deeds(steps@)) == self@.oauth_sign_in(form@, presets@),
    {
        proof {
            reveal(AccountsState::oauth_sign_in);
        }
        let s = oauth_settings_from_form(form, presets);
        if is_blank_text(s.client_id.as_str()) || s.auth_url.as_str().is_empty()
            || s.token_url.as_str().is_empty() {
            return one_step(
                AccountsStep::SignInStatus {
                    text: copy_of("Enter a client ID (and endpoints for a custom provider) first"),
                    class: StatusClass::Error,
                },
            );
        }
        let mut steps = one_step(AccountsStep::SignInReady(false));
        add_step(
            &mut steps,
            AccountsStep::SignInStatus {
                text: copy_of("Opening browser… complete sign-in there."),
                class: StatusClass::Dim,
            },
        );
        add_step(&mut steps, AccountsStep::SignIn(s));
        assert(deeds(steps@) =~= self@.oauth_sign_in(form@, presets@).1);
        steps
    }

    fn on_test_connection(&self, form: &Form) -> (steps: Vec<Step>)
        ensures
            (self@, deeds(steps@)) == self@.test_connection(form@),
    {
        proof {
            reveal(AccountsState::test_connection);
        }
        let mut account = read_account(form, &self.emoji);
        if let Some(original) = self.edited() {
            preserve_hidden_transport(&mut account, original);
            account.goa.id = copy_option(&original.goa.id);
            keep_sign_in(&mut account, original);
        }
        let mut steps = one_step(
            AccountsStep::TestStatus {
                text: copy_of("Testing…"),
                class: StatusClass::Dim,
                ready: false,
            },
        );
        add_step(&mut steps, AccountsStep::Test(account));
        assert(deeds(steps@) =~= self@.test_connection(form@).1);
        steps
    }

    fn sign_in_with(
        &self,
        account: &mut AccountConfig,
        form: &Form,
        presets: &OAuthPresets<String>,
    )
        ensures
            final(account)@ == with_sign_in(old(account)@, form@, presets@, self@.pending),
    {
        if account.goa.id.is_none() {
            if provider_at(form.provider).is_oauth() {
                account.oauth.on = true;
                account.oauth.settings = Some(oauth_settings_from_form(form, presets));
                if is_blank_text(account.login.username.as_str()) {
                    account.login.username = copy_of(account.email.as_str());
                }
                if let Some(refresh) = &self.pending_oauth_refresh {
                    account.oauth.refresh = copy_of(refresh.as_str());
                }
            } else {
                account.oauth.on = false;
                account.oauth.settings = None;
            }
        }
    }

    fn account_of_form(&self, sig_html: &str, form: &Form, presets: &OAuthPresets<String>) -> (a:
        AccountConfig)
        ensures
            a@ == self@.made(sig_html@, form@, presets@),
    {
        proof {
            reveal(AccountsState::made);
        }
        let mut account = read_account(form, &self.emoji);
        account.look.signature =
        if signature_is_empty(trimmed_string(sig_html).as_str()) {
            None
        } else {
            Some(copy_of(sig_html))
        };
        if let Some(original) = self.edited() {
            preserve_hidden_transport(&mut account, original);
            account.enabled = original.enabled;
            account.goa = Desktop {
                id: copy_option(&original.goa.id),
                mail_disabled: original.goa.mail_disabled,
                enabled_before: original.goa.enabled_before,
            };
            keep_sign_in(&mut account, original);
        }
        self.sign_in_with(&mut account, form, presets);
        account
    }

    fn is_signed_in(&self, a: &AccountConfig) -> (r: bool)
        ensures
            r == signed_in(a@, self@.pending, self@.original()),
    {
        if !(a.oauth.on && a.goa.id.is_none()) {
            return true;
        }
        let client = match &a.oauth.settings {
            Some(s) => !is_blank_text(s.client_id.as_str()),
            None => false,
        };
        let before = match self.edited() {
            Some(o) => o.oauth.on,
            None => false,
        };
        client && (self.pending_oauth_refresh.is_some() || before)
    }

    fn put(&mut self, account: AccountConfig)
        ensures
            final(self)@ == (AccountsState {
                accounts: old(self)@.saved(account@),
                ..old(self)@
            }),
    {
        let ghost had = self.accounts@;
        match self.editing {
            Some(i) => if i < self.accounts.len() {
                self.accounts[i] = account;
                assert(all_facts(self.accounts@) =~= all_facts(had).update(i as int, account@));
            } else {
                self.accounts.push(account);
                assert(all_facts(self.accounts@) =~= all_facts(had).push(account@));
            },
            None => {
                self.accounts.push(account);
                assert(all_facts(self.accounts@) =~= all_facts(had).push(account@));
            },
        }
    }

    fn on_save(&mut self, sig_html: &str, form: &Form, presets: &OAuthPresets<String>) -> (steps:
        Vec<Step>)
        ensures
            (final(self)@, deeds(steps@)) == old(self)@.save(sig_html@, form@, presets@),
    {
        proof {
            reveal(AccountsState::save);
        }
        let account = self.account_of_form(sig_html, form, presets);
        let ready = self.is_signed_in(&account);
        let mut steps = one_step(AccountsStep::MarkHost(false));
        if !ready {
            add_step(
                &mut steps,
                AccountsStep::SignInStatus {
                    text: copy_of("Enter a client ID and sign in before saving"),
                    class: StatusClass::Error,
                },
            );
        }
        if !ready || !is_complete(&account) {
            add_step(&mut steps, AccountsStep::MarkHost(true));
            assert(deeds(steps@) =~= old(self)@.save(sig_html@, form@, presets@).1);
            return steps;
        }
        let original_email: Option<String> = match self.edited() {
            Some(o) => Some(copy_of(o.email.as_str())),
            None => None,
        };
        let copied = account.copy();
        self.pending_oauth_refresh = None;
        self.put(account);
        add_step(&mut steps, AccountsStep::ListAccounts);
        add_step(
            &mut steps,
            AccountsStep::Output(AccountsOutput::Saved { original_email, account: copied }),
        );
        add_step(&mut steps, AccountsStep::CloseEditor);
        assert(deeds(steps@) =~= old(self)@.save(sig_html@, form@, presets@).1);
        steps
    }

    fn on_remove_current(&self) -> (steps: Vec<Step>)
        ensures
            (self@, deeds(steps@)) == self@.remove_current(),
    {
        proof {
            reveal(AccountsState::remove_current);
        }
        match self.edited() {
            Some(a) => {
                let mut text = copy_of("Remove ");
                text.append(display_name(a).as_str());
                text.append(
                    " from Vireo? Its saved password is deleted from the keyring. Mail on the server is not affected.",
                );
                one_step(AccountsStep::AskRemoval(text))
            },
            None => no_steps(),
        }
    }

    fn on_confirm_remove(&mut self) -> (steps: Vec<Step>)
        ensures
            (final(self)@, deeds(steps@)) == old(self)@.confirm_remove(),
    {
        proof {
            reveal(AccountsState::confirm_remove);
        }
        let mut steps = no_steps();
        if let Some(i) = self.editing {
            if i < self.accounts.len() {
                let ghost had = self.accounts@;
                let gone = self.accounts.remove(i);
                assert(all_facts(had.remove(i as int)) =~= all_facts(had).remove(i as int));
                assert(gone@ == all_facts(had)[i as int]);
                add_step(&mut steps, AccountsStep::ListAccounts);
                add_step(
                    &mut steps,
                    AccountsStep::Output(AccountsOutput::Removed { email: gone.email }),
                );
            }
        }
        add_step(&mut steps, AccountsStep::CloseEditor);
        assert(deeds(steps@) =~= old(self)@.confirm_remove().1);
        steps
    }

    /// Handles an input.
    pub fn update(&mut self, msg: AccountsInput, presets: &OAuthPresets<String>) -> (steps: Vec<
        Step,
    >)
        ensures
            (final(self)@, deeds(steps@)) == accounts_step(old(self)@, msg, presets@),
    {
        match msg {
            AccountsInput::AddAccount => self.on_add_account(presets),
            AccountsInput::EditAccount(i) => self.on_edit_account(i, presets),
            AccountsInput::EmailChanged { email, label } => self.on_email_changed(
                email.as_str(),
                label.as_str(),
            ),
            AccountsInput::MoveRow { from, to } => self.on_move_row(from, to),
            AccountsInput::ToggleEnabled { index, enabled } => self.on_toggle_enabled(
                index,
                enabled,
            ),
            AccountsInput::ToggleCurrentEnabled(enabled) => self.on_toggle_current(enabled),
            AccountsInput::ImportGoa(i) => self.on_import_goa(i),
            AccountsInput::ProviderChanged(place) => one_step(
                AccountsStep::Layout(apply_provider(place, presets)),
            ),
            AccountsInput::OAuthSignIn(form) => self.on_oauth_sign_in(&form, presets),
            AccountsInput::OpenOnlineAccounts => one_step(AccountsStep::OpenOnlineAccounts),
            AccountsInput::SetEmoji(text) => {
                let label = copy_of(text.as_str());
                self.emoji = Some(text);
                one_step(AccountsStep::SetEmojiLabel(label))
            },
            AccountsInput::ClearEmoji => {
                self.emoji = None;
                one_step(AccountsStep::SetEmojiLabel(copy_of("Add")))
            },
            AccountsInput::TestConnection(form) => self.on_test_connection(&form),
            AccountsInput::Save => one_step(AccountsStep::ReadSignature),
            AccountsInput::SaveWithSig { sig_html, form } => self.on_save(
                sig_html.as_str(),
                &form,
                presets,
            ),
            AccountsInput::RemoveCurrent => self.on_remove_current(),
            AccountsInput::ConfirmRemove => self.on_confirm_remove(),
        }
    }

    /// Handles what came of work in the background.
    pub fn update_cmd(&mut self, result: AccountsCmd) -> (steps: Vec<Step>)
        ensures
            (final(self)@, deeds(steps@)) == command_step(old(self)@, result),
    {
        match result {
            AccountsCmd::Test(t, protocol) => {
                let mut text = test_line(
                    if protocol == 1 {
                        "POP3"
                    } else {
                        "IMAP"
                    },
                    &t.incoming,
                );
                text.append("\n");
                text.append(test_line("SMTP", &t.smtp).as_str());
                let class = if t.incoming.is_ok() && t.smtp.is_ok() {
                    StatusClass::Success
                } else {
                    StatusClass::Error
                };
                one_step(AccountsStep::TestStatus { text, class, ready: true })
            },
            AccountsCmd::OAuth(r) => {
                let mut steps = one_step(AccountsStep::SignInReady(true));
                match r {
                    Ok(refresh) => {
                        self.pending_oauth_refresh = Some(refresh);
                        add_step(
                            &mut steps,
                            AccountsStep::SignInStatus {
                                text: copy_of("✓ Signed in — save the account to finish"),
                                class: StatusClass::Success,
                            },
                        );
                    },
                    Err(e) => {
                        let mut text = copy_of("Sign-in failed: ");
                        text.append(e.as_str());
                        add_step(
                            &mut steps,
                            AccountsStep::SignInStatus { text, class: StatusClass::Error },
                        );
                    },
                }
                assert(deeds(steps@) =~= command_step(old(self)@, result).1);
                steps
            },
        }
    }
}

/// What a test says of one server.
pub open spec fn line_of(label: Seq<char>, r: Result<(), String>) -> Seq<char> {
    match r {
        Ok(_) => "✓ "@ + label + ": connected"@,
        Err(e) => "✗ "@ + label + ": "@ + e@,
    }
}

fn test_line(label: &str, r: &Result<(), String>) -> (s: String)
    ensures
        s@ == line_of(label@, *r),
{
    match r {
        Ok(_) => {
            let mut s = copy_of("✓ ");
            s.append(label);
            s.append(": connected");
            s
        },
        Err(e) => {
            let mut s = copy_of("✗ ");
            s.append(label);
            s.append(": ");
            s.append(e.as_str());
            s
        },
    }
}

/// What the window makes of work in the background.
pub open spec fn command_step(s: AccountsState, result: AccountsCmd) -> Turn {
    match result {
        AccountsCmd::Test(t, protocol) => (
            s,
            seq![
                AccountsStep::TestStatus {
                    text: line_of(
                        if protocol == 1 {
                            "POP3"@
                        } else {
                            "IMAP"@
                        },
                        t.incoming,
                    ) + "\n"@ + line_of("SMTP"@, t.smtp),
                    class: if t.incoming is Ok && t.smtp is Ok {
                        StatusClass::Success
                    } else {
                        StatusClass::Error
                    },
                    ready: true,
                },
            ],
        ),
        AccountsCmd::OAuth(Ok(refresh)) => (
            AccountsState { pending: Some(refresh@), ..s },
            seq![
                AccountsStep::SignInReady(true),
                AccountsStep::SignInStatus {
                    text: "✓ Signed in — save the account to finish"@,
                    class: StatusClass::Success,
                },
            ],
        ),
        AccountsCmd::OAuth(Err(e)) => (
            s,
            seq![
                AccountsStep::SignInReady(true),
                AccountsStep::SignInStatus {
                    text: "Sign-in failed: "@ + e@,
                    class: StatusClass::Error,
                },
            ],
        ),
    }
}

fn note_for(disabled: bool) -> (s: String)
    ensures
        s@ == disabled_note(disabled),
{
    if disabled {
        copy_of("Mail is disabled for this account in GNOME Settings")
    } else {
        let s = String::new();
        assert(s@ =~= seq![]);
        s
    }
}

fn is_complete(a: &AccountConfig) -> (r: bool)
    ensures
        r == complete(a@),
{
    let managed = a.goa.id.is_some();
    !a.incoming.host.as_str().is_empty() && !a.login.username.as_str().is_empty() && (a.oauth.on
        || managed || !a.login.password.as_str().is_empty()) && (!a.login.smtp_separate || (
    !a.login.smtp_username.as_str().is_empty() && (managed
        || !a.login.smtp_password.as_str().is_empty())))
}

// ----- The desktop's accounts -----

/// Whether one of the accounts has this address, whatever its case.
pub open spec fn is_here(email: Seq<char>, accounts: Seq<AccountFacts>) -> bool {
    exists|k: int| 0 <= k < accounts.len() && lower_all(#[trigger] accounts[k].email) == lower_all(email)
}

/// Those of the desktop's accounts that are not here yet.
pub open spec fn not_yet_here(
    goa: Seq<GoaMailAccount<Seq<char>>>,
    accounts: Seq<AccountFacts>,
) -> Seq<GoaMailAccount<Seq<char>>> {
    goa.filter(|g: GoaMailAccount<Seq<char>>| !is_here(g.email, accounts))
}

fn has_address(email: &str, accounts: &Vec<AccountConfig>) -> (r: bool)
    ensures
        r == is_here(email@, all_facts(accounts@)),
{
    let wanted = lower_chars(&chars_of(email));
    let mut k: usize = 0;
    while k < accounts.len()
        invariant
            k <= accounts.len(),
            wanted@ == lower_all(email@),
            forall|j: int|
                0 <= j < k ==> lower_all(#[trigger] all_facts(accounts@)[j].email) != lower_all(
                    email@,
                ),
        decreases accounts.len() - k,
    {
        let one = chars_of(accounts[k].email.as_str());
        assert(all_facts(accounts@)[k as int].email == one@);
        if same_chars(&lower_chars(&one), &wanted) {
            return true;
        }
        k = k + 1;
    }
    false
}

fn offered(goa: Vec<GoaMailAccount<String>>, accounts: &Vec<AccountConfig>) -> (r: Vec<
    GoaMailAccount<String>,
>)
    ensures
        all_goa(r@) == not_yet_here(all_goa(goa@), all_facts(accounts@)),
{
    let mut rest = goa;
    let mut r: Vec<GoaMailAccount<String>> = Vec::new();
    let ghost all = all_goa(goa@);
    let ghost keep = |g: GoaMailAccount<Seq<char>>| !is_here(g.email, all_facts(accounts@));
    assert(all_goa(r@) =~= Seq::empty());
    assert(all.filter(keep) =~= all_goa(r@) + all_goa(rest@).filter(keep));
    while rest.len() > 0
        invariant
            keep == (|g: GoaMailAccount<Seq<char>>| !is_here(g.email, all_facts(accounts@))),
            all.filter(keep) == all_goa(r@) + all_goa(rest@).filter(keep),
        decreases rest.len(),
    {
        let ghost left = all_goa(rest@);
        let ghost had = rest@;
        let g = rest.remove(0);
        proof {
            assert(left =~= seq![g@] + all_goa(rest@));
            left.lemma_filter_len(keep);
            lemma_filter_first(left, keep);
            assert(left.drop_first() =~= all_goa(rest@));
        }
        if !has_address(g.email.as_str(), accounts) {
            let ghost before = all_goa(r@);
            r.push(g);
            assert(all_goa(r@) =~= before.push(g@));
            assert(before + (seq![g@] + all_goa(rest@).filter(keep)) =~= before.push(g@)
                + all_goa(rest@).filter(keep));
        }
    }
    proof {
        assert(all_goa(rest@) =~= Seq::empty());
        assert(all_goa(rest@).filter(keep) =~= Seq::empty()) by {
            reveal(Seq::filter);
        }
        assert(all_goa(r@) + Seq::empty() =~= all_goa(r@));
    }
    r
}

proof fn lemma_filter_first<A>(s: Seq<A>, f: spec_fn(A) -> bool)
    requires
        s.len() > 0,
    ensures
        s.filter(f) == (if f(s[0]) {
            seq![s[0]] + s.drop_first().filter(f)
        } else {
            s.drop_first().filter(f)
        }),
    decreases s.len(),
{
    reveal(Seq::filter);
    if s.len() > 1 {
        lemma_filter_first(s.drop_last(), f);
        assert(s.drop_first().drop_last() =~= s.drop_last().drop_first());
        assert(s.drop_last()[0] == s[0]);
        let a = s.drop_last().drop_first().filter(f);
        if f(s[0]) && f(s.last()) {
            assert((seq![s[0]] + a).push(s.last()) =~= seq![s[0]] + a.push(s.last()));
        }
    } else {
        assert(s.drop_last() =~= Seq::empty());
        assert(s.drop_first() =~= Seq::empty());
        assert(s.filter(f) =~= (if f(s[0]) {
            seq![s[0]] + s.drop_first().filter(f)
        } else {
            s.drop_first().filter(f)
        }));
    }
}

// ----- The rows of the lists -----

/// A row of the list of accounts; `T` is the type of a text.
pub struct AccountRow<T> {
    pub name: T,
    pub email: T,
    pub badge: T,
    pub badge_tooltip: T,
    /// Whether the account comes from the desktop.
    pub from_desktop: bool,
    pub switch_tooltip: T,
    pub enabled: bool,
    /// Whether it can be switched on and off.
    pub sensitive: bool,
}

impl View for AccountRow<String> {
    type V = AccountRow<Seq<char>>;

    open spec fn view(&self) -> AccountRow<Seq<char>> {
        AccountRow {
            name: self.name@,
            email: self.email@,
            badge: self.badge@,
            badge_tooltip: self.badge_tooltip@,
            from_desktop: self.from_desktop,
            switch_tooltip: self.switch_tooltip@,
            enabled: self.enabled,
            sensitive: self.sensitive,
        }
    }
}

/// The row of an account.
pub open spec fn row_of(a: AccountFacts) -> AccountRow<Seq<char>> {
    AccountRow {
        name: called(a),
        email: a.email,
        badge: if a.managed() {
            "Online Account"@
        } else {
            "Vireo"@
        },
        badge_tooltip: if a.managed() {
            "Imported from GNOME Online Accounts"@
        } else {
            "Added directly in Vireo"@
        },
        from_desktop: a.managed(),
        switch_tooltip: if a.goa.mail_disabled {
            "Mail is disabled for this account in GNOME Settings"@
        } else {
            "Enable this account"@
        },
        enabled: a.enabled,
        sensitive: !a.goa.mail_disabled,
    }
}

/// The row of an account.
pub fn account_row(a: &AccountConfig) -> (row: AccountRow<String>)
    ensures
        row@ == row_of(a@),
{
    let managed = a.goa.id.is_some();
    AccountRow {
        name: display_name(a),
        email: copy_of(a.email.as_str()),
        badge: copy_of(
            if managed {
                "Online Account"
            } else {
                "Vireo"
            },
        ),
        badge_tooltip: copy_of(
            if managed {
                "Imported from GNOME Online Accounts"
            } else {
                "Added directly in Vireo"
            },
        ),
        from_desktop: managed,
        switch_tooltip: copy_of(
            if a.goa.mail_disabled {
                "Mail is disabled for this account in GNOME Settings"
            } else {
                "Enable this account"
            },
        ),
        enabled: a.enabled,
        sensitive: !a.goa.mail_disabled,
    }
}

/// What is said of one of the desktop's accounts: its provider, and whether the
/// desktop signs in to it.
pub open spec fn goa_note(g: GoaMailAccount<Seq<char>>) -> Seq<char> {
    let provider = if g.provider.len() == 0 {
        "Mail"@
    } else {
        g.provider
    };
    if g.oauth2 && !g.password_based {
        provider + " · sign-in via GNOME"@
    } else {
        provider
    }
}

/// What is said of one of the desktop's accounts.
pub fn goa_subtitle(g: &GoaMailAccount<String>) -> (text: String)
    ensures
        text@ == goa_note(g@),
{
    let mut text = if g.provider.as_str().is_empty() {
        copy_of("Mail")
    } else {
        copy_of(g.provider.as_str())
    };
    if g.oauth2 && !g.password_based {
        text.append(" · sign-in via GNOME");
    }
    text
}

} // verus!
