//! What holds of the accounts and of their editor.

use vstd::prelude::*;

use crate::account_form::{
    chosen_settings, entered, filled, hard_space, in_tag, layout, nothing_to_see, port_of, shown_at,
    visible_text, with_transport, AccountFacts, AccountForm, Login, OAuthPresets, Protocol,
};
use crate::accounts::{
    command_step, complete, emails, is_here, line_of, not_yet_here, row_of, signature_of, signed_in,
    AccountsCmd, AccountsOutput, AccountsState, AccountsStep, ConnTest, Deed, GoaMailAccount,
    StatusClass,
};
use crate::providers::{provider, ProviderKind};
use crate::stripping::lemma_trim_around;
use crate::text::{
    decimal, decimal_reads_back, ends, is_blank, is_digit, lemma_decimal_digits, lemma_not_trimmed,
    lemma_skip_to, lemma_trim_keeps, lower_all, stands_at, starts, trim, trimming_twice_is_trimming,
    Class,
};

verus! {

// ----- Saving -----

/// What is saved has what it takes; what does not is refused, and nothing changes.
pub proof fn saved_accounts_are_complete(
    s: AccountsState,
    sig_html: Seq<char>,
    form: AccountForm<Seq<char>>,
    presets: OAuthPresets<Seq<char>>,
)
    ensures
        ({
            let account = s.made(sig_html, form, presets);
            let good = complete(account) && signed_in(account, s.pending, s.original());
            let t = s.save(sig_html, form, presets).0;
            &&& good ==> t.accounts == s.saved(account) && t.pending is None
            &&& !good ==> t == s
        }),
{
    reveal(AccountsState::save);
}

/// Saving an edited account changes that one alone; saving a new one adds it behind the
/// others.
pub proof fn saving_changes_one(
    s: AccountsState,
    sig_html: Seq<char>,
    form: AccountForm<Seq<char>>,
    presets: OAuthPresets<Seq<char>>,
    k: int,
)
    requires
        0 <= k < s.accounts.len(),
    ensures
        ({
            let t = s.save(sig_html, form, presets).0;
            &&& s.editing != Some(k as usize) ==> t.accounts[k] == s.accounts[k]
            &&& s.original() is Some ==> t.accounts.len() == s.accounts.len()
            &&& t.accounts.len() <= s.accounts.len() + 1
        }),
{
    reveal(AccountsState::save);
}

/// An account of the desktop's stays one when it is edited, with the desktop's sign-in.
pub proof fn managed_accounts_stay_managed(
    s: AccountsState,
    sig_html: Seq<char>,
    form: AccountForm<Seq<char>>,
    presets: OAuthPresets<Seq<char>>,
)
    requires
        s.original() is Some,
        (s.original()->0).managed(),
    ensures
        ({
            let o = s.original()->0;
            let a = s.made(sig_html, form, presets);
            &&& a.goa == o.goa
            &&& a.enabled == o.enabled
            &&& a.oauth.on == o.oauth.on
            &&& a.oauth.settings == o.oauth.settings
        }),
{
    reveal(AccountsState::made);
}

/// Whether an account holds what was entered of it: its name and address, its servers,
/// how it sends, and the passwords letter for letter.
pub open spec fn holds_form(a: AccountFacts, form: AccountForm<Seq<char>>) -> bool {
    &&& a.name == trim(form.name)
    &&& a.email == trim(form.email)
    &&& a.incoming.host == trim(form.servers.host)
    &&& a.outgoing.host == trim(form.servers.smtp_host)
    &&& (a.incoming.protocol == Protocol::Pop3) == (form.servers.protocol == 1)
    &&& forall|n: u16|
        trim(form.servers.port) == #[trigger] decimal(n as nat) ==> a.incoming.port == n
    &&& forall|n: u16|
        trim(form.servers.smtp_port) == #[trigger] decimal(n as nat) ==> a.outgoing.port == n
    &&& a.login.password == form.login.password
    &&& a.login.smtp_separate == form.login.smtp_separate
    &&& a.login.smtp_username == trim(form.login.smtp_username)
    &&& a.login.smtp_password == form.login.smtp_password
    &&& a.look.color == Some(form.color)
    &&& match a.look.label {
        Some(label) => label == trim(form.label),
        None => trim(form.label).len() == 0 || trim(form.label) == trim(form.email),
    }
}

proof fn lemma_ports(form: AccountForm<Seq<char>>, emoji: Option<Seq<char>>)
    ensures
        holds_form(entered(form, emoji), form),
{
    let a = entered(form, emoji);
    assert forall|n: u16| trim(form.servers.port) == #[trigger] decimal(n as nat) implies a.incoming.port
        == n by {
        decimal_reads_back(n as nat, 65535);
    }
    assert forall|n: u16| trim(form.servers.smtp_port) == #[trigger] decimal(n as nat) implies a.outgoing.port
        == n by {
        decimal_reads_back(n as nat, 65535);
    }
}

/// What is saved is what stands in the form, for a new account and for an edited one:
/// name, address, servers, ports, passwords, the login for sending, colour and label; the
/// emoji that was picked; the signature that was written. The login is the form's too,
/// save where a browser sign-in finds none and the address stands in.
pub proof fn saved_as_entered(
    s: AccountsState,
    sig_html: Seq<char>,
    form: AccountForm<Seq<char>>,
    presets: OAuthPresets<Seq<char>>,
)
    ensures
        ({
            let a = s.made(sig_html, form, presets);
            let name = trim(form.login.username);
            &&& holds_form(a, form)
            &&& a.look.emoji == s.emoji
            &&& a.look.signature == signature_of(sig_html)
            &&& a.look.signature matches Some(html) ==> html == sig_html
            &&& a.login == entered(form, s.emoji).login || (a.oauth.on && !a.managed() && name.len()
                == 0 && a.login == Login { username: trim(form.email), ..entered(form, s.emoji).login })
            &&& a.login.username == name || (name.len() == 0 && a.oauth.on && a.login.username
                == a.email)
        }),
{
    reveal(AccountsState::made);
    lemma_ports(form, s.emoji);
    trimming_twice_is_trimming(form.login.username);
}

/// What the server is asked with when a form is tested is what stands in the form too.
pub proof fn tested_as_entered(s: AccountsState, form: AccountForm<Seq<char>>)
    ensures
        ({
            let (t, steps) = s.test_connection(form);
            &&& t == s
            &&& exists|k: int|
                0 <= k < steps.len() && (#[trigger] steps[k] matches AccountsStep::Test(a)
                    && holds_form(a, form) && a.login.username == trim(form.login.username))
        }),
{
    reveal(AccountsState::test_connection);
    lemma_ports(form, s.emoji);
    let steps = s.test_connection(form).1;
    assert(steps[1] is Test);
}

/// What an edited account has that its form does not show stays: whether it is on, whose
/// it is, whether sending authenticates, and how each server is spoken to while its port
/// stays.
pub proof fn hidden_facts_stay(
    s: AccountsState,
    sig_html: Seq<char>,
    form: AccountForm<Seq<char>>,
    presets: OAuthPresets<Seq<char>>,
)
    requires
        s.original() is Some,
    ensures
        ({
            let o = s.original()->0;
            let a = s.made(sig_html, form, presets);
            &&& a.enabled == o.enabled
            &&& a.goa == o.goa
            &&& a.outgoing.auth == o.outgoing.auth
            &&& a.incoming.port == o.incoming.port ==> a.incoming.starttls == o.incoming.starttls
                && a.incoming.implicit_tls == o.incoming.implicit_tls
            &&& a.outgoing.port == o.outgoing.port ==> a.outgoing.implicit_tls
                == o.outgoing.implicit_tls
        }),
{
    reveal(AccountsState::made);
}

/// A new account is on, is not the desktop's, authenticates to send, and speaks TLS the
/// way its ports are used: at once on 993 and 465, after an upgrade on 143.
pub proof fn new_accounts_are_on(
    s: AccountsState,
    sig_html: Seq<char>,
    form: AccountForm<Seq<char>>,
    presets: OAuthPresets<Seq<char>>,
)
    requires
        s.original() is None,
    ensures
        ({
            let a = s.made(sig_html, form, presets);
            let imap = a.incoming.protocol == Protocol::Imap;
            &&& a.enabled
            &&& !a.managed()
            &&& a.outgoing.auth
            &&& a.incoming.starttls == (imap && a.incoming.port == 143)
            &&& a.incoming.implicit_tls == (imap && a.incoming.port == 993)
            &&& a.outgoing.implicit_tls == (a.outgoing.port == 465)
        }),
{
    reveal(AccountsState::made);
}

/// Saving hands on the account that was made and the address of the one that it stands
/// for, and closes the editor.
pub proof fn saving_tells_which(
    s: AccountsState,
    sig_html: Seq<char>,
    form: AccountForm<Seq<char>>,
    presets: OAuthPresets<Seq<char>>,
)
    ensures
        ({
            let account = s.made(sig_html, form, presets);
            let (t, steps) = s.save(sig_html, form, presets);
            let told = AccountsStep::Output(
                AccountsOutput::Saved {
                    original_email: match s.original() {
                        Some(o) => Some(o.email),
                        None => None,
                    },
                    account,
                },
            );
            &&& t != s ==> steps.contains(told)
            &&& steps.contains(told) == steps.contains(AccountsStep::CloseEditor)
            &&& steps.contains(told) ==> t.accounts.contains(account)
        }),
{
    reveal(AccountsState::save);
    let account = s.made(sig_html, form, presets);
    let (t, steps) = s.save(sig_html, form, presets);
    if complete(account) && signed_in(account, s.pending, s.original()) {
        assert(steps.len() == 4);
        assert(steps[2] is Output);
        assert(steps[3] is CloseEditor);
        assert(steps.contains(steps[2]) && steps.contains(steps[3]));
        let i = match s.editing {
            Some(i) => if i < s.accounts.len() {
                i as int
            } else {
                s.accounts.len() as int
            },
            None => s.accounts.len() as int,
        };
        assert(t.accounts[i] == account);
    }
}

// ----- Editing -----

proof fn lemma_digit_not_blank(c: char)
    ensures
        is_digit(c) ==> !is_blank(c),
{
}

/// A port that was written is read back.
pub proof fn port_reads_back(port: u16, usual: u16)
    ensures
        port_of(decimal(port as nat), usual) == port,
{
    let s = decimal(port as nat);
    lemma_decimal_digits(port as nat, 0);
    lemma_decimal_digits(port as nat, s.len() - 1);
    lemma_digit_not_blank(s[0]);
    lemma_digit_not_blank(s[s.len() - 1]);
    lemma_not_trimmed(s);
    decimal_reads_back(port as nat, 65535);
}

/// Whether an account holds nothing that its editor would tidy up: no spaces around its
/// texts, a colour, and no label that is empty or just its address.
pub open spec fn tidy(a: AccountFacts) -> bool {
    &&& trim(a.name) == a.name
    &&& trim(a.email) == a.email
    &&& trim(a.incoming.host) == a.incoming.host
    &&& trim(a.outgoing.host) == a.outgoing.host
    &&& trim(a.login.username) == a.login.username
    &&& trim(a.login.smtp_username) == a.login.smtp_username
    &&& a.look.color is Some
    &&& a.look.label matches Some(l) ==> trim(l) == l && l.len() > 0 && l != a.email
}

/// An account that is opened in the editor and read again is the same account: its
/// name, its servers and how they are spoken to, its login and its looks.
pub proof fn editing_loses_nothing(a: AccountFacts)
    requires
        tidy(a),
    ensures
        ({
            let b = with_transport(entered(filled(a), a.look.emoji), a);
            &&& b.name == a.name
            &&& b.email == a.email
            &&& b.incoming == a.incoming
            &&& b.outgoing == a.outgoing
            &&& b.login == a.login
            &&& b.look.color == a.look.color
            &&& b.look.emoji == a.look.emoji
            &&& b.look.label == a.look.label
        }),
{
    port_reads_back(a.incoming.port, 993);
    port_reads_back(a.incoming.port, 995);
    port_reads_back(a.outgoing.port, 587);
}

// ----- The list -----

/// Moving a row keeps every account, and puts that one where it was dropped or at the
/// end.
pub proof fn moving_keeps_all(s: AccountsState, from: usize, to: usize)
    ensures
        s.move_row(from, to).0.accounts.to_multiset() == s.accounts.to_multiset(),
        from < s.accounts.len() ==> {
            let t = s.move_row(from, to).0;
            let place = if to < s.accounts.len() {
                to as int
            } else {
                s.accounts.len() - 1
            };
            &&& t.accounts.len() == s.accounts.len()
            &&& t.accounts[place] == s.accounts[from as int]
            &&& s.move_row(from, to).1.contains(
                AccountsStep::Output(AccountsOutput::Reordered(emails(t.accounts))),
            )
        },
{
    reveal(AccountsState::move_row);
    broadcast use vstd::seq_lib::group_to_multiset_ensures;

    if from < s.accounts.len() {
        let rest = s.accounts.remove(from as int);
        let place = if to <= rest.len() {
            to as int
        } else {
            rest.len() as int
        };
        let moved = s.accounts[from as int];
        let now = rest.insert(place, moved);
        assert(rest.insert(place, moved).to_multiset() =~= rest.to_multiset().insert(moved));
        assert(rest.to_multiset() =~= s.accounts.to_multiset().remove(moved));
        assert(s.accounts.to_multiset().count(moved) > 0);
        assert(now.to_multiset() =~= s.accounts.to_multiset());
        assert(s.move_row(from, to).1[1] == AccountsStep::<Seq<char>, Seq<Seq<char>>>::Output(
            AccountsOutput::Reordered(emails(now)),
        ));
    }
}

/// An account whose mail is switched off in the desktop's settings cannot be switched
/// here.
pub proof fn disabled_mail_stays_off(s: AccountsState, i: usize, enabled: bool)
    requires
        i < s.accounts.len(),
        s.accounts[i as int].goa.mail_disabled,
    ensures
        s.toggle_enabled(i, enabled) == (s, Seq::<Deed>::empty()),
{
    reveal(AccountsState::toggle_enabled);
}

/// Switching an account off and on again leaves everything as it was.
pub proof fn switching_back_restores(s: AccountsState, i: usize)
    requires
        i < s.accounts.len(),
        s.accounts[i as int].enabled,
    ensures
        s.toggle_enabled(i, false).0.toggle_enabled(i, true).0 == s,
{
    reveal(AccountsState::toggle_enabled);
    let t = s.toggle_enabled(i, false).0.toggle_enabled(i, true).0;
    assert(t.accounts =~= s.accounts);
}

/// Removing the edited account removes that one and keeps the others in their order.
pub proof fn removing_keeps_the_others(s: AccountsState, k: int)
    requires
        s.original() is Some,
        0 <= k < s.accounts.len(),
    ensures
        ({
            let t = s.confirm_remove().0;
            let i = s.editing->0;
            &&& t.accounts.len() == s.accounts.len() - 1
            &&& k < i ==> t.accounts[k] == s.accounts[k]
            &&& k > i ==> t.accounts[k - 1] == s.accounts[k]
        }),
{
    reveal(AccountsState::confirm_remove);
}

/// No account of the desktop's is offered that is here already, and every other one is.
pub proof fn offered_are_not_here(
    goa: Seq<GoaMailAccount<Seq<char>>>,
    accounts: Seq<AccountFacts>,
    g: GoaMailAccount<Seq<char>>,
)
    ensures
        not_yet_here(goa, accounts).contains(g) <==> goa.contains(g) && !is_here(g.email, accounts),
{
    let keep = |g: GoaMailAccount<Seq<char>>| !is_here(g.email, accounts);
    let rest = goa.filter(keep);
    if rest.contains(g) {
        let k = choose|k: int| 0 <= k < rest.len() && rest[k] == g;
        goa.lemma_filter_len(keep);
        goa.lemma_filter_pred(keep, k);
        goa.lemma_filter_contains_rev(keep, g);
    }
    if goa.contains(g) && keep(g) {
        let k = choose|k: int| 0 <= k < goa.len() && goa[k] == g;
        goa.lemma_filter_contains(keep, k);
    }
}

/// An account of the desktop's that is taken over stands behind the others, and is not
/// offered in its place any more.
pub proof fn imported_is_added(s: AccountsState, i: usize)
    requires
        i < s.goa.len(),
    ensures
        s.import_goa(i).0.accounts == s.accounts.push(s.goa[i as int].account),
        s.import_goa(i).0.goa == s.goa.remove(i as int),
{
    reveal(AccountsState::import_goa);
}

// ----- Signing in -----

/// An account that is entered with a password signs in with it and in no other way; one
/// that signs in through the browser does so with the client of its provider, or with the
/// one that was entered, and keeps what the sign-in brought.
pub proof fn sign_in_is_the_providers(
    s: AccountsState,
    sig_html: Seq<char>,
    form: AccountForm<Seq<char>>,
    presets: OAuthPresets<Seq<char>>,
)
    requires
        s.original() is None || !(s.original()->0).managed(),
    ensures
        ({
            let a = s.made(sig_html, form, presets);
            let kind = provider(form.provider).kind;
            &&& a.oauth.on <==> kind == ProviderKind::Google || kind == ProviderKind::Microsoft || kind
                == ProviderKind::CustomOAuth
            &&& !a.oauth.on ==> a.oauth.settings is None
            &&& kind == ProviderKind::Google ==> a.oauth.settings == Some(presets.google.settings)
            &&& kind == ProviderKind::Microsoft ==> a.oauth.settings == Some(
                presets.microsoft.settings,
            )
            &&& kind == ProviderKind::CustomOAuth ==> {
                let entered = (a.oauth.settings)->0;
                &&& a.oauth.settings is Some
                &&& entered.auth_url == trim(form.oauth.auth_url)
                &&& entered.token_url == trim(form.oauth.token_url)
                &&& entered.client_id == trim(form.oauth.client_id)
                &&& entered.client_secret == form.oauth.client_secret
                &&& entered.scopes == trim(form.oauth.scopes)
            }
            &&& a.oauth.on && s.pending is Some ==> a.oauth.refresh == s.pending->0
        }),
{
    reveal(AccountsState::made);
}

/// An account is saved just where it can be used: it has a server and a name to log in
/// with; a password, unless it signs in through the browser or is the desktop's; the same
/// for sending, where that is separate; and, where it signs in through the browser, a
/// client, and someone who has signed in.
pub proof fn saved_just_where_usable(
    s: AccountsState,
    sig_html: Seq<char>,
    form: AccountForm<Seq<char>>,
    presets: OAuthPresets<Seq<char>>,
)
    ensures
        ({
            let a = s.made(sig_html, form, presets);
            let ready = a.incoming.host.len() > 0 && a.login.username.len() > 0;
            let trusted = a.managed() || a.oauth.on || a.login.password.len() > 0;
            let sends = !a.login.smtp_separate || (a.login.smtp_username.len() > 0 && (a.managed()
                || a.login.smtp_password.len() > 0));
            let was_signed_in = s.original() is Some && (s.original()->0).oauth.on;
            let allowed = a.managed() || !a.oauth.on || ((s.pending is Some || was_signed_in)
                && a.oauth.settings is Some && trim((a.oauth.settings->0).client_id).len() > 0);
            let told = s.save(sig_html, form, presets).1;
            &&& told.contains(AccountsStep::CloseEditor) <==> ready && trusted && sends && allowed
            &&& told.contains(AccountsStep::MarkHost(true)) <==> !(ready && trusted && sends
                && allowed)
        }),
{
    reveal(AccountsState::save);
    let a = s.made(sig_html, form, presets);
    let told = s.save(sig_html, form, presets).1;
    if complete(a) && signed_in(a, s.pending, s.original()) {
        assert(told.len() == 4);
        assert(told[3] is CloseEditor);
        assert(told.contains(told[3]));
    } else {
        assert(told.last() == AccountsStep::<Seq<char>, Seq<Seq<char>>>::MarkHost(true));
        assert(told.contains(told.last()));
    }
}

/// A sign-in goes to what was chosen or entered, and not without a client and where to
/// sign in.
pub proof fn sign_in_goes_where_chosen(
    s: AccountsState,
    form: AccountForm<Seq<char>>,
    presets: OAuthPresets<Seq<char>>,
)
    ensures
        ({
            let (t, steps) = s.oauth_sign_in(form, presets);
            let c = chosen_settings(form, presets);
            &&& t == s
            &&& trim(c.client_id).len() > 0 && c.auth_url.len() > 0 && c.token_url.len() > 0
                ==> steps.contains(AccountsStep::SignIn(c))
            &&& forall|k: int|
                0 <= k < steps.len() ==> (#[trigger] steps[k] matches AccountsStep::SignIn(d) ==> d == c
                    && trim(c.client_id).len() > 0 && c.auth_url.len() > 0 && c.token_url.len() > 0)
        }),
{
    reveal(AccountsState::oauth_sign_in);
    let steps = s.oauth_sign_in(form, presets).1;
    let c = chosen_settings(form, presets);
    if trim(c.client_id).len() > 0 && c.auth_url.len() > 0 && c.token_url.len() > 0 {
        assert(steps[2] == AccountsStep::<Seq<char>, Seq<Seq<char>>>::SignIn(c));
    }
}

/// What a sign-in brings is kept until the account is saved; one that failed brings
/// nothing, and says why.
pub proof fn sign_in_is_kept(s: AccountsState, refresh: String, why: String)
    ensures
        command_step(s, AccountsCmd::OAuth(Ok(refresh))).0 == (AccountsState {
            pending: Some(refresh@),
            ..s
        }),
        command_step(s, AccountsCmd::OAuth(Err(why))).0 == s,
        command_step(s, AccountsCmd::OAuth(Err(why))).1.contains(
            AccountsStep::SignInStatus {
                text: "Sign-in failed: "@ + why@,
                class: StatusClass::Error,
            },
        ),
{
    let steps = command_step(s, AccountsCmd::OAuth(Err(why))).1;
    assert(steps[1] is SignInStatus);
}

/// A test has succeeded where both servers could be reached, and says of each which of
/// them it is.
pub proof fn tests_tell_of_both(s: AccountsState, t: ConnTest, protocol: u32)
    ensures
        ({
            let (same, steps) = command_step(s, AccountsCmd::Test(t, protocol));
            let incoming = if protocol == 1 {
                "POP3"@
            } else {
                "IMAP"@
            };
            &&& same == s
            &&& steps.len() == 1
            &&& steps[0] matches AccountsStep::TestStatus { text, class, ready } && {
                &&& ready
                &&& (class == StatusClass::Success) == (t.incoming is Ok && t.smtp is Ok)
                &&& t.incoming is Ok ==> starts(text, "✓ "@ + incoming + ": connected\n"@)
                &&& t.incoming matches Err(e) ==> starts(text, "✗ "@ + incoming + ": "@ + e@)
                &&& t.smtp is Ok ==> ends(text, "\n✓ SMTP: connected"@)
                &&& t.smtp matches Err(e) ==> ends(text, "\n✗ SMTP: "@ + e@)
            }
        }),
{
    reveal_strlit("✓ ");
    reveal_strlit("✗ ");
    reveal_strlit(": connected");
    reveal_strlit(": connected\n");
    reveal_strlit("\n✓ SMTP: connected");
    reveal_strlit("\n✗ SMTP: ");
    reveal_strlit("SMTP");
    reveal_strlit(": ");
    reveal_strlit("\n");
    let incoming = if protocol == 1 {
        "POP3"@
    } else {
        "IMAP"@
    };
    let top = line_of(incoming, t.incoming);
    let bottom = line_of("SMTP"@, t.smtp);
    let text = top + "\n"@ + bottom;
    if t.incoming is Ok {
        let p = "✓ "@ + incoming + ": connected\n"@;
        assert(text.subrange(0, p.len() as int) =~= p);
    }
    if let Err(e) = t.incoming {
        let p = "✗ "@ + incoming + ": "@ + e@;
        assert(text.subrange(0, p.len() as int) =~= p);
    }
    let n = text.len() as int;
    if t.smtp is Ok {
        let p = "\n✓ SMTP: connected"@;
        assert(text.subrange(n - p.len(), n) =~= p);
    }
    if let Err(e) = t.smtp {
        let p = "\n✗ SMTP: "@ + e@;
        assert(text.subrange(n - p.len(), n) =~= p);
    }
}

// ----- The editor -----

/// An account that is opened in the editor is the one that was chosen, and each field shows
/// what it has.
pub proof fn editor_shows_the_account(s: AccountsState, i: usize, presets: OAuthPresets<Seq<char>>)
    requires
        i < s.accounts.len(),
    ensures
        ({
            let a = s.accounts[i as int];
            let (t, steps) = s.edit_account(i, presets);
            &&& t.original() == Some(a)
            &&& t.accounts == s.accounts
            &&& t.emoji == a.look.emoji
            &&& t.pending is None
            &&& steps.len() > 4
            &&& steps[0] matches AccountsStep::Fill(f) && {
                &&& f.name == a.name
                &&& f.email == a.email
                &&& f.servers.host == a.incoming.host
                &&& f.servers.port == decimal(a.incoming.port as nat)
                &&& f.servers.smtp_host == a.outgoing.host
                &&& f.servers.smtp_port == decimal(a.outgoing.port as nat)
                &&& (f.servers.protocol == 1) == (a.incoming.protocol == Protocol::Pop3)
                &&& f.login == a.login
                &&& f.label == (match a.look.label {
                    Some(l) => l,
                    None => a.email,
                })
                &&& a.look.color matches Some(c) ==> f.color == c
            }
            &&& steps[2] == AccountsStep::<Seq<char>, Seq<Seq<char>>>::SetSignature(a.look.signature)
            &&& steps[4] == AccountsStep::<Seq<char>, Seq<Seq<char>>>::SetEditable(!a.managed())
        }),
{
    reveal(AccountsState::edit_account);
}

/// The editor of a new account is empty, and what is saved from it is another account.
pub proof fn new_account_starts_empty(s: AccountsState, presets: OAuthPresets<Seq<char>>)
    ensures
        ({
            let (t, steps) = s.add_account(presets);
            &&& t.original() is None
            &&& t.accounts == s.accounts
            &&& t.emoji is None
            &&& t.pending is None
            &&& steps.len() > 3
            &&& steps[0] matches AccountsStep::Fill(f) && {
                &&& f.name.len() == 0
                &&& f.email.len() == 0
                &&& f.label.len() == 0
                &&& f.servers.host.len() == 0
                &&& f.servers.smtp_host.len() == 0
                &&& f.servers.port == "993"@
                &&& f.servers.smtp_port == "587"@
                &&& f.servers.protocol == 0
                &&& f.login.username.len() == 0
                &&& f.login.password.len() == 0
                &&& !f.login.smtp_separate
                &&& f.login.smtp_username.len() == 0
                &&& f.login.smtp_password.len() == 0
                &&& f.oauth.client_id.len() == 0
                &&& f.oauth.client_secret.len() == 0
            }
            &&& steps[3] == AccountsStep::<Seq<char>, Seq<Seq<char>>>::SetSignature(None)
        }),
{
    reveal(AccountsState::add_account);
}

/// An account that is opened in the editor and saved as it stands is the same as before:
/// its name, servers, logins, looks, and whether it is on and whose it is.
pub proof fn saving_untouched_changes_nothing(
    s: AccountsState,
    i: usize,
    sig_html: Seq<char>,
    presets: OAuthPresets<Seq<char>>,
)
    requires
        i < s.accounts.len(),
        tidy(s.accounts[i as int]),
        s.accounts[i as int].login.username.len() > 0,
    ensures
        ({
            let a = s.accounts[i as int];
            let b = s.edit_account(i, presets).0.made(sig_html, filled(a), presets);
            &&& b.name == a.name
            &&& b.email == a.email
            &&& b.incoming == a.incoming
            &&& b.outgoing == a.outgoing
            &&& b.login == a.login
            &&& b.look.color == a.look.color
            &&& b.look.emoji == a.look.emoji
            &&& b.look.label == a.look.label
            &&& b.enabled == a.enabled
            &&& b.goa == a.goa
        }),
{
    let a = s.accounts[i as int];
    reveal(AccountsState::made);
    reveal(AccountsState::edit_account);
    editing_loses_nothing(a);
    trimming_twice_is_trimming(a.login.username);
}

/// The label follows the address as long as it was not changed by hand, and what was
/// written there by hand stays.
pub proof fn label_follows_the_address(s: AccountsState, email: Seq<char>, label: Seq<char>)
    ensures
        ({
            let (t, steps) = s.email_changed(email, label);
            &&& t.accounts == s.accounts
            &&& label.len() == 0 || label == s.label_synced ==> steps == seq![
                AccountsStep::<Seq<char>, Seq<Seq<char>>>::SetLabel(trim(email)),
            ]
            &&& label.len() > 0 && label != s.label_synced ==> steps.len() == 0
            &&& t.email_changed(email, trim(email)).1 == seq![
                AccountsStep::<Seq<char>, Seq<Seq<char>>>::SetLabel(trim(email)),
            ]
        }),
{
    reveal(AccountsState::email_changed);
}

/// What is told of a removed account, or of one that was switched, is told under its own
/// address.
pub proof fn told_under_its_address(s: AccountsState, i: usize, on: bool)
    requires
        i < s.accounts.len(),
    ensures
        s.editing == Some(i) ==> s.confirm_remove().1.contains(
            AccountsStep::Output(AccountsOutput::Removed { email: s.accounts[i as int].email }),
        ),
        s.toggle_enabled(i, on).0 != s ==> s.toggle_enabled(i, on).1 == seq![
            AccountsStep::Output(
                AccountsOutput::<Seq<char>, Seq<Seq<char>>>::EnabledChanged {
                    email: s.accounts[i as int].email,
                    enabled: on,
                },
            ),
        ],
        !s.accounts[i as int].goa.mail_disabled ==> s.toggle_enabled(i, on).0.accounts[i as int].enabled
            == on,
{
    reveal(AccountsState::confirm_remove);
    reveal(AccountsState::toggle_enabled);
    if s.editing == Some(i) {
        assert(s.confirm_remove().1[1] is Output);
    }
}

/// The row of an account shows its name, or its address where it has none, and whether it
/// is on, can be switched, and comes from the desktop.
pub proof fn rows_show_the_account(a: AccountFacts)
    ensures
        row_of(a).name == (if trim(a.name).len() > 0 {
            a.name
        } else {
            a.email
        }),
        row_of(a).email == a.email,
        row_of(a).enabled == a.enabled,
        row_of(a).sensitive == !a.goa.mail_disabled,
        row_of(a).from_desktop == a.managed(),
        row_of(a).badge == (if a.managed() {
            "Online Account"@
        } else {
            "Vireo"@
        }),
{
}

/// The editor asks for what its provider needs: a password where one is used, a sign-in
/// where there is one, servers where they are not known, and the client where it is not
/// built in; and it fills in the servers that are known.
pub proof fn editor_asks_for_what_is_needed(place: u32, presets: OAuthPresets<Seq<char>>)
    ensures
        ({
            let l = layout(place, presets);
            let p = provider(place);
            let by_password = p.kind == ProviderKind::Manual || p.kind == ProviderKind::Preset;
            let through_desktop = p.kind == ProviderKind::Google && trim(
                presets.google.settings.client_id,
            ).len() == 0;
            &&& l.password == by_password
            &&& l.sign_in == (!by_password && !through_desktop)
            &&& l.desktop_hint == through_desktop
            &&& l.identity == !through_desktop
            &&& l.servers == (by_password || p.kind == ProviderKind::CustomOAuth)
            &&& l.client == (p.kind == ProviderKind::CustomOAuth)
            &&& l.hint == p.hint@
            &&& l.fill is None <==> p.kind == ProviderKind::Manual || p.kind
                == ProviderKind::CustomOAuth
            &&& p.kind == ProviderKind::Preset ==> {
                let f = l.fill->0;
                &&& f.host == p.imap_host@
                &&& f.smtp_host == p.smtp_host@
                &&& port_of(f.port, 993) == p.imap_port
                &&& port_of(f.smtp_port, 587) == p.smtp_port
            }
            &&& p.kind == ProviderKind::Google ==> (l.fill->0).host == presets.google.imap_host
                && (l.fill->0).smtp_host == presets.google.smtp_host
            &&& p.kind == ProviderKind::Microsoft ==> (l.fill->0).host
                == presets.microsoft.imap_host && (l.fill->0).smtp_host
                == presets.microsoft.smtp_host
        }),
{
    let p = provider(place);
    port_reads_back(p.imap_port, 993);
    port_reads_back(p.smtp_port, 587);
}

// ----- Signatures -----

proof fn lemma_plain_text(s: Seq<char>)
    requires
        forall|k: int| 0 <= k < s.len() ==> #[trigger] s[k] != '<' && s[k] != '>',
    ensures
        visible_text(s) == s,
        !in_tag(s),
    decreases s.len(),
{
    if s.len() > 0 {
        let rest = s.drop_last();
        assert forall|k: int| 0 <= k < rest.len() implies #[trigger] rest[k] != '<' && rest[k] != '>' by {
            assert(rest[k] == s[k]);
        }
        lemma_plain_text(rest);
        assert(s.last() == s[s.len() - 1]);
        assert(rest.push(s.last()) =~= s);
    } else {
        assert(visible_text(s) =~= s);
    }
}

proof fn lemma_seen(s: Seq<char>, i: int, k: int)
    requires
        0 <= i <= k < s.len(),
        !is_blank(s[k]),
        forall|j: int| 0 <= j < s.len() ==> #[trigger] s[j] != '&',
    ensures
        !nothing_to_see(s, i),
    decreases k - i,
{
    if stands_at(s, hard_space(), i) {
        assert(s.subrange(i, i + 6)[0] == s[i]);
    } else if i < k {
        lemma_seen(s, i + 1, k);
    }
}

/// A signature with anything to read in it is kept as it was written.
pub proof fn readable_signatures_are_kept(sig: Seq<char>, k: int)
    requires
        0 <= k < sig.len(),
        !is_blank(sig[k]),
        forall|j: int| 0 <= j < sig.len() ==> #[trigger] sig[j] != '<' && sig[j] != '>' && sig[j] != '&',
    ensures
        signature_of(sig) == Some(sig),
{
    let t = trim(sig);
    lemma_trim_keeps(sig, k);
    trimming_twice_is_trimming(sig);
    let r = lemma_trim_around(sig, k);
    assert forall|j: int| 0 <= j < t.len() implies #[trigger] t[j] != '<' && t[j] != '>' && t[j] != '&' by {
        assert(t[j] == sig[r.0 + j]);
    }
    lemma_plain_text(t);
    lemma_seen(t, 0, 0);
}

/// The elements that are seen though they hold no text.
pub open spec fn is_seen(tag: Seq<char>) -> bool {
    ||| tag == "img"@
    ||| tag == "svg"@
    ||| tag == "hr"@
    ||| tag == "video"@
    ||| tag == "canvas"@
    ||| tag == "object"@
    ||| tag == "embed"@
    ||| tag == "iframe"@
    ||| tag == "input"@
}

/// A signature that is a picture, a line or anything else that is seen without a text is
/// kept as it was made.
pub proof fn drawn_signatures_are_kept(tag: Seq<char>, rest: Seq<char>)
    requires
        tag.len() > 0,
        is_seen(lower_all(tag)),
        forall|k: int| 0 <= k < tag.len() ==> Class::TagName.has(#[trigger] tag[k]),
        rest.len() > 0,
        !Class::TagName.has(rest[0]),
        !is_blank(rest.last()),
    ensures
        signature_of(seq!['<'] + tag + rest) == Some(seq!['<'] + tag + rest),
{
    let s = seq!['<'] + tag + rest;
    lemma_not_trimmed(s);
    let e = 1 + tag.len() as int;
    assert forall|x: int| 1 <= x < e implies Class::TagName.has(#[trigger] s[x]) by {
        assert(s[x] == tag[x - 1]);
    }
    assert(s[e] == rest[0]);
    lemma_skip_to(s, 1, e, s.len() as int, Class::TagName);
    assert(s.subrange(1, e) =~= tag);
    assert(s.take(0) =~= Seq::<char>::empty());
    assert(shown_at(s, 0));
}

} // verus!
