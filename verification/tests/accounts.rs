//! Accounts and settings.

use vireo::account_form::{
    apply_provider, clear_editor, display_name, fill_editor, oauth_settings_from_form,
    preserve_hidden_transport, provider_index_for_account, read_account, signature_is_empty,
    AccountConfig, Form, OAuthPreset, OAuthPresets, OAuthSettings, Protocol,
};
use vireo::accounts::{
    account_row, goa_subtitle, AccountsCmd, AccountsInput, AccountsOutput, AccountsStep,
    AccountsWindow, ConnTest, GoaMailAccount, StatusClass, Step,
};
use vireo::preferences::{
    add_address, fetch_interval, fetch_interval_choice, fetch_interval_labels, message_theme,
    message_theme_choice, message_theme_labels, remove_address, MessageTheme, PrefInput,
    PrefOutput, Preferences, SenderRow, SenderRowOutput,
};
use vireo::providers::{kind_index, manual_index, preset_index_for_host, ProviderKind};

fn s(t: &str) -> String {
    t.to_string()
}

fn preset(client_id: &str, host: &str) -> OAuthPreset<String> {
    OAuthPreset {
        settings: OAuthSettings {
            auth_url: s("https://auth"),
            token_url: format!("https://{host}/token"),
            client_id: s(client_id),
            client_secret: s("secret"),
            scopes: s("mail"),
        },
        imap_host: format!("imap.{host}"),
        imap_port: 993,
        smtp_host: format!("smtp.{host}"),
        smtp_port: 587,
    }
}

fn presets() -> OAuthPresets<String> {
    OAuthPresets { google: preset("", "googleapis.com"), microsoft: preset("id", "microsoftonline.com") }
}

fn form(email: &str) -> Form {
    let mut f = clear_editor();
    f.name = s(" Ada ");
    f.email = s(email);
    f.servers.host = s(" imap.example.com ");
    f.servers.port = s("143");
    f.login.username = s("ada");
    f.login.password = s(" pw ");
    f
}

fn account(email: &str) -> AccountConfig {
    read_account(&form(email), &None)
}

fn saved(steps: &[Step]) -> Option<&AccountConfig> {
    steps.iter().find_map(|s| match s {
        AccountsStep::Output(AccountsOutput::Saved { account, .. }) => Some(account),
        _ => None,
    })
}

fn save(w: &mut AccountsWindow, f: Form, sig: &str) -> Vec<Step> {
    w.update(AccountsInput::SaveWithSig { sig_html: s(sig), form: f }, &presets())
}

fn emails(w: &AccountsWindow) -> Vec<&str> {
    w.accounts.iter().map(|a| a.email.as_str()).collect()
}

// ----- The form -----

#[test]
fn a_form_is_read_as_entered() {
    let a = read_account(&form(" ada@x "), &Some(s("!")));
    assert_eq!((a.name.as_str(), a.email.as_str()), ("Ada", "ada@x"));
    assert_eq!((a.incoming.host.as_str(), a.incoming.port), ("imap.example.com", 143));
    assert!(a.incoming.starttls && !a.incoming.implicit_tls);
    assert_eq!((a.outgoing.port, a.outgoing.implicit_tls), (587, false));
    assert_eq!(a.login.password, " pw ");
    assert_eq!(a.look.emoji.as_deref(), Some("!"));
    assert_eq!(a.look.color.as_deref(), Some("#3584e4"));
    assert_eq!(a.look.label, None);
    let mut f = form("a@x");
    f.servers.protocol = 1;
    f.servers.port = s("x");
    f.servers.smtp_port = s("465");
    f.label = s("Work");
    let b = read_account(&f, &None);
    assert!(b.incoming.protocol == Protocol::Pop3 && b.incoming.port == 995);
    assert!(b.outgoing.implicit_tls);
    assert_eq!(b.look.label.as_deref(), Some("Work"));
    f.servers.port = s("65536");
    assert_eq!(read_account(&f, &None).incoming.port, 995);
}

#[test]
fn an_account_survives_its_editor() {
    let mut a = account("ada@x");
    a.incoming.port = 993;
    a.incoming.implicit_tls = false;
    a.look.label = Some(s("Work"));
    let mut b = read_account(&fill_editor(&a), &a.look.emoji);
    assert!(b.incoming.implicit_tls);
    preserve_hidden_transport(&mut b, &a);
    assert!(!b.incoming.implicit_tls);
    assert_eq!(b.look.label, a.look.label);
    assert_eq!((b.name, b.email, b.incoming.port), (a.name, a.email, a.incoming.port));
}

#[test]
fn the_provider_of_an_account() {
    let mut a = account("ada@x");
    assert_eq!(provider_index_for_account(&a), manual_index());
    a.incoming.host = s("imap.gmx.com");
    assert_eq!(provider_index_for_account(&a), preset_index_for_host("imap.gmx.com"));
    a.oauth.on = true;
    assert_eq!(provider_index_for_account(&a), kind_index(ProviderKind::CustomOAuth));
    a.oauth.settings = Some(presets().google.settings);
    assert_eq!(provider_index_for_account(&a), kind_index(ProviderKind::Google));
    a.oauth.settings = Some(presets().microsoft.settings);
    assert_eq!(provider_index_for_account(&a), kind_index(ProviderKind::Microsoft));
    a.goa.id = Some(s("1"));
    assert_eq!(provider_index_for_account(&a), preset_index_for_host("imap.gmx.com"));
}

#[test]
fn the_form_follows_its_provider() {
    let google = apply_provider(kind_index(ProviderKind::Google), &presets());
    assert!(google.desktop_hint && !google.identity && !google.sign_in && google.hide_status);
    let microsoft = apply_provider(kind_index(ProviderKind::Microsoft), &presets());
    assert!(microsoft.sign_in && microsoft.identity && microsoft.drop_separate && !microsoft.servers);
    assert_eq!(microsoft.fill.expect("servers").host, "imap.microsoftonline.com");
    let custom = apply_provider(kind_index(ProviderKind::CustomOAuth), &presets());
    assert!(custom.client && custom.servers && !custom.password && custom.fill.is_none());
    let icloud = apply_provider(kind_index(ProviderKind::Preset), &presets());
    assert!(icloud.password && icloud.servers);
    assert_eq!(icloud.fill.expect("servers").smtp_port, "587");
    let mut f = form("a@x");
    f.provider = kind_index(ProviderKind::CustomOAuth);
    f.oauth.client_id = s(" me ");
    f.oauth.client_secret = s(" hush ");
    let custom = oauth_settings_from_form(&f, &presets());
    assert_eq!((custom.client_id.as_str(), custom.client_secret.as_str()), ("me", " hush "));
    f.provider = kind_index(ProviderKind::Microsoft);
    assert_eq!(oauth_settings_from_form(&f, &presets()).client_id, "id");
}

#[test]
fn signatures_that_show_nothing_are_none() {
    assert!(signature_is_empty("<div><br></div>"));
    assert!(signature_is_empty(" &nbsp;<p>&nbsp;</p>"));
    assert!(!signature_is_empty("<p>Ada</p>"));
    assert!(!signature_is_empty("&nbsp"));
    assert!(!signature_is_empty("<img src=\"data:image/png;base64,iVBOR\">"));
    assert!(!signature_is_empty("<div><HR></div>"));
    assert!(signature_is_empty("<imgx></img>"));
    assert!(signature_is_empty("<b title=\"<img\"></b>"));
}

// ----- The window -----

#[test]
fn accounts_are_added_edited_and_removed() {
    let mut w = AccountsWindow::new(Vec::new(), Vec::new());
    w.update(AccountsInput::AddAccount, &presets());
    let steps = save(&mut w, form("a@x"), "<p>Ada</p>");
    assert_eq!(saved(&steps).expect("saved").look.signature.as_deref(), Some("<p>Ada</p>"));
    w.update(AccountsInput::AddAccount, &presets());
    save(&mut w, form("b@x"), "");
    assert_eq!(emails(&w), vec!["a@x", "b@x"]);
    w.update(AccountsInput::EditAccount(0), &presets());
    let steps = save(&mut w, form("c@x"), "<br>");
    assert_eq!(saved(&steps).expect("saved").look.signature, None);
    assert!(steps.iter().any(|s| matches!(s,
        AccountsStep::Output(AccountsOutput::Saved { original_email: Some(e), .. }) if e == "a@x")));
    assert_eq!(emails(&w), vec!["c@x", "b@x"]);
    let steps = w.update(AccountsInput::RemoveCurrent, &presets());
    assert!(matches!(&steps[..], [AccountsStep::AskRemoval(t)] if t.starts_with("Remove Ada from Vireo?")));
    w.update(AccountsInput::ConfirmRemove, &presets());
    assert_eq!(emails(&w), vec!["b@x"]);
}

#[test]
fn incomplete_accounts_are_refused() {
    let mut w = AccountsWindow::new(Vec::new(), Vec::new());
    for spoil in [
        |f: &mut Form| f.servers.host = String::new(),
        |f: &mut Form| f.login.username = s(" "),
        |f: &mut Form| f.login.password = String::new(),
        |f: &mut Form| f.login.smtp_separate = true,
        |f: &mut Form| f.provider = kind_index(ProviderKind::Microsoft),
    ] {
        let mut f = form("a@x");
        spoil(&mut f);
        let steps = save(&mut w, f, "");
        assert!(matches!(steps.last(), Some(AccountsStep::MarkHost(true))));
        assert!(w.accounts.is_empty());
    }
}

#[test]
fn a_sign_in_is_saved_with_its_account() {
    let mut w = AccountsWindow::new(Vec::new(), Vec::new());
    let mut f = form("a@x");
    f.provider = kind_index(ProviderKind::Microsoft);
    f.login.username = String::new();
    let steps = w.update(AccountsInput::OAuthSignIn(fill_like(&f)), &presets());
    assert!(matches!(steps.last(), Some(AccountsStep::SignIn(x)) if x.client_id == "id"));
    w.update_cmd(AccountsCmd::OAuth(Ok(s("token"))));
    let steps = save(&mut w, f, "");
    let a = saved(&steps).expect("saved");
    assert_eq!((a.oauth.refresh.as_str(), a.login.username.as_str(), a.oauth.on), ("token", "a@x", true));
    assert!(w.pending_oauth_refresh.is_none());
    let failed = w.update_cmd(AccountsCmd::OAuth(Err(s("no"))));
    assert!(matches!(&failed[1], AccountsStep::SignInStatus { text, class: StatusClass::Error }
        if text == "Sign-in failed: no"));
    let mut custom = form("a@x");
    custom.provider = kind_index(ProviderKind::CustomOAuth);
    let steps = w.update(AccountsInput::OAuthSignIn(custom), &presets());
    assert!(matches!(&steps[..], [AccountsStep::SignInStatus { class: StatusClass::Error, .. }]));
}

fn fill_like(f: &Form) -> Form {
    let mut g = form(&f.email);
    g.provider = f.provider;
    g
}

#[test]
fn rows_move_and_switch() {
    let mut w = AccountsWindow::new(vec![account("a@x"), account("b@x"), account("c@x")], Vec::new());
    let steps = w.update(AccountsInput::MoveRow { from: 0, to: 9 }, &presets());
    assert_eq!(emails(&w), vec!["b@x", "c@x", "a@x"]);
    assert!(matches!(&steps[1], AccountsStep::Output(AccountsOutput::Reordered(v))
        if v == &vec![s("b@x"), s("c@x"), s("a@x")]));
    let off = AccountsInput::ToggleEnabled { index: 0, enabled: false };
    assert_eq!(w.update(off, &presets()).len(), 1);
    assert!(!w.accounts[0].enabled);
    w.accounts[1].goa.mail_disabled = true;
    let off = AccountsInput::ToggleEnabled { index: 1, enabled: false };
    assert!(w.update(off, &presets()).is_empty() && w.accounts[1].enabled);
}

#[test]
fn a_label_follows_the_address_until_it_is_changed() {
    let mut w = AccountsWindow::new(Vec::new(), Vec::new());
    let typed = |email: &str, label: &str| AccountsInput::EmailChanged { email: s(email), label: s(label) };
    assert!(matches!(&w.update(typed(" a@x ", ""), &presets())[..], [AccountsStep::SetLabel(l)] if l == "a@x"));
    assert_eq!(w.update(typed("ab@x", "a@x"), &presets()).len(), 1);
    assert!(w.update(typed("abc@x", "Work"), &presets()).is_empty());
}

#[test]
fn the_desktops_accounts_are_offered_once() {
    let goa = |email: &str| GoaMailAccount {
        email: s(email),
        provider: String::new(),
        oauth2: true,
        password_based: false,
        account: account(email),
    };
    let mut w = AccountsWindow::new(vec![account("a@x")], vec![goa("A@X"), goa("b@x")]);
    assert_eq!(w.goa.len(), 1);
    assert_eq!(goa_subtitle(&w.goa[0]), "Mail · sign-in via GNOME");
    let steps = w.update(AccountsInput::ImportGoa(0), &presets());
    assert!(matches!(&steps[1], AccountsStep::ListGoa { shown: false }));
    assert_eq!(emails(&w), vec!["a@x", "b@x"]);
}

#[test]
fn a_test_says_what_it_found() {
    let mut w = AccountsWindow::new(Vec::new(), Vec::new());
    let t = ConnTest { incoming: Ok(()), smtp: Err(s("refused")) };
    let steps = w.update_cmd(AccountsCmd::Test(t, 1));
    assert!(matches!(&steps[..], [AccountsStep::TestStatus { text, class: StatusClass::Error, ready: true }]
        if text == "✓ POP3: connected\n✗ SMTP: refused"));
    let row = account_row(&account("a@x"));
    assert_eq!((row.name.as_str(), row.badge.as_str()), ("Ada", "Vireo"));
    let mut nameless = account("a@x");
    nameless.name = s(" ");
    assert_eq!(display_name(&nameless), "a@x");
}

// ----- Settings -----

#[test]
fn addresses_are_kept_once_and_in_lower_case() {
    let mut p = Preferences::new(Vec::new(), vec![s("spam.example")]);
    let added = p.update(PrefInput::AddSenderText(s("  ÄDA@Example.com ")));
    assert!(matches!(added, Some(PrefOutput::AddSender(a)) if a == "äda@example.com"));
    assert!(p.update(PrefInput::AddSenderText(s("äda@example.COM"))).is_none());
    assert!(p.update(PrefInput::AddSenderText(s("  "))).is_none());
    assert_eq!(p.sender_addrs, vec!["äda@example.com"]);
    assert!(p.update(PrefInput::RemoveSenderRow(s("other"))).is_none());
    assert!(matches!(
        p.update(PrefInput::RemoveSenderRow(s("äda@example.com"))),
        Some(PrefOutput::RemoveSender(_))
    ));
    assert!(p.sender_addrs.is_empty());
    assert!(p.update(PrefInput::AddBlacklistText(s("SPAM.example"))).is_none());
    assert!(matches!(
        p.update(PrefInput::RemoveBlacklistRow(s("spam.example"))),
        Some(PrefOutput::RemoveBlacklist(_))
    ));
    let mut list = vec![s("a")];
    assert!(add_address(&mut list, "b") && !add_address(&mut list, "a"));
    assert_eq!(remove_address(&mut list, "b"), Some(1));
    let row = SenderRow::init_model(s("a"));
    let SenderRowOutput::Remove(addr) = row.removal();
    assert_eq!(addr, "a");
}

#[test]
fn choices_read_back() {
    for (i, secs) in [0, 60, 300, 900, 1800].into_iter().enumerate() {
        assert_eq!(fetch_interval(i as u32), secs);
        assert_eq!(fetch_interval_choice(secs), i as u32);
    }
    assert_eq!((fetch_interval(9), fetch_interval_choice(7)), (0, 0));
    assert_eq!(fetch_interval_labels().len(), 5);
    for theme in [MessageTheme::System, MessageTheme::Light, MessageTheme::Dark] {
        assert!(message_theme(message_theme_choice(theme)) == theme);
    }
    assert_eq!(message_theme_labels(), vec!["Follow system", "Light", "Dark"]);
    let mut p = Preferences::new(Vec::new(), Vec::new());
    assert!(matches!(
        p.update(PrefInput::ChangeFetchInterval(2)),
        Some(PrefOutput::SetFetchInterval(300))
    ));
}
