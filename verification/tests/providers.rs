//! The table of providers.

use vireo::providers::{
    kind_index, manual_index, preset_index_for_host, provider_at, providers, ProviderKind,
};

#[test]
fn known_host_maps_to_its_own_entry() {
    let idx = preset_index_for_host("imap.mail.me.com");
    assert_eq!(provider_at(idx).label, "iCloud");
    // Case-insensitive.
    assert_eq!(preset_index_for_host("IMAP.FASTMAIL.COM"), preset_index_for_host("imap.fastmail.com"));
    assert_eq!(provider_at(preset_index_for_host("imap.fastmail.com")).label, "Fastmail");
}

#[test]
fn unknown_or_empty_host_falls_back_to_manual() {
    assert_eq!(preset_index_for_host("mail.example.org"), manual_index());
    assert_eq!(preset_index_for_host(""), manual_index());
    assert_eq!(preset_index_for_host("  "), manual_index());
    assert_eq!(provider_at(manual_index()).kind, ProviderKind::Manual);
}

#[test]
fn removed_password_providers_are_gone() {
    // Gmail/Hotmail no longer work with a password — only via OAuth.
    for p in providers() {
        if p.kind == ProviderKind::Preset {
            assert_ne!(p.imap_host, "imap.gmail.com");
            assert_ne!(p.imap_host, "outlook.office365.com");
        }
    }
}

#[test]
fn provider_table_is_well_formed() {
    // Distinct labels; presets have sane servers; exactly one Manual entry.
    let mut labels: Vec<&str> = providers().iter().map(|p| p.label).collect();
    let n = labels.len();
    labels.sort_unstable();
    labels.dedup();
    assert_eq!(labels.len(), n, "provider labels must be unique");
    assert_eq!(providers().iter().filter(|p| p.kind == ProviderKind::Manual).count(), 1);
    for p in providers() {
        if p.kind == ProviderKind::Preset {
            assert!(!p.imap_host.is_empty() && !p.smtp_host.is_empty(), "{}", p.label);
            assert!(p.imap_port > 0 && p.smtp_port > 0, "{}", p.label);
            // Each preset's host round-trips to its own entry.
            assert_eq!(provider_at(preset_index_for_host(p.imap_host)).label, p.label);
        }
    }
}

#[test]
fn kinds_lead_to_their_first_entry() {
    for kind in [
        ProviderKind::Google,
        ProviderKind::Microsoft,
        ProviderKind::Preset,
        ProviderKind::CustomOAuth,
        ProviderKind::Manual,
    ] {
        let first = providers().iter().position(|p| p.kind == kind);
        assert_eq!(first, Some(kind_index(kind) as usize));
    }
    assert_eq!(provider_at(99).kind, ProviderKind::Manual);
    assert_eq!(provider_at(0).oauth_name(), Some("google"));
    assert_eq!(provider_at(1).oauth_name(), Some("microsoft"));
    assert_eq!(provider_at(2).oauth_name(), None);
    assert!(provider_at(2).is_password() && provider_at(0).is_oauth());
    assert_eq!(preset_index_for_host(" Imap.Aol.com\n"), 6);
}
