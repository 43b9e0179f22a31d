//! Links, images and file names.

use vireo::escape::sanitize_filename;
use vireo::links::{
    data_content, default_image_name, host_of, is_launchable_uri, link_destination,
    mismatched_host, split_data_uri,
};

fn base64(text: &str) -> Vec<u8> {
    let alphabet = "ABCDEFGHIJKLMNOPQRSTUVWXYZabcdefghijklmnopqrstuvwxyz0123456789+/";
    let mut out = Vec::new();
    let (mut bits, mut have) = (0u32, 0u32);
    for c in text.chars() {
        if let Some(v) = alphabet.find(c) {
            bits = (bits << 6) | v as u32;
            have += 6;
            if have >= 8 {
                have -= 8;
                out.push((bits >> have) as u8);
                bits &= (1 << have) - 1;
            }
        }
    }
    out
}

fn decode_data_uri(uri: &str) -> Option<(String, Vec<u8>)> {
    let d = split_data_uri(uri)?;
    data_content(d.mime, base64(&d.payload))
}

#[test]
fn only_web_and_mail_links_reach_the_desktop() {
    // An HTML body keeps its own `href` values, so a message can name any
    // scheme a third-party application has registered.
    for uri in ["http://example.com/", "https://example.com/", "MAILTO:a@b.c"] {
        assert!(is_launchable_uri(uri), "{uri}");
    }
    for uri in [
        "file:///etc/passwd",
        "smb://host/share",
        "nfs://host/export",
        "javascript:alert(1)",
        "data:text/html,<script>x</script>",
        "vscode://file/etc/passwd",
        "https:",
        "no-scheme-at-all",
    ] {
        assert!(!is_launchable_uri(uri), "{uri}");
    }
}

#[test]
fn rejects_uris_it_cannot_save_locally() {
    // Remote images keep WebKit's own (download-backed) menu item.
    assert!(decode_data_uri("https://example.com/a.png").is_none());
    // Non-base64 `data:` URIs aren't something the reader emits.
    assert!(decode_data_uri("data:image/png,rawbytes").is_none());
    assert!(decode_data_uri("not a uri").is_none());
}

#[test]
fn link_preview_shows_the_plain_url_when_nothing_is_amiss() {
    assert_eq!(
        link_destination("https://example.com/a", Some("Read more")),
        "https://example.com/a"
    );
    // Link text that matches where it goes is not a mismatch.
    assert_eq!(
        link_destination("https://example.com/a", Some("example.com")),
        "https://example.com/a"
    );
    // Subdomains belong to the same site.
    assert_eq!(
        link_destination("https://mail.example.com/a", Some("example.com")),
        "https://mail.example.com/a"
    );
}

#[test]
fn link_preview_calls_out_text_claiming_another_site() {
    let shown = link_destination("https://evil.example/login", Some("https://paypal.com"));
    assert!(shown.contains("paypal.com"), "{shown}");
    assert!(shown.contains("evil.example"), "{shown}");
    assert!(shown.contains('⚠'), "{shown}");
}

#[test]
fn ordinary_link_text_is_never_mistaken_for_a_host() {
    assert_eq!(host_of("Click here to sign in"), None);
    assert_eq!(host_of("mailto:someone@example.com"), None);
    assert_eq!(host_of("https://example.com/path"), Some("example.com".into()));
    assert_eq!(host_of("example.com/path"), Some("example.com".into()));
    // Userinfo can't be used to disguise the real host.
    assert_eq!(
        host_of("https://paypal.com@evil.example/"),
        Some("evil.example".into())
    );
}

#[test]
fn suggests_a_filename_from_the_mime_type() {
    assert_eq!(default_image_name("image/jpeg"), "image.jpg");
    assert_eq!(default_image_name("image/png"), "image.png");
    assert_eq!(default_image_name("image/svg+xml"), "image.svg");
}

#[test]
fn decodes_a_base64_data_uri() {
    let (mime, data) = decode_data_uri("data:image/jpeg;base64,/9j/4AAQ").expect("decodes");
    assert_eq!(mime, "image/jpeg");
    assert_eq!(&data[..3], b"\xff\xd8\xff"); // JPEG magic
}

#[test]
fn print_filenames_survive_real_subjects() {
    // The subject names the print job and seeds the filename when printing to
    // a file, so it must not carry path separators or other characters a
    // filesystem would refuse.
    assert_eq!(sanitize_filename("Quarterly numbers"), "Quarterly numbers");
    assert_eq!(sanitize_filename("Invoice 3/4 <urgent>"), "Invoice 3-4 -urgent-");
    assert_eq!(sanitize_filename("../../etc/passwd"), "etc-passwd");
    // Nothing usable left, or nothing to begin with.
    assert_eq!(sanitize_filename("   "), "Message");
    assert_eq!(sanitize_filename(""), "Message");
    assert_eq!(sanitize_filename("..."), "Message");
}

#[test]
fn print_filenames_are_bounded() {
    let long = "word ".repeat(100);
    assert!(sanitize_filename(&long).chars().count() <= 120);
}

#[test]
fn a_host_of_its_own_is_no_claim() {
    assert_eq!(mismatched_host("https://example.com/a", "https://example.com/b"), None);
    assert_eq!(mismatched_host("https://evil.example/", "paypal.com"), Some("paypal.com".to_string()));
    assert_eq!(link_destination("https://example.com/", None), "https://example.com/");
}

#[test]
fn an_image_without_bytes_is_none() {
    assert!(decode_data_uri("data:image/png;base64,").is_none());
    assert!(data_content("image/png".to_string(), Vec::new()).is_none());
    let d = split_data_uri("data:image/png;base64,AAAA").expect("splits");
    assert_eq!((d.mime.as_str(), d.payload.as_str()), ("image/png", "AAAA"));
}

#[test]
fn file_names_never_begin_with_a_dot() {
    assert_eq!(sanitize_filename(". .x"), "x");
    assert_eq!(sanitize_filename(".profile"), "profile");
}
