//! What the daemon says of its build, and how launchd starts it.

use subspace_daemon::build_info::{binary_sha256, current, BuildStamp, PACKAGE_VERSION};
use subspace_daemon::launchd::{render_launchd_plist, xml_escape};

fn unknown_stamp() -> BuildStamp {
    BuildStamp { source_commit: None, build_timestamp: None, target: None, profile: None }
}

#[test]
fn current_build_info_includes_build_metadata() {
    let info = current(Some("sha256:test".to_string()), &unknown_stamp());

    assert_eq!(info.package, "subspace-daemon");
    assert_eq!(info.version, PACKAGE_VERSION);
    assert!(!info.source_commit.is_empty());
    assert!(!info.build_timestamp.is_empty());
    assert!(!info.target.is_empty());
    assert!(!info.profile.is_empty());
    assert_eq!(info.binary_hash.as_deref(), Some("sha256:test"));
}

#[test]
fn build_info_keeps_what_the_build_recorded() {
    let stamp = BuildStamp {
        source_commit: Some("abc123".to_string()),
        build_timestamp: None,
        target: Some("aarch64-apple-darwin".to_string()),
        profile: Some("release".to_string()),
    };
    let info = current(None, &stamp);

    assert_eq!(info.source_commit, "abc123");
    assert_eq!(info.build_timestamp, "unknown");
    assert_eq!(info.target, "aarch64-apple-darwin");
    assert_eq!(info.profile, "release");
    assert_eq!(info.binary_hash, None);
}

#[test]
fn binary_hash_is_the_sha256_digest_in_hexadecimal() {
    assert_eq!(
        binary_sha256(b"abc"),
        "sha256:ba7816bf8f01cfea414140de5dae2223b00361a396177a9cb410ff61f20015ad"
    );
    assert_eq!(
        binary_sha256(b""),
        "sha256:e3b0c44298fc1c149afbf4c8996fb92427ae41e4649b934ca495991b7852b855"
    );
}

#[test]
fn renders_expected_label() {
    let rendered = render_launchd_plist(
        "/usr/local/bin/subspace-daemon",
        "/Users/mike/.openclaw/subspace-daemon/config.json",
        "/Users/mike",
    );
    assert!(rendered.contains("ai.openclaw.subspace-daemon"));
    assert!(rendered.contains("<string>/bin/zsh</string>"));
    assert!(rendered.contains("<string>-lc</string>"));
    assert!(rendered.contains("subspace-daemon-live"));
    assert!(rendered.contains("subspace-daemon-anchor"));
    assert!(rendered.contains("/bin/rm -f"));
    assert!(rendered.contains("/opt/homebrew/bin/tmux"));
    assert!(rendered.contains("/usr/local/bin/subspace-daemon"));
    assert!(rendered.contains("START_GRACE=180"));
    assert!(rendered.contains("FAILS="));
    assert!(rendered.contains("--unix-socket"));
    assert!(rendered.contains("<key>HOME</key>"));
    assert!(rendered.contains("<string>/Users/mike</string>"));
    assert!(rendered.contains("<key>USER</key>"));
    assert!(rendered.contains("<string>mike</string>"));
    assert!(rendered.contains("/Users/mike/.local/bin:/opt/homebrew/bin"));
    assert!(rendered.contains("2&gt;&amp;1"));
    assert!(!rendered.contains("\\\""));
}

#[test]
fn plist_names_socket_logs_and_daemon_command() {
    let rendered = render_launchd_plist("/bin/d", "/c.json", "/Users/mike/");
    assert!(rendered.starts_with("<?xml version=\"1.0\" encoding=\"UTF-8\"?>\n<!DOCTYPE plist"));
    assert!(rendered.ends_with("</plist>\n"));
    assert!(rendered.contains("SOCKET='/Users/mike/.openclaw/subspace-daemon/daemon.sock'"));
    assert!(rendered.contains(
        "env -i HOME='/Users/mike/' USER='mike' PATH='/Users/mike//.local/bin:/opt/homebrew/bin:/usr/local/bin:/usr/bin:/bin:/usr/sbin:/sbin' '/bin/d' serve --config '/c.json' 2&gt;&amp;1 | tee -a '/Users/mike/.local/state/subspace-daemon/tmux-daemon.log'"
    ));
    assert!(rendered.contains("ensure_anchor() { \"$TMUX\" has-session"));
    assert!(rendered
        .contains("<string>/Users/mike//.openclaw/subspace-daemon/logs/stderr.log</string>"));
}

#[test]
fn home_without_a_name_has_no_user() {
    for home in ["/", "", "..", "/Users/..", ".", "./"] {
        let rendered = render_launchd_plist("/bin/d", "/c.json", home);
        assert!(rendered.contains("<key>USER</key>\n      <string></string>"), "{}", home);
    }
    let rendered = render_launchd_plist("/bin/d", "/c.json", "/Users/mike/./.");
    assert!(rendered.contains("<key>USER</key>\n      <string>mike</string>"));
    let rendered = render_launchd_plist("/bin/d", "/c.json", "/Users/.mike");
    assert!(rendered.contains("<key>USER</key>\n      <string>.mike</string>"));
}

#[test]
fn escaped_text_holds_no_markup() {
    let escaped = xml_escape("a<b> && \"c\" &lt;");
    assert_eq!(escaped, "a&lt;b&gt; &amp;&amp; \"c\" &amp;lt;");
    assert!(!escaped.contains('<'));
    assert!(!escaped.contains('>'));
}

#[test]
fn unescaping_gives_the_text_back() {
    for text in ["", "a<b>", "&lt;", "&amp;gt;", "<<&&>>", "plain; text", "&a&m&p;"] {
        let escaped = xml_escape(text);
        let undone = escaped.replace("&lt;", "<").replace("&gt;", ">").replace("&amp;", "&");
        assert_eq!(undone, text);
        let ampersands = escaped.matches('&').count();
        let entities = ["&amp;", "&lt;", "&gt;"].iter().map(|e| escaped.matches(e).count());
        assert_eq!(ampersands, entities.sum::<usize>());
    }
}

#[test]
fn texts_are_escaped_piece_by_piece() {
    let (a, b) = ("x & l", "t; <y>");
    assert_eq!(xml_escape(&format!("{}{}", a, b)), xml_escape(a) + &xml_escape(b));
    assert_eq!(xml_escape("x & lt; <y>"), "x &amp; lt; &lt;y&gt;");
}
