use aether::updates::{update_available, update_info};

#[test]
fn leading_v_of_the_tag_is_ignored() {
    assert!(!update_available("0.5.7", "v0.5.7"));
    assert!(!update_available("0.5.7", "0.5.7"));
    assert!(update_available("0.5.7", "v0.6.0"));
    assert!(!update_available("1.0", "vv1.0"));
}

#[test]
fn successful_check_reports_both_versions() {
    let info = update_info(Ok("0.5.7".into()), Ok("v0.6.0".into()), "2024-01-01T00:00:00Z".into());
    assert_eq!(info.current_version.as_deref(), Some("0.5.7"));
    assert_eq!(info.latest_version.as_deref(), Some("v0.6.0"));
    assert!(info.update_available);
    assert!(info.error.is_none());
    assert_eq!(info.last_checked_at.as_deref(), Some("2024-01-01T00:00:00Z"));
}

#[test]
fn failed_lookups_are_reported() {
    let info = update_info(Err("timeout".into()), Err("dns".into()), "t".into());
    assert_eq!(info.error.as_deref(), Some("could not reach Ollama: timeout"));
    assert!(!info.update_available);
    let info = update_info(Ok("1".into()), Err("dns".into()), "t".into());
    assert_eq!(info.error.as_deref(), Some("could not reach GitHub: dns"));
    assert!(info.current_version.is_none());
}
