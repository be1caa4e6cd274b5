use update_delivery_system::client::api::{
    changelog_path, copy_path, display_path, endpoint_url, is_success_status, normalize_base_url, release_path,
    releases_path, stats_path,
};

#[test]
fn admin_paths_name_channel_and_version() {
    assert_eq!(releases_path("stable"), "/admin/v1/channels/stable/releases");
    assert_eq!(release_path("beta", "1.2.3"), "/admin/v1/channels/beta/releases/1.2.3");
    assert_eq!(changelog_path("beta", "1.2.3"), "/admin/v1/channels/beta/releases/1.2.3/changelog");
    assert_eq!(copy_path("stable"), "/admin/v1/channels/stable/copy");
    assert_eq!(stats_path("stable"), "/admin/v1/channels/stable/stats");
}

#[test]
fn base_url_loses_trailing_slashes_and_prefixes_paths() {
    let base = normalize_base_url("https://updates.example.org//");
    assert_eq!(base, "https://updates.example.org");
    assert_eq!(normalize_base_url("https://a.example"), "https://a.example");
    assert_eq!(
        endpoint_url(&base, "/admin/v1/channels/stable/stats"),
        "https://updates.example.org/admin/v1/channels/stable/stats"
    );
}

#[test]
fn only_2xx_statuses_are_successes() {
    assert!(is_success_status(200));
    assert!(is_success_status(204));
    assert!(is_success_status(299));
    assert!(!is_success_status(199));
    assert!(!is_success_status(300));
    assert!(!is_success_status(404));
    assert!(!is_success_status(500));
}

#[test]
fn paths_are_displayed_as_written() {
    assert_eq!(display_path("/tmp/uds/latest.json"), "/tmp/uds/latest.json");
    assert_eq!(display_path("latest.json"), "latest.json");
}
