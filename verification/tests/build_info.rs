use update_delivery_system::build_info::{banner, clap_version, display_version, should_print_banner};

/// Verifies that version and banner contain build information.
#[test]
fn version_and_banner_contain_build_information() {
    assert_eq!(display_version(), "UDS v26.7.1 (build 1)");
    assert_eq!(clap_version(), "26.7.1 (build 1)");
    let output = banner();
    assert_eq!(
        output,
        r#"
    _   _ ____  ____
   | | | |  _ \/ ___|
   | | | | | | \___ \
   | |_| | |_| |___) |
    \___/|____/|____/

   MindWork AI Studio · Update Delivery System
   v26.7.1 · build 1

"#
    );
    assert!(output.contains("MindWork AI Studio · Update Delivery System"));
    assert!(output.contains("v26.7.1 · build 1"));
}

/// Verifies that banner is only selected for a terminal.
#[test]
fn banner_is_only_selected_for_a_terminal() {
    assert!(should_print_banner(true));
    assert!(!should_print_banner(false));
}
