use bcon::ui::{find_drm_device, is_transition_char};
use bcon::issue::{expand_issue, IssueValues};
use bcon::ui::expand_path;

#[test]
fn transition_glyphs() {
    assert!(is_transition_char('\u{E0B0}'));
    assert!(is_transition_char('\u{E0D4}'));
    assert!(is_transition_char('\u{2588}'));
    assert!(!is_transition_char('\u{E0D5}'));
    assert!(!is_transition_char('a'));
}

#[test]
fn first_existing_drm_card_is_chosen() {
    assert_eq!(find_drm_device(&vec![false, false, true, true]), Some("/dev/dri/card2".to_string()));
    assert_eq!(find_drm_device(&vec![true]), Some("/dev/dri/card0".to_string()));
    assert_eq!(find_drm_device(&vec![false; 8]), None);
    let mut ninth = vec![false; 9];
    ninth[8] = true;
    assert_eq!(find_drm_device(&ninth), None);
}

#[test]
fn home_is_expanded_at_the_start_only() {
    assert_eq!(expand_path("~/x", Some("/home/a")), "/home/a/x");
    assert_eq!(expand_path("~", Some("/home/a")), "/home/a");
    assert_eq!(expand_path("~", None), "~");
    assert_eq!(expand_path("/etc/~x", Some("/home/a")), "/etc/~x");
    assert_eq!(expand_path("", Some("/home/a")), "");
}

#[test]
fn issue_escapes_expand() {
    let v = IssueValues {
        date: "Mon Jan 01 2024".chars().collect(),
        time: "12:00:00".chars().collect(),
        tty: "tty2".chars().collect(),
        machine: "x86_64".chars().collect(),
        hostname: "box".chars().collect(),
        domain: "".chars().collect(),
        release: "6.1".chars().collect(),
        sysname: "Linux".chars().collect(),
        version: "#1".chars().collect(),
    };
    let text: Vec<char> = "\\s \\r (\\l) on \\n \\q \\\\ end\\".chars().collect();
    assert_eq!(expand_issue(&text, &v), "Linux 6.1 (tty2) on box \\q \\ end\\");
}
