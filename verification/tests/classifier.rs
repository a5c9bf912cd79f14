use aas_probe::outcome::{classify, contains_marker, ProbeOutcome};

#[test]
fn body_without_marker_is_approved() {
    assert_eq!(classify("Token=abc\nExpiry=0\n"), ProbeOutcome::Approved);
}

#[test]
fn empty_body_is_approved() {
    assert_eq!(classify(""), ProbeOutcome::Approved);
}

#[test]
fn unregistered_marker_is_rejected() {
    assert_eq!(classify("Error=UNREGISTERED_ON_API_CONSOLE"), ProbeOutcome::Rejected);
    assert_eq!(
        classify("Url=x\nError=UNREGISTERED_ON_API_CONSOLE\nInfo=y"),
        ProbeOutcome::Rejected
    );
}

#[test]
fn restricted_marker_is_rejected() {
    assert_eq!(classify("Error=RESTRICTED_CLIENT"), ProbeOutcome::Rejected);
    assert_eq!(classify("a\nError=RESTRICTED_CLIENT\nb"), ProbeOutcome::Rejected);
}

#[test]
fn markers_are_case_sensitive() {
    assert_eq!(classify("error=unregistered_on_api_console"), ProbeOutcome::Approved);
    assert_eq!(classify("Error=Restricted_Client"), ProbeOutcome::Approved);
    assert_eq!(classify("ERROR=RESTRICTED_CLIENT"), ProbeOutcome::Approved);
}

#[test]
fn partial_marker_is_not_a_rejection() {
    assert_eq!(classify("Error=UNREGISTERED_ON_API_CONSOL"), ProbeOutcome::Approved);
    assert_eq!(classify("rror=RESTRICTED_CLIENT"), ProbeOutcome::Approved);
    assert_eq!(classify("Error=BadAuthentication"), ProbeOutcome::Approved);
}

#[test]
fn classifier_is_total_and_never_transient() {
    let bodies = ["", "x", "Error=RESTRICTED_CLIENT", "\u{e9}\u{4e2d}", "Error=", "=\n="];
    for body in bodies {
        let outcome = classify(body);
        assert!(outcome == ProbeOutcome::Approved || outcome == ProbeOutcome::Rejected);
    }
}

#[test]
fn marker_after_multibyte_text_is_found() {
    assert_eq!(classify("\u{e9}\u{4e2d}Error=RESTRICTED_CLIENT"), ProbeOutcome::Rejected);
}

#[test]
fn contains_marker_edges() {
    assert!(contains_marker(b"abc", b""));
    assert!(contains_marker(b"", b""));
    assert!(!contains_marker(b"", b"a"));
    assert!(!contains_marker(b"ab", b"abc"));
    assert!(contains_marker(b"abc", b"abc"));
    assert!(contains_marker(b"xxabc", b"abc"));
    assert!(contains_marker(b"abcxx", b"abc"));
    assert!(contains_marker(b"aab", b"ab"));
    assert!(!contains_marker(b"abab", b"bb"));
}
