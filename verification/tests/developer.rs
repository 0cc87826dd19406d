use idevice_desktop::developer::attach_failure;

#[test]
fn treats_stop_packets_as_a_successful_attach() {
    assert_eq!(attach_failure(Some("T11thread:1234;")), None);
    assert_eq!(attach_failure(Some("S05")), None);
    assert_eq!(attach_failure(None), None);
    assert_eq!(attach_failure(Some("")), None);
}

#[test]
fn reports_the_decoded_reason_for_a_rejected_attach() {
    // Observed on iPhone11,8 / iOS 17.0 when attaching to an App Store build.
    let response = "E96;617474616368206661696c6564";
    assert_eq!(
        attach_failure(Some(response)).as_deref(),
        Some("attach failed")
    );
}

#[test]
fn falls_back_to_the_error_code_without_a_usable_message() {
    assert_eq!(
        attach_failure(Some("E96")).as_deref(),
        Some("debugserver rejected the attach with error 96")
    );
    assert_eq!(
        attach_failure(Some("E08;zz")).as_deref(),
        Some("debugserver rejected the attach with error 08")
    );
}

#[test]
fn ignores_replies_that_only_look_like_an_error() {
    // A stop packet whose payload happens to start with E is not an error.
    assert_eq!(attach_failure(Some("Exception")), None);
}
