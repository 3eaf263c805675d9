use vmctl_controller::errors::VmctlControllerErrorCause;
use vmctl_controller::status::Status;
use vmctl_controller::text::{parse_u64, str_contains, str_eq, u64_to_string};
use vmctl_controller::{
    classify_pause_output, classify_start_output, classify_stop_output, classify_unpause_output,
    pause_command, start_command, stop_command, unpause_command, vm_id,
};

fn sample_records() -> Vec<Status> {
    let input = "1 - 1 2.0G - - user one\n2 - 1 512M - - user two\n3 - 2 4.0G - - root three";
    Status::from_shell(input)
        .into_iter()
        .map(|x| x.unwrap())
        .collect()
}

#[test]
fn resolve_present_name() {
    let records = sample_records();
    assert_eq!(vm_id(&records, "one").unwrap(), 1);
    assert_eq!(vm_id(&records, "three").unwrap(), 3);
}

#[test]
fn resolve_first_match_wins() {
    let input = "4 - 1 2.0G - - user twin\n5 - 1 2.0G - - user twin";
    let records: Vec<Status> = Status::from_shell(input)
        .into_iter()
        .map(|x| x.unwrap())
        .collect();
    assert_eq!(vm_id(&records, "twin").unwrap(), 4);
}

#[test]
fn resolve_absent_name_fails() {
    let records = sample_records();
    let err = vm_id(&records, "missing").unwrap_err();
    assert_eq!(err.cause, VmctlControllerErrorCause::VmNotFound);
    let no_records: Vec<Status> = Vec::new();
    let err = vm_id(&no_records, "missing").unwrap_err();
    assert_eq!(err.cause, VmctlControllerErrorCause::VmNotFound);
}

#[test]
fn resolve_is_case_sensitive() {
    let records = sample_records();
    let err = vm_id(&records, "One").unwrap_err();
    assert_eq!(err.cause, VmctlControllerErrorCause::VmNotFound);
}

#[test]
fn start_success_phrase() {
    let diag = "vmctl: started vm 3 successfully, tty /dev/ttyp9\n";
    assert!(classify_start_output(diag).is_ok());
}

#[test]
fn start_empty_diagnostics_fail() {
    let err = classify_start_output("").unwrap_err();
    assert_eq!(err.cause, VmctlControllerErrorCause::Start);
}

#[test]
fn start_wrong_phrase_fails() {
    let err = classify_start_output("vmctl: start failed").unwrap_err();
    assert_eq!(err.cause, VmctlControllerErrorCause::Start);
}

#[test]
fn stop_phrase_classification() {
    assert!(classify_stop_output("stopping vm: requested to shutdown vm 2\n").is_ok());
    let err = classify_stop_output("vmctl: stop failed").unwrap_err();
    assert_eq!(err.cause, VmctlControllerErrorCause::Stop);
}

#[test]
fn pause_phrase_classification() {
    assert!(classify_pause_output("vmctl: paused vm 2\n").is_ok());
    let err = classify_pause_output("").unwrap_err();
    assert_eq!(err.cause, VmctlControllerErrorCause::Stop);
}

#[test]
fn unpause_phrase_classification() {
    assert!(classify_unpause_output("vmctl: unpaused vm 2\n").is_ok());
    let err = classify_unpause_output("vmctl: paused vm 2\n").unwrap_err();
    assert_eq!(err.cause, VmctlControllerErrorCause::Stop);
}

#[test]
fn command_lines() {
    assert_eq!(start_command("one"), "vmctl start one");
    assert_eq!(stop_command(17), "vmctl stop 17");
    assert_eq!(pause_command(0), "vmctl pause 0");
    assert_eq!(unpause_command(u64::MAX), "vmctl unpause 18446744073709551615");
}

#[test]
fn decimal_parse_exact_values() {
    assert_eq!(parse_u64("42"), Some(42));
    assert_eq!(parse_u64("0"), Some(0));
    assert_eq!(parse_u64("0042"), Some(42));
    assert_eq!(parse_u64("18446744073709551615"), Some(u64::MAX));
    assert_eq!(parse_u64("18446744073709551616"), None);
    assert_eq!(parse_u64(""), None);
    assert_eq!(parse_u64("4x2"), None);
    assert_eq!(parse_u64("-1"), None);
}

#[test]
fn decimal_print_round_trip() {
    assert_eq!(u64_to_string(0), "0");
    assert_eq!(u64_to_string(907), "907");
    assert_eq!(u64_to_string(u64::MAX), "18446744073709551615");
    assert_eq!(parse_u64(&u64_to_string(123456789)), Some(123456789));
}

#[test]
fn string_search_and_equality() {
    assert!(str_contains("abcdef", "cde"));
    assert!(str_contains("abc", ""));
    assert!(!str_contains("abc", "abcd"));
    assert!(!str_contains("aab", "ab c"));
    assert!(str_eq("same", "same"));
    assert!(!str_eq("same", "sames"));
}

#[test]
fn error_messages() {
    assert_eq!(VmctlControllerErrorCause::Parsing.message(), "Parser error!");
    assert_eq!(VmctlControllerErrorCause::Shell.message(), "Shell error!");
    assert_eq!(VmctlControllerErrorCause::Start.message(), "VM not started!");
    assert_eq!(VmctlControllerErrorCause::Stop.message(), "VM not stopped!");
    assert_eq!(VmctlControllerErrorCause::VmNotFound.message(), "VM not found!");
    assert_eq!(VmctlControllerErrorCause::Vmctl.message(), "Vmctl error!");
    assert_eq!(
        VmctlControllerErrorCause::Parsing.description(),
        "Error in the vmctl controller, shell or parsing!"
    );
}
