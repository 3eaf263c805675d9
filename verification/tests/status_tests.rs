use vmctl_controller::errors::VmctlControllerErrorCause;
use vmctl_controller::status::Status;

#[test]
fn empty() {
    let result = Status::from_str("");
    assert!(result.is_err())
}

#[test]
fn garbage() {
    let result = Status::from_str("garbage");
    assert!(result.is_err())
}

#[test]
fn broken() {
    let vm1 = "  a     -     1    2.0G       -      äöü";
    let result = Status::from_str(vm1);
    assert!(result.is_err())
}

#[test]
fn from_str() {
    let vm1 = "  1     -     1    2.0G       -       -          user one";
    let result = Status::from_str(vm1);
    let status = result.unwrap();
    assert_eq!(status.id, 1)
}

#[test]
fn from_vec() {
    let vm1 = "1     -     1    2.0G       -       -          user one";
    let vm2 = "2     -     1    512M       -       -          user two";
    let vm3 = "3     -     1    2.0G       -       -          user three";
    let vm4 = "4     -     1    4.0G       -       -          user four";

    let vm_vec = vec![vm1, vm2, vm3, vm4];

    let result = Status::from_vec(vm_vec);
    let stati: Vec<Status> = result.into_iter().map(|x| x.unwrap()).collect();

    assert_eq!(stati.get(0).unwrap().id, 1);
    assert_eq!(stati.get(1).unwrap().owner, "user");
    assert_eq!(stati.get(2).unwrap().name, "three");
    assert_eq!(stati.get(3).unwrap().max_mem, "4.0G");
}

#[test]
fn from_shell() {
    let shell_output = r#"
    1     -     1    2.0G       -       -          user one
    2     -     1    512M       -       -          user two
    3     -     1    2.0G       -       -          user three
    4     -     1    4.0G       -       -          user four"#;

    let result = Status::from_shell(shell_output);

    let stati: Vec<Status> = result.into_iter().map(|x| x.unwrap()).collect();

    assert_eq!(stati.get(0).unwrap().id, 1);
    assert_eq!(stati.get(1).unwrap().owner, "user");
    assert_eq!(stati.get(2).unwrap().name, "three");
    assert_eq!(stati.get(3).unwrap().max_mem, "4.0G");
}

#[test]
fn well_formed_line_fields_verbatim() {
    let line = "  7   1234   4    2.0G     1.0G    ttyp0   root   webserver  ";
    let status = Status::from_str(line).unwrap();
    assert_eq!(status.id, 7);
    assert_eq!(status.pid, "1234");
    assert_eq!(status.vcpus, 4);
    assert_eq!(status.max_mem, "2.0G");
    assert_eq!(status.cur_mem, "1.0G");
    assert_eq!(status.tty, "ttyp0");
    assert_eq!(status.owner, "root");
    assert_eq!(status.name, "webserver");
}

#[test]
fn parse_failure_cause_is_parsing() {
    let err = Status::from_str("garbage").unwrap_err();
    assert_eq!(err.cause, VmctlControllerErrorCause::Parsing);
    let err = Status::from_str("").unwrap_err();
    assert_eq!(err.cause, VmctlControllerErrorCause::Parsing);
}

#[test]
fn non_numeric_vcpus_fails() {
    let result = Status::from_str("1 - x 2.0G - - user one");
    assert_eq!(result.unwrap_err().cause, VmctlControllerErrorCause::Parsing);
}

#[test]
fn seven_tokens_fails() {
    let result = Status::from_str("1 - 1 2.0G - - user");
    assert!(result.is_err());
}

#[test]
fn nine_tokens_fails() {
    let result = Status::from_str("  1 - 1 2.0G - - user one extra  ");
    assert!(result.is_err());
}

#[test]
fn blank_line_fails() {
    let result = Status::from_str("        ");
    assert!(result.is_err());
}

#[test]
fn id_at_u64_max_parses() {
    let line = "18446744073709551615 - 1 2.0G - - user big";
    let status = Status::from_str(line).unwrap();
    assert_eq!(status.id, u64::MAX);
}

#[test]
fn id_above_u64_max_fails() {
    let line = "18446744073709551616 - 1 2.0G - - user big";
    assert!(Status::from_str(line).is_err());
}

#[test]
fn two_records_in_order() {
    let input = "1 - 1 2.0G - - user one\n2 - 1 512M - - user two";
    let result = Status::from_shell(input);
    assert_eq!(result.len(), 2);
    let records: Vec<Status> = result.into_iter().map(|x| x.unwrap()).collect();
    assert_eq!(records[0].id, 1);
    assert_eq!(records[1].owner, "user");
    assert_eq!(records[1].name, "two");
}

#[test]
fn listing_keeps_input_order() {
    let input = "5 - 1 1.0G - - user e\n3 - 1 1.0G - - user c\n9 - 1 1.0G - - user i";
    let records: Vec<Status> = Status::from_shell(input)
        .into_iter()
        .map(|x| x.unwrap())
        .collect();
    assert_eq!(records[0].id, 5);
    assert_eq!(records[1].id, 3);
    assert_eq!(records[2].id, 9);
}

#[test]
fn manager_output_strips_header() {
    let raw = "ID   PID VCPUS  MAX  CUR  TTY  OWNER NAME\n1 - 1 2.0G - - user one\n2 - 1 512M - - user two\n";
    let records = Status::from_manager_output(raw).unwrap();
    assert_eq!(records.len(), 2);
    assert_eq!(records[0].id, 1);
    assert_eq!(records[1].name, "two");
}

#[test]
fn manager_output_header_only() {
    let raw = "ID   PID VCPUS  MAX  CUR  TTY  OWNER NAME\n";
    let records = Status::from_manager_output(raw).unwrap();
    assert_eq!(records.len(), 0);
    let records = Status::from_manager_output("no newline at all").unwrap();
    assert_eq!(records.len(), 0);
}

#[test]
fn manager_output_bad_row_aborts_snapshot() {
    let raw = "ID   PID VCPUS  MAX  CUR  TTY  OWNER NAME\n1 - 1 2.0G - - user one\nnot a record\n";
    let err = Status::from_manager_output(raw).unwrap_err();
    assert_eq!(err.cause, VmctlControllerErrorCause::Parsing);
}

#[test]
fn manager_output_twice_yields_equal_content() {
    let raw = "ID   PID VCPUS  MAX  CUR  TTY  OWNER NAME\n1 - 1 2.0G - - user one\n2 9 2 512M 256M ttyp1 user two\n";
    let a = Status::from_manager_output(raw).unwrap();
    let b = Status::from_manager_output(raw).unwrap();
    assert_eq!(a.len(), b.len());
    for (x, y) in a.iter().zip(b.iter()) {
        assert_eq!(x.id, y.id);
        assert_eq!(x.pid, y.pid);
        assert_eq!(x.vcpus, y.vcpus);
        assert_eq!(x.max_mem, y.max_mem);
        assert_eq!(x.cur_mem, y.cur_mem);
        assert_eq!(x.tty, y.tty);
        assert_eq!(x.owner, y.owner);
        assert_eq!(x.name, y.name);
    }
}
