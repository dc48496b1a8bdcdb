use liteipc::status::{status_report, TerminationDescriptor};

#[test]
fn kinds_have_their_words() {
    assert_eq!(TerminationDescriptor::Exited(0).kind(), "exit");
    assert_eq!(TerminationDescriptor::Signaled(9).kind(), "signal");
    assert_eq!(TerminationDescriptor::Other(-3).kind(), "other");
    assert_eq!(TerminationDescriptor::Undetermined.kind(), "undetermined");
}

#[test]
fn exit_code_is_reported_as_it_is() {
    assert_eq!(TerminationDescriptor::Exited(0).code(), 0);
    assert_eq!(TerminationDescriptor::Exited(1).code(), 1);
    assert_eq!(TerminationDescriptor::Exited(255).code(), 255);
    assert_eq!(TerminationDescriptor::Exited(0x7fff_ffff).code(), i32::MAX);
}

#[test]
fn exit_code_beyond_the_signed_range_wraps() {
    assert_eq!(TerminationDescriptor::Exited(0x8000_0000).code(), i32::MIN);
    assert_eq!(TerminationDescriptor::Exited(0x8000_0001).code(), i32::MIN + 1);
    assert_eq!(TerminationDescriptor::Exited(0xffff_ffff).code(), -1);
    assert_eq!(TerminationDescriptor::Exited(0xc000_0005).code(), 0xc000_0005u32 as i32);
}

#[test]
fn signal_number_is_reported_as_it_is() {
    assert_eq!(TerminationDescriptor::Signaled(0).code(), 0);
    assert_eq!(TerminationDescriptor::Signaled(15).code(), 15);
    assert_eq!(TerminationDescriptor::Signaled(255).code(), 255);
}

#[test]
fn other_status_is_reported_as_it_is() {
    assert_eq!(TerminationDescriptor::Other(77).code(), 77);
    assert_eq!(TerminationDescriptor::Other(-1).code(), -1);
    assert_eq!(TerminationDescriptor::Other(i32::MIN).code(), i32::MIN);
}

#[test]
fn undetermined_status_reports_zero() {
    assert_eq!(TerminationDescriptor::Undetermined.code(), 0);
}

#[test]
fn running_child_reports_two_absent_values() {
    assert_eq!(status_report(None), (None, None));
}

#[test]
fn ended_child_reports_kind_and_number() {
    assert_eq!(
        status_report(Some(TerminationDescriptor::Exited(3))),
        (Some("exit".to_string()), Some(3))
    );
    assert_eq!(
        status_report(Some(TerminationDescriptor::Signaled(11))),
        (Some("signal".to_string()), Some(11))
    );
    assert_eq!(
        status_report(Some(TerminationDescriptor::Other(-2))),
        (Some("other".to_string()), Some(-2))
    );
    assert_eq!(
        status_report(Some(TerminationDescriptor::Undetermined)),
        (Some("undetermined".to_string()), Some(0))
    );
}

#[test]
fn descriptors_compare_by_kind_and_number() {
    assert_eq!(TerminationDescriptor::Exited(0), TerminationDescriptor::Exited(0));
    assert_ne!(TerminationDescriptor::Exited(0), TerminationDescriptor::Exited(1));
    assert_ne!(TerminationDescriptor::Exited(9), TerminationDescriptor::Signaled(9));
    assert_ne!(TerminationDescriptor::Other(0), TerminationDescriptor::Undetermined);
}
