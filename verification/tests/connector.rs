use ochami_rs::authentication::{validate_api_token, TokenError};
use ochami_rs::backend_connector::{
    boot_parameter_hosts, power_off_operation, power_on_operation, power_reset_operation, Ochami,
};
use ochami_rs::error::Error;
use ochami_rs::reconcile::MembershipDelta;
use ochami_rs::text::{copy_ids, join, push_decimal};

fn ids(list: &[&str]) -> Vec<String> {
    list.iter().map(|id| id.to_string()).collect()
}

#[test]
fn backend_keeps_address_and_certificate() {
    let backend = Ochami::new("https://api.example", &[1, 2, 3]);
    assert_eq!(backend.base_url(), "https://api.example");
    assert_eq!(backend.root_cert(), &[1u8, 2, 3][..]);
    let copy = backend.clone();
    assert_eq!(copy.base_url(), "https://api.example");
    assert_eq!(copy.root_cert(), &[1u8, 2, 3][..]);
    let bare = Ochami::new("", &[]);
    assert_eq!(bare.base_url(), "");
    assert!(bare.root_cert().is_empty());
}

#[test]
fn power_operations_have_their_names() {
    assert_eq!(power_on_operation(), "on");
    assert_eq!(power_off_operation(true), "force-off");
    assert_eq!(power_off_operation(false), "soft-off");
    assert_eq!(power_reset_operation(true), "hard-restart");
    assert_eq!(power_reset_operation(false), "soft-restart");
}

#[test]
fn no_host_means_no_restriction() {
    assert_eq!(boot_parameter_hosts(&Vec::new()), None);
    assert_eq!(boot_parameter_hosts(&ids(&["x1", "x2"])), Some(ids(&["x1", "x2"])));
}

#[test]
fn only_the_empty_token_is_accepted() {
    assert_eq!(validate_api_token(""), Ok(()));
    assert_eq!(validate_api_token("eyJhbGciOi"), Err(TokenError::NotPresent));
    assert_eq!(validate_api_token(" "), Err(TokenError::NotPresent));
}

#[test]
fn join_puts_the_separator_between() {
    assert_eq!(join(&ids(&[]), ", "), "");
    assert_eq!(join(&ids(&["x1"]), ", "), "x1");
    assert_eq!(join(&ids(&["x1", "x2", "x3"]), ", "), "x1, x2, x3");
    assert_eq!(join(&ids(&["", ""]), ","), ",");
    assert_eq!(copy_ids(&ids(&["x2", "x1"])), ids(&["x2", "x1"]));
}

#[test]
fn errors_are_reported_in_words() {
    let error = Error::Validation { node_ids: ids(&["x1", "x2"]) };
    assert_eq!(error.message(), "Nodes 'x1, x2' not valid");
    let error = Error::Validation { node_ids: ids(&[]) };
    assert_eq!(error.message(), "Nodes '' not valid");
    let error = Error::Upstream { status: 404, payload: "no such group".to_string() };
    assert_eq!(error.message(), "no such group");
    let error = Error::Concurrency { reason: "task 3 panicked".to_string() };
    assert_eq!(error.message(), "task 3 panicked");
    let error = Error::NotFound { label: "compute".to_string() };
    assert_eq!(error.message(), "Group 'compute' not found");
}

#[test]
fn delta_takes_out_and_puts_in() {
    let delta = MembershipDelta {
        group_label: "compute".to_string(),
        additions: ids(&["x7", "x1"]),
        removals: ids(&["x2", "x9"]),
    };
    assert_eq!(delta.apply_to(&ids(&["x3", "x2", "x1"])), ids(&["x1", "x3", "x7"]));
    let back = MembershipDelta {
        group_label: "compute".to_string(),
        additions: ids(&["x2"]),
        removals: ids(&["x2"]),
    };
    assert_eq!(back.apply_to(&ids(&["x2", "x1"])), ids(&["x1", "x2"]));
}

#[test]
fn numbers_are_written_in_decimal_digits() {
    for n in [0usize, 7, 10, 99, 100, 4096, 1_000_000, usize::MAX] {
        let mut text = "n=".to_string();
        push_decimal(&mut text, n);
        assert_eq!(text, format!("n={n}"));
    }
}
