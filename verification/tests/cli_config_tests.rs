use rcf::cli::{Flags, DestPolicy, dest_policy, get_flags, cli_check_source_valid};
use rcf::config::Config;

fn args(list: &[&str]) -> Vec<String> {
    list.iter().map(|s| s.to_string()).collect()
}

#[test]
fn plain_invocation_parses() {
    let f = get_flags(&args(&["rcf", "src", "dest"])).expect("flags should parse");
    assert_eq!(f.user_event, None);
    assert!(!f.strip_comments);
    assert!(!f.strip_whitespace);
    assert!(!f.is_silent);
    assert!(!f.do_overwrite);
    assert!(!f.block_overwrite);
    assert!(!f.dry_run);
    assert!(!f.inert_run);
}

#[test]
fn all_simple_flags_are_recognized() {
    let f = get_flags(&args(&["rcf", "src", "dest", "-c", "-w", "-o", "-inert"]))
        .expect("flags should parse");
    assert!(f.strip_comments);
    assert!(f.strip_whitespace);
    assert!(f.do_overwrite);
    assert!(f.inert_run);
}

#[test]
fn user_event_selector_is_read() {
    let f = get_flags(&args(&["rcf", "src", "dest", "-ue", "2"])).expect("flags should parse");
    assert_eq!(f.user_event, Some(2));
}

#[test]
fn user_event_needs_a_number() {
    assert!(get_flags(&args(&["rcf", "src", "dest", "-ue", "two"])).is_err());
    assert!(get_flags(&args(&["rcf", "src", "dest", "-ue"])).is_err());
    assert!(get_flags(&args(&["rcf", "src", "dest", "-ue", "256"])).is_err());
}

#[test]
fn source_and_destination_must_not_be_flags() {
    assert!(get_flags(&args(&["rcf", "-c", "dest"])).is_err());
    assert!(get_flags(&args(&["rcf", "src"])).is_err());
}

#[test]
fn dry_run_needs_only_the_source() {
    let f = get_flags(&args(&["rcf", "src", "-init"])).expect("flags should parse");
    assert!(f.dry_run);
}

#[test]
fn overwrite_flags_are_mutually_exclusive() {
    assert!(get_flags(&args(&["rcf", "src", "dest", "-o", "-safe"])).is_err());
}

#[test]
fn silent_needs_an_overwrite_decision() {
    assert!(get_flags(&args(&["rcf", "src", "dest", "-s"])).is_err());
    assert!(get_flags(&args(&["rcf", "src", "dest", "-s", "-o"])).is_ok());
    assert!(get_flags(&args(&["rcf", "src", "dest", "-s", "-safe"])).is_ok());
}

#[test]
fn init_and_inert_are_mutually_exclusive() {
    assert!(get_flags(&args(&["rcf", "src", "dest", "-init", "-inert"])).is_err());
}

#[test]
fn default_flags_are_all_off() {
    let f = Flags::new();
    assert_eq!(f.user_event, None);
    assert!(!f.dry_run && !f.inert_run && !f.is_silent);
}

#[test]
fn source_validity_follows_the_export_type() {
    assert!(cli_check_source_valid(Some(0)).is_ok());
    assert!(cli_check_source_valid(Some(1)).is_err());
    assert!(cli_check_source_valid(Some(3)).is_err());
    assert!(cli_check_source_valid(Some(7)).is_err());
    assert!(cli_check_source_valid(None).is_err());
}

#[test]
fn destination_policy_follows_the_flags() {
    let mut f = Flags::new();
    assert!(matches!(dest_policy(&f), DestPolicy::Ask));
    f.do_overwrite = true;
    assert!(matches!(dest_policy(&f), DestPolicy::Overwrite));
    f.block_overwrite = true;
    assert!(matches!(dest_policy(&f), DestPolicy::RequireEmpty));
}

#[test]
fn config_defaults() {
    let c = Config::new();
    assert_eq!(c.project_type, 0);
    assert_eq!(c.name, "unknown");
    assert_eq!(c.description, "");
    assert!(c.finished);
}

#[test]
fn config_construct_succeeds_and_yields_defaults() {
    let c = Config::construct("name=\"x\"\ntype=\"0\"\njunk line\n").expect("construct failed");
    assert_eq!(c.project_type, 0);
    assert_eq!(c.name, "unknown");
    assert_eq!(c.extra_data, "");
}
