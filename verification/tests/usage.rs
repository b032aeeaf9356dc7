use build_env::resolver::{rerun_if_env_changed, underscore};
use build_env::{BuildEnv, Environment};

#[test]
fn new_resolver_has_used_nothing() {
    let b = BuildEnv::new("x86_64-unknown-linux-gnu".to_owned());
    assert_eq!(b.target(), "x86_64-unknown-linux-gnu");
    assert_eq!(b.host(), "x86_64-unknown-linux-gnu");
    assert!(b.used_env_vars().is_empty());
    assert!(b.cargo_print_used_env_vars().is_empty());
}

#[test]
fn new_cross_keeps_host_and_target_apart() {
    let b = BuildEnv::new_cross("the-host".to_owned(), "the-target".to_owned());
    assert_eq!(b.host(), "the-host");
    assert_eq!(b.target(), "the-target");
    assert!(b.used_env_vars().is_empty());
}

#[test]
fn empty_triple_is_taken_as_it_is() {
    let mut env = Environment::new();
    env.set("CC_", b"odd");
    let mut b = BuildEnv::new(String::new());
    assert_eq!(b.target(), "");
    assert_eq!(b.var(&env, "CC"), Some(b"odd".to_vec()));
    assert_eq!(b.used_env_vars(), &["CC_"]);
}

#[test]
fn mark_used_records_each_name_once_and_in_order() {
    let mut b = BuildEnv::new("a-b".to_owned());
    b.mark_used("PATH".to_owned());
    b.mark_used("CC".to_owned());
    b.mark_used("PATH".to_owned());
    b.mark_used("AR".to_owned());
    b.mark_used("CC".to_owned());
    assert_eq!(b.used_env_vars(), &["AR", "CC", "PATH"]);
    assert_eq!(b.host(), "a-b");
    assert_eq!(b.target(), "a-b");
}

#[test]
fn names_are_ordered_by_their_bytes() {
    let mut b = BuildEnv::new("a-b".to_owned());
    for name in ["b", "a", "B", "_", "aa", "", "é", "z", "a-", "a_", "Z", "0"] {
        b.mark_used(name.to_owned());
    }
    assert_eq!(
        b.used_env_vars(),
        &["", "0", "B", "Z", "_", "a", "a-", "a_", "aa", "b", "z", "é"]
    );
    let mut sorted: Vec<String> = b.used_env_vars().clone();
    sorted.sort();
    assert_eq!(&sorted, b.used_env_vars());
}

#[test]
fn resolving_again_records_nothing_new() {
    let mut env = Environment::new();
    env.set("HOST_CC", b"cc");
    let mut b = BuildEnv::new("a-b".to_owned());
    assert_eq!(b.var(&env, "CC"), Some(b"cc".to_vec()));
    let once = b.used_env_vars().clone();
    assert_eq!(b.var(&env, "CC"), Some(b"cc".to_vec()));
    assert_eq!(b.var(&env, "CC"), Some(b"cc".to_vec()));
    assert_eq!(b.used_env_vars(), &once);
    assert_eq!(once, ["CC_a-b", "CC_a_b", "HOST_CC"]);
}

#[test]
fn order_of_queries_does_not_show_in_the_record() {
    let mut env = Environment::new();
    env.set("CC", b"cc");
    env.set("AR_a_b", b"ar");
    let mut one = BuildEnv::new("a-b".to_owned());
    one.var(&env, "CC");
    one.var(&env, "AR");
    one.var(&env, "LD");
    let mut other = BuildEnv::new("a-b".to_owned());
    other.var(&env, "LD");
    other.var(&env, "AR");
    other.var(&env, "LD");
    other.var(&env, "CC");
    other.var(&env, "AR");
    assert_eq!(one.used_env_vars(), other.used_env_vars());
    assert_eq!(
        one.used_env_vars(),
        &[
            "AR_a-b", "AR_a_b", "CC", "CC_a-b", "CC_a_b", "HOST_CC", "HOST_LD", "LD", "LD_a-b",
            "LD_a_b"
        ]
    );
}

#[test]
fn record_only_grows() {
    let mut env = Environment::new();
    env.set("CC_a-b", b"cc");
    let mut b = BuildEnv::new("a-b".to_owned());
    b.mark_used("EARLIER".to_owned());
    b.var(&env, "CC");
    assert_eq!(b.used_env_vars(), &["CC_a-b", "EARLIER"]);
    b.var(&Environment::new(), "CC");
    assert_eq!(
        b.used_env_vars(),
        &["CC", "CC_a-b", "CC_a_b", "EARLIER", "HOST_CC"]
    );
}

#[test]
fn resolvers_do_not_share_their_records() {
    let env = Environment::new();
    let mut one = BuildEnv::new("a-b".to_owned());
    let other = BuildEnv::new("a-b".to_owned());
    one.var(&env, "CC");
    assert_eq!(one.used_env_vars().len(), 4);
    assert!(other.used_env_vars().is_empty());
}

#[test]
fn hint_line_has_the_name_behind_the_directive() {
    assert_eq!(rerun_if_env_changed("CC"), "cargo:rerun-if-env-changed=CC");
    assert_eq!(
        rerun_if_env_changed("CC_x86_64-unknown-linux-gnu"),
        "cargo:rerun-if-env-changed=CC_x86_64-unknown-linux-gnu"
    );
    assert_eq!(rerun_if_env_changed(""), "cargo:rerun-if-env-changed=");
}

#[test]
fn hint_lines_come_in_the_order_of_the_names() {
    let mut env = Environment::new();
    env.set("TARGET_CC", b"cc");
    let mut b = BuildEnv::new_cross("a-b".to_owned(), "c-d".to_owned());
    b.var(&env, "CC");
    b.mark_used("AR".to_owned());
    assert_eq!(
        b.cargo_print_used_env_vars(),
        [
            "cargo:rerun-if-env-changed=AR",
            "cargo:rerun-if-env-changed=CC_c-d",
            "cargo:rerun-if-env-changed=CC_c_d",
            "cargo:rerun-if-env-changed=TARGET_CC"
        ]
    );
}

#[test]
fn underscore_replaces_every_hyphen() {
    assert_eq!(underscore("x86_64-unknown-linux-gnu"), "x86_64_unknown_linux_gnu");
    assert_eq!(underscore("this-is-a-target"), "this_is_a_target");
    assert_eq!(underscore("--"), "__");
    assert_eq!(underscore("wasm32"), "wasm32");
    assert_eq!(underscore(""), "");
    assert_eq!(underscore("ü-–-ÿ"), "ü_–_ÿ");
}

#[test]
fn clone_has_a_record_of_its_own() {
    let env = Environment::new();
    let mut one = BuildEnv::new_cross("a-b".to_owned(), "c-d".to_owned());
    one.mark_used("CC".to_owned());
    let mut other = one.clone();
    assert_eq!(other.host(), "a-b");
    assert_eq!(other.target(), "c-d");
    assert_eq!(other.used_env_vars(), &["CC"]);
    other.var(&env, "AR");
    assert_eq!(one.used_env_vars(), &["CC"]);
    assert_eq!(
        other.used_env_vars(),
        &["AR", "AR_c-d", "AR_c_d", "CC", "TARGET_AR"]
    );
}
