use build_env::{BuildEnv, Environment, VarError, VarErrorKind};

fn most_general() {
    let t = "this-is-a-target";
    let cc = "a-cc-value";
    let mut env = Environment::new();
    env.set("CC", cc.as_bytes());

    let mut b = BuildEnv::new(t.to_owned());

    assert_eq!(b.var_str(&env, "CC"), Some(Ok(cc.to_owned())));
    let used_env_vars: Vec<_> = b.used_env_vars().iter().collect();
    assert_eq!(
        &used_env_vars[..],
        [
            "CC",
            "CC_this-is-a-target",
            "CC_this_is_a_target",
            "HOST_CC"
        ]
    );
}

fn exact_target() {
    let t = "this-is-a-target";
    let cc = "a-cc-value";
    let mut env = Environment::new();

    env.set("CC", b"notThis");
    env.set("HOST_CC", b"not-this");
    env.set(&format!("CC_{}", t), cc.as_bytes());

    let mut b = BuildEnv::new(t.to_owned());

    assert_eq!(b.var_str(&env, "CC"), Some(Ok(cc.to_owned())));
    let used_env_vars: Vec<_> = b.used_env_vars().iter().collect();
    assert_eq!(&used_env_vars[..], ["CC_this-is-a-target"]);
}

fn underscore_target() {
    let t = "this-is-a-target";
    let cc = "a-cc-value";
    let mut env = Environment::new();

    env.set("CC", b"notThis");
    env.set("HOST_CC", b"not-this");
    env.set("CC_this_is_a_target", cc.as_bytes());

    let mut b = BuildEnv::new(t.to_owned());

    assert_eq!(b.var_str(&env, "CC"), Some(Ok(cc.to_owned())));
    let used_env_vars: Vec<_> = b.used_env_vars().iter().collect();
    assert_eq!(
        &used_env_vars[..],
        ["CC_this-is-a-target", "CC_this_is_a_target"]
    );
}

fn v_host() {
    let t = "this-is-a-target";
    let cc = "a-cc-value";
    let mut env = Environment::new();

    env.set("CC", b"not-this-value");
    env.set("HOST_CC", cc.as_bytes());

    let mut b = BuildEnv::new(t.to_owned());

    assert_eq!(b.var_str(&env, "CC"), Some(Ok(cc.to_owned())));
    let used_env_vars: Vec<_> = b.used_env_vars().iter().collect();
    assert_eq!(
        &used_env_vars[..],
        ["CC_this-is-a-target", "CC_this_is_a_target", "HOST_CC"]
    );
}

fn v_target() {
    let t = "this-is-a-target";
    let t2 = "some-target";
    let cc = "a-cc-value";
    let mut env = Environment::new();

    env.set("CC", b"not-this-value");
    env.set("HOST_CC", b"not this!");
    env.set("TARGET_CC", cc.as_bytes());
    env.set(&format!("CC_{}", t), b"not this either");

    let mut b = BuildEnv::new_cross(t.to_owned(), t2.to_owned());

    assert_eq!(b.var_str(&env, "CC"), Some(Ok(cc.to_owned())));
    let used_env_vars: Vec<_> = b.used_env_vars().iter().collect();
    assert_eq!(
        &used_env_vars[..],
        ["CC_some-target", "CC_some_target", "TARGET_CC"]
    );
}

#[test]
fn all() {
    most_general();
    exact_target();
    underscore_target();
    v_host();
    v_target();
}

#[test]
fn plain_name_is_the_last_resort() {
    most_general();
}

#[test]
fn exact_target_name_wins() {
    exact_target();
}

#[test]
fn underscored_target_name_is_second() {
    underscore_target();
}

#[test]
fn host_role_when_host_is_target() {
    v_host();
}

#[test]
fn target_role_when_cross_compiling() {
    v_target();
}

#[test]
fn raw_value_comes_back_as_it_is() {
    let mut env = Environment::new();
    env.set("CFLAGS_x86_64-unknown-linux-gnu", &[0x2d, 0x4f, 0xff, 0x00]);
    let mut b = BuildEnv::new("x86_64-unknown-linux-gnu".to_owned());
    assert_eq!(b.var(&env, "CFLAGS"), Some(vec![0x2d, 0x4f, 0xff, 0x00]));
    assert_eq!(b.used_env_vars(), &["CFLAGS_x86_64-unknown-linux-gnu"]);
}

#[test]
fn nothing_set_finds_nothing_and_records_all_four() {
    let env = Environment::new();
    let mut b = BuildEnv::new_cross("x86_64-pc-windows-msvc".to_owned(), "armv7-linux".to_owned());
    assert_eq!(b.var(&env, "AR"), None);
    assert_eq!(b.var_str(&env, "AR"), None);
    assert_eq!(
        b.used_env_vars(),
        &["AR", "AR_armv7-linux", "AR_armv7_linux", "TARGET_AR"]
    );
}

#[test]
fn host_name_is_not_consulted_when_cross_compiling() {
    let mut env = Environment::new();
    env.set("HOST_CC", b"host-cc");
    let mut b = BuildEnv::new_cross("a-b".to_owned(), "c-d".to_owned());
    assert_eq!(b.var(&env, "CC"), None);
    assert!(!b.used_env_vars().contains(&"HOST_CC".to_owned()));
    assert_eq!(b.used_env_vars(), &["CC", "CC_c-d", "CC_c_d", "TARGET_CC"]);
}

#[test]
fn target_name_is_not_consulted_when_host_is_target() {
    let mut env = Environment::new();
    env.set("TARGET_CC", b"target-cc");
    let mut b = BuildEnv::new_cross("a-b".to_owned(), "a-b".to_owned());
    assert_eq!(b.var(&env, "CC"), None);
    assert_eq!(b.used_env_vars(), &["CC", "CC_a-b", "CC_a_b", "HOST_CC"]);
}

#[test]
fn target_without_hyphen_records_its_name_once() {
    let mut env = Environment::new();
    env.set("CC", b"cc");
    let mut b = BuildEnv::new("wasm32".to_owned());
    assert_eq!(b.var(&env, "CC"), Some(b"cc".to_vec()));
    assert_eq!(b.used_env_vars(), &["CC", "CC_wasm32", "HOST_CC"]);
}

#[test]
fn base_name_behind_host_is_listed_last() {
    let mut env = Environment::new();
    env.set("ZZ", b"z");
    let mut b = BuildEnv::new("a-b".to_owned());
    assert_eq!(b.var(&env, "ZZ"), Some(b"z".to_vec()));
    assert_eq!(b.used_env_vars(), &["HOST_ZZ", "ZZ", "ZZ_a-b", "ZZ_a_b"]);
}

#[test]
fn base_name_and_target_may_spell_the_host_name() {
    // `HOST_HOST` is `<base>_<target>` here, and so it is consulted first
    let mut env = Environment::new();
    env.set("HOST_HOST", b"found");
    let mut b = BuildEnv::new_cross("elsewhere".to_owned(), "HOST".to_owned());
    assert_eq!(b.var(&env, "HOST"), Some(b"found".to_vec()));
    assert_eq!(b.used_env_vars(), &["HOST_HOST"]);
}

#[test]
fn empty_value_is_a_value() {
    let mut env = Environment::new();
    env.set("CC_a_b", b"");
    env.set("CC", b"cc");
    let mut b = BuildEnv::new("a-b".to_owned());
    assert_eq!(b.var_str(&env, "CC"), Some(Ok(String::new())));
    assert_eq!(b.used_env_vars(), &["CC_a-b", "CC_a_b"]);
}

#[test]
fn invalid_text_is_not_absence() {
    let raw = vec![b'g', b'c', b'c', 0xff];
    let mut env = Environment::new();
    env.set("CC", &raw);
    let mut b = BuildEnv::new("a-b".to_owned());
    assert_eq!(
        b.var_str(&env, "CC"),
        Some(Err(VarError {
            key: "CC".to_owned(),
            kind: VarErrorKind::NotString(raw.clone()),
        }))
    );
    // the lookup is recorded all the same
    assert_eq!(b.used_env_vars(), &["CC", "CC_a-b", "CC_a_b", "HOST_CC"]);
    // and other variables can still be resolved
    env.set("AR", b"ar");
    assert_eq!(b.var_str(&env, "AR"), Some(Ok("ar".to_owned())));

    let mut fresh = BuildEnv::new("a-b".to_owned());
    assert_eq!(fresh.var_str(&Environment::new(), "CC"), None);
}

#[test]
fn invalid_text_of_a_more_specific_name_hides_the_plain_one() {
    let mut env = Environment::new();
    env.set("CC", b"cc");
    env.set("HOST_CC", &[0xc3, 0x28]);
    let mut b = BuildEnv::new("a-b".to_owned());
    let got = b.var_str(&env, "CC");
    match got {
        Some(Err(e)) => {
            assert_eq!(e.key, "CC");
            assert_eq!(e.kind, VarErrorKind::NotString(vec![0xc3, 0x28]));
            assert_eq!(e.description(), "found but not utf-8");
        }
        other => panic!("unexpected: {:?}", other),
    }
}

#[test]
fn text_beyond_ascii_is_read() {
    let mut env = Environment::new();
    env.set("GREETING", "grüß dich, 世界".as_bytes());
    let mut b = BuildEnv::new("a-b".to_owned());
    assert_eq!(
        b.var_str(&env, "GREETING"),
        Some(Ok("grüß dich, 世界".to_owned()))
    );
}

#[test]
fn triple_beyond_ascii_keeps_its_letters() {
    let mut env = Environment::new();
    env.set("CC_ü_ÿ-z", b"exact");
    env.set("CC_ü_ÿ_z", b"spelt");
    let mut b = BuildEnv::new("ü-ÿ-z".to_owned());
    assert_eq!(b.var(&env, "CC"), Some(b"spelt".to_vec()));
    assert_eq!(b.used_env_vars(), &["CC_ü-ÿ-z", "CC_ü_ÿ_z"]);
}
