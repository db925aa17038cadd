use rls_core::cargo::{dedup_flags, parse_arg, prepare_cargo_rustflags, prepare_rustc_args, CargoOptions, Config};

#[test]
fn test_dedup_flags() {
    // These should all be preserved.
    assert!(dedup_flags("") == "");
    assert!(dedup_flags("-Zfoo") == " -Zfoo");
    assert!(dedup_flags("-Z foo") == " -Zfoo");
    assert!(dedup_flags("-Zfoo bar") == " -Zfoo bar");
    let result = dedup_flags("-Z foo foo bar");
    assert!(result.matches("foo").count() == 2);
    assert!(result.matches("bar").count() == 1);

    // These should dedup.
    assert!(dedup_flags("-Zfoo -Zfoo") == " -Zfoo");
    assert!(dedup_flags("-Zfoo -Zfoo -Zfoo") == " -Zfoo");
    let result = dedup_flags("-Zfoo -Zfoo -Zbar");
    assert!(result.matches("foo").count() == 1);
    assert!(result.matches("bar").count() == 1);
    let result = dedup_flags("-Zfoo -Zbar -Zfoo -Zbar -Zbar");
    assert!(result.matches("foo").count() == 1);
    assert!(result.matches("bar").count() == 1);
    assert!(dedup_flags("-Zfoo -Z foo") == " -Zfoo");

    assert!(dedup_flags("--error-format=json --error-format=json") == " --error-format=json");
    assert!(dedup_flags("--error-format=foo --error-format=json") == " --error-format=json");

    assert!(
        dedup_flags("-C link-args=-fuse-ld=gold -C target-cpu=native -C link-args=-fuse-ld=gold")
            == " -Clink-args=-fuse-ld=gold -Ctarget-cpu=native"
    );
}

fn test_config() -> Config {
    Config {
        workspace_mode: false,
        analyze_package: None,
        target: None,
        features: Vec::new(),
        all_features: false,
        no_default_features: false,
        cfg_test: false,
        build_lib: false,
        build_bin: None,
        sysroot: None,
        rustflags: None,
        clear_env_rust_log: true,
        wait_to_build: 500,
    }
}

#[test]
fn parse_arg_finds_value_after_flag() {
    let args = vec![
        "rustc".to_string(),
        "--crate-name".to_string(),
        "foo".to_string(),
        "--out-dir".to_string(),
        "target".to_string(),
    ];
    assert_eq!(parse_arg(&args, "--crate-name"), Some("foo".to_string()));
    assert_eq!(parse_arg(&args, "--out-dir"), Some("target".to_string()));
}

#[test]
fn parse_arg_missing_flag_gives_none() {
    let args = vec!["rustc".to_string(), "--crate-name".to_string(), "foo".to_string()];
    assert_eq!(parse_arg(&args, "--edition"), None);
}

#[test]
fn parse_arg_flag_without_value_gives_none() {
    let args = vec!["rustc".to_string(), "--crate-name".to_string()];
    assert_eq!(parse_arg(&args, "--crate-name"), None);
}

#[test]
fn rustflags_default_config() {
    let config = test_config();
    assert_eq!(prepare_cargo_rustflags(&config, ""), " --error-format=json");
}

#[test]
fn rustflags_sysroot_and_duplicates() {
    let mut config = test_config();
    config.sysroot = Some("/s".to_string());
    config.rustflags = Some("-Zfoo".to_string());
    assert_eq!(
        prepare_cargo_rustflags(&config, "-Zfoo"),
        " --error-format=json --sysroot /s -Zfoo"
    );
}

#[test]
fn cargo_options_workspace_package() {
    let mut config = test_config();
    config.workspace_mode = true;
    config.analyze_package = Some("member".to_string());
    let opts = CargoOptions::new(&config);
    assert_eq!(opts.package, vec!["member".to_string()]);
    assert!(!opts.all);
    assert!(!opts.lib);
    assert!(opts.bin.is_empty());
}

#[test]
fn cargo_options_workspace_all() {
    let mut config = test_config();
    config.workspace_mode = true;
    let opts = CargoOptions::new(&config);
    assert!(opts.package.is_empty());
    assert!(opts.all);
}

#[test]
fn cargo_options_single_crate_bin() {
    let mut config = test_config();
    config.build_bin = Some("tool".to_string());
    let opts = CargoOptions::new(&config);
    assert!(!opts.lib);
    assert_eq!(opts.bin, vec!["tool".to_string()]);
    assert!(!opts.all);
}

#[test]
fn cargo_options_single_crate_lib_ignores_bin() {
    let mut config = test_config();
    config.build_lib = true;
    config.build_bin = Some("tool".to_string());
    let opts = CargoOptions::new(&config);
    assert!(opts.lib);
    assert!(opts.bin.is_empty());
}

#[test]
fn rustc_args_rewritten_for_final_crate() {
    let mut config = test_config();
    config.cfg_test = true;
    let args: Vec<String> = ["rustc", "--crate-name", "foo", "--crate-type", "bin", "--emit=link"]
        .iter()
        .map(|s| s.to_string())
        .collect();
    let out = prepare_rustc_args(&config, &args, "/sys").unwrap();
    let expected: Vec<String> = [
        "rustc",
        "--crate-name",
        "foo",
        "--crate-type",
        "bin",
        "--emit=dep-info",
        "--test",
        "--sysroot",
        "/sys",
    ]
    .iter()
    .map(|s| s.to_string())
    .collect();
    assert_eq!(out, expected);
}

#[test]
fn rustc_args_below_final_crate_keep_emit() {
    let mut config = test_config();
    config.cfg_test = true;
    let args: Vec<String> = ["rustc", "--crate-type", "lib", "--emit=metadata"]
        .iter()
        .map(|s| s.to_string())
        .collect();
    let out = prepare_rustc_args(&config, &args, "/sys").unwrap();
    let expected: Vec<String> = [
        "rustc",
        "--crate-type",
        "lib",
        "--emit=metadata",
        "--cfg",
        "test",
        "--sysroot",
        "/sys",
    ]
    .iter()
    .map(|s| s.to_string())
    .collect();
    assert_eq!(out, expected);
}

#[test]
fn rustc_args_without_crate_type_rejected() {
    let config = test_config();
    let args: Vec<String> = ["rustc", "--crate-name", "foo"].iter().map(|s| s.to_string()).collect();
    assert!(prepare_rustc_args(&config, &args, "/sys").is_none());
}

#[test]
fn rustc_args_configured_sysroot_not_duplicated() {
    let mut config = test_config();
    config.sysroot = Some("/custom".to_string());
    let args: Vec<String> = ["rustc", "--crate-type", "bin"].iter().map(|s| s.to_string()).collect();
    let out = prepare_rustc_args(&config, &args, "/sys").unwrap();
    let expected: Vec<String> = ["rustc", "--crate-type", "bin"].iter().map(|s| s.to_string()).collect();
    assert_eq!(out, expected);
}
