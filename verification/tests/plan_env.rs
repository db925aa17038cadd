use rls_core::cmd::{url, ChannelMsgReader};
use rls_core::dirty::DirtyFileMap;
use rls_core::environment::EnvironmentLock;
use rls_core::plan::{Plan, WorkStatus};

#[test]
fn prepare_work_on_empty_plan_needs_full_resolution() {
    let plan = Plan::new();
    assert!(matches!(plan.prepare_work(&Vec::new()), WorkStatus::NeedsFullResolution));
    assert!(matches!(
        plan.prepare_work(&vec!["/proj/lib.rs".to_string()]),
        WorkStatus::NeedsFullResolution
    ));
}

fn sample_plan() -> Plan {
    let mut plan = Plan::new();
    plan.emplace_unit(1, true, vec!["/proj/a.rs".to_string()]);
    plan.emplace_unit(2, true, vec!["/proj/b.rs".to_string()]);
    plan.emplace_unit(3, true, vec!["/proj/c.rs".to_string()]);
    plan.record_dependency(2, 1, true);
    plan.record_dependency(3, 2, true);
    plan.cache_invocation(1, "rustc a".to_string());
    plan.cache_invocation(2, "rustc b".to_string());
    plan.cache_invocation(3, "rustc c".to_string());
    plan
}

#[test]
fn prepare_work_orders_units_after_their_dependencies() {
    let plan = sample_plan();
    match plan.prepare_work(&vec!["/proj/a.rs".to_string()]) {
        WorkStatus::Execute(jobs) => {
            let units: Vec<u64> = jobs.iter().map(|j| j.unit).collect();
            assert_eq!(units, vec![1, 2, 3]);
            assert_eq!(jobs[0].invocation, "rustc a");
        }
        WorkStatus::NeedsFullResolution => panic!("the plan covers the changed file"),
    }
    match plan.prepare_work(&vec!["/proj/b.rs".to_string()]) {
        WorkStatus::Execute(jobs) => {
            let units: Vec<u64> = jobs.iter().map(|j| j.unit).collect();
            assert_eq!(units, vec![2, 3]);
        }
        WorkStatus::NeedsFullResolution => panic!("the plan covers the changed file"),
    }
}

#[test]
fn prepare_work_unknown_file_needs_full_resolution() {
    let plan = sample_plan();
    assert!(matches!(
        plan.prepare_work(&vec!["/outside/x.rs".to_string()]),
        WorkStatus::NeedsFullResolution
    ));
}

#[test]
fn prepare_work_missing_invocation_needs_full_resolution() {
    let mut plan = Plan::new();
    plan.emplace_unit(1, true, vec!["/proj/a.rs".to_string()]);
    assert!(matches!(
        plan.prepare_work(&vec!["/proj/a.rs".to_string()]),
        WorkStatus::NeedsFullResolution
    ));
}

#[test]
fn plan_ignores_filtered_and_unknown_dependencies() {
    let mut plan = Plan::new();
    plan.emplace_unit(1, true, vec!["/proj/a.rs".to_string()]);
    plan.emplace_unit(2, true, vec!["/proj/b.rs".to_string()]);
    plan.cache_invocation(1, "rustc a".to_string());
    plan.cache_invocation(2, "rustc b".to_string());
    // The filter rejected this edge, and this dependency is not registered.
    plan.record_dependency(2, 1, false);
    plan.record_dependency(2, 99, true);
    match plan.prepare_work(&vec!["/proj/a.rs".to_string()]) {
        WorkStatus::Execute(jobs) => {
            let units: Vec<u64> = jobs.iter().map(|j| j.unit).collect();
            // Without the edge, changing a.rs affects only unit 1.
            assert_eq!(units, vec![1]);
        }
        WorkStatus::NeedsFullResolution => panic!("the plan covers the changed file"),
    }
}

#[test]
fn dirty_map_reconcile_follows_snapshot() {
    let mut dirty = DirtyFileMap::new();
    dirty.insert("f.rs".to_string(), 1);
    dirty.insert("g.rs".to_string(), 5);
    let snapshot = dirty.snapshot();
    // f.rs is edited again after the snapshot was taken.
    dirty.insert("f.rs".to_string(), 2);
    dirty.reconcile(&snapshot);
    assert_eq!(dirty.get_version(&"f.rs".to_string()), Some(2));
    assert_eq!(dirty.get_version(&"g.rs".to_string()), None);
}

#[test]
fn environment_overrides_are_serialized_and_restored() {
    let mut env = EnvironmentLock::new();
    env.set_var("RUST_LOG".to_string(), Some("debug".to_string()));
    env.set_var("PATH".to_string(), Some("/bin".to_string()));

    // First simulated invocation overrides two variables, one to a value and
    // one to absence, and restores on exit.
    let saved1 = env.push_overrides(&vec![
        ("RUSTFLAGS".to_string(), Some("-Zfoo".to_string())),
        ("RUST_LOG".to_string(), None),
    ]);
    assert_eq!(env.get_var(&"RUSTFLAGS".to_string()), Some("-Zfoo".to_string()));
    assert_eq!(env.get_var(&"RUST_LOG".to_string()), None);
    env.restore_overrides(saved1);
    assert_eq!(env.get_var(&"RUSTFLAGS".to_string()), None);
    assert_eq!(env.get_var(&"RUST_LOG".to_string()), Some("debug".to_string()));

    // Second invocation sees no partial state from the first.
    let saved2 = env.push_overrides(&vec![("RUST_LOG".to_string(), Some("warn".to_string()))]);
    assert_eq!(env.get_var(&"RUST_LOG".to_string()), Some("warn".to_string()));
    assert_eq!(env.get_var(&"PATH".to_string()), Some("/bin".to_string()));
    env.restore_overrides(saved2);
    assert_eq!(env.get_var(&"RUST_LOG".to_string()), Some("debug".to_string()));
    assert_eq!(env.get_var(&"PATH".to_string()), Some("/bin".to_string()));
}

#[test]
fn file_url_round_trip() {
    let parsed = url("/tmp/a.rs").expect("an absolute path forms a valid file URL");
    assert_eq!(parsed.as_str(), "file:///tmp/a.rs");
    assert_eq!(parsed.scheme(), "file");
}

#[test]
fn channel_reader_delivers_messages_in_order() {
    let (tx, rx) = std::sync::mpsc::channel();
    let mut reader = ChannelMsgReader::new(rx);
    tx.send("one".to_string()).unwrap();
    tx.send("two".to_string()).unwrap();
    assert_eq!(reader.read_message(), Some("one".to_string()));
    assert_eq!(reader.read_message(), Some("two".to_string()));
    drop(tx);
    assert_eq!(reader.read_message(), None);
}
