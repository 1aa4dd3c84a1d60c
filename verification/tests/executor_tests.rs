use atompkg::executor::run_batch;
use atompkg::executor::BatchRun;
use atompkg::executor::InstallOutcome;
use atompkg::package_info::PackageInfo;
use atompkg::semver::SemVer;
use std::cell::Cell;

fn pkg(name: &str, version: &str) -> PackageInfo {
    PackageInfo {
        name: name.to_string(),
        version: SemVer::from_str(version).unwrap(),
    }
}

fn batch_of(names: &[&str]) -> Vec<PackageInfo> {
    names.iter().map(|n| pkg(n, "1.0.0")).collect()
}

#[test]
fn run_batch_collects_one_success_per_package() {
    let to_install = batch_of(&["a", "b", "c", "d", "e"]);
    let outcomes = run_batch(&to_install, 2, |p: PackageInfo| {
        Ok(format!("installed {}", p.name))
    })
    .unwrap();
    assert_eq!(outcomes.len(), 5);
    let mut seen: Vec<String> = Vec::new();
    for o in &outcomes {
        assert_eq!(o.result, Ok(format!("installed {}", o.package.name)));
        assert!(!seen.contains(&o.package.name));
        seen.push(o.package.name.clone());
    }
    for p in &to_install {
        assert!(seen.contains(&p.name));
    }
}

#[test]
fn run_batch_isolates_a_failure_to_its_package() {
    let to_install = batch_of(&["a", "bad", "c", "d"]);
    let outcomes = run_batch(&to_install, 3, |p: PackageInfo| {
        if p.name == "bad" {
            Err("exit status 1".to_string())
        } else {
            Ok("ok".to_string())
        }
    })
    .unwrap();
    assert_eq!(outcomes.len(), 4);
    let failures: Vec<&InstallOutcome> = outcomes.iter().filter(|o| o.result.is_err()).collect();
    assert_eq!(failures.len(), 1);
    assert_eq!(failures[0].package.name, "bad");
    assert_eq!(failures[0].result, Err("exit status 1".to_string()));
    assert_eq!(outcomes.iter().filter(|o| o.result.is_ok()).count(), 3);
}

#[test]
fn run_batch_rejects_zero_concurrency_before_any_work() {
    let to_install = batch_of(&["a", "b"]);
    let calls = Cell::new(0u32);
    let r = run_batch(&to_install, 0, |_p: PackageInfo| {
        calls.set(calls.get() + 1);
        Ok("ok".to_string())
    });
    assert!(r.is_err());
    assert_eq!(calls.get(), 0);
}

#[test]
fn run_batch_of_nothing_returns_no_outcomes() {
    let to_install: Vec<PackageInfo> = Vec::new();
    let outcomes = run_batch(&to_install, 2, |_p: PackageInfo| Ok("ok".to_string())).unwrap();
    assert!(outcomes.is_empty());
}

#[test]
fn batch_run_rejects_zero_concurrency() {
    assert!(BatchRun::new(batch_of(&["a"]), 0).is_err());
}

#[test]
fn batch_run_bounds_in_flight_work_and_keeps_every_outcome() {
    let queue = batch_of(&["a", "b", "c"]);
    let mut run = BatchRun::new(queue, 2).unwrap();

    let first = run.next_to_dispatch().unwrap();
    assert_eq!(first.name, "a");
    let second = run.next_to_dispatch().unwrap();
    assert_eq!(second.name, "b");
    // Both worker slots are taken: nothing more is handed out.
    assert!(run.next_to_dispatch().is_none());
    assert!(!run.is_complete());

    // Outcomes may come back in any order.
    run.record_outcome(InstallOutcome {
        package: second,
        result: Ok("ok".to_string()),
    });
    let third = run.next_to_dispatch().unwrap();
    assert_eq!(third.name, "c");
    assert!(run.next_to_dispatch().is_none());

    run.record_outcome(InstallOutcome {
        package: third,
        result: Err("exit status 1".to_string()),
    });
    run.record_outcome(InstallOutcome {
        package: first,
        result: Ok("ok".to_string()),
    });

    assert!(run.is_complete());
    let outcomes = run.into_outcomes();
    assert_eq!(outcomes.len(), 3);
    let mut recorded: Vec<String> = outcomes.iter().map(|o| o.package.name.clone()).collect();
    recorded.sort();
    assert_eq!(recorded, vec!["a".to_string(), "b".to_string(), "c".to_string()]);
}
