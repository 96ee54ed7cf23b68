use mediocore::Core;
use mediocore::CoreError;

fn sample_core() -> Core {
    Core {
        num: 0,
        cpuinfo_min_freq: 800000,
        cpuinfo_max_freq: 2500000,
        scaling_available_governors: vec![],
        scaling_governor: String::new(),
        scaling_min_freq: 850000,
        scaling_max_freq: 900000,
    }
}

#[test]
fn freq_validation() {
    let s = sample_core();

    let check_val = |x: Result<u32, CoreError>, v: u32| match x {
        Ok(u) => v == u,
        Err(_) => false,
    };

    let check_err = |x: Result<u32, CoreError>| match x {
        Ok(_) => false,
        Err(e) => e == CoreError::OutOfRange,
    };

    assert!(check_val(s.validate_min(800000), 800000));
    assert!(check_val(s.validate_min(850000), 850000));
    assert!(check_err(s.validate_min(1000000)));

    assert!(check_val(s.validate_max(1000000), 1000000));
    assert!(check_err(s.validate_max(8000000)));
}

#[test]
fn govnor_validation() {
    let s = Core {
        num: 0,
        cpuinfo_min_freq: 800000,
        cpuinfo_max_freq: 2500000,
        scaling_available_governors: vec!["performance".into(), "powersave".into()],
        scaling_governor: "powersave".into(),
        scaling_min_freq: 850000,
        scaling_max_freq: 900000,
    };

    assert!(s.validate_governor("performance").is_ok());
    assert!(s.validate_governor("conservative").is_err());
}

#[test]
fn min_max_commit_scenario() {
    let mut s = sample_core();

    assert_eq!(s.validate_min(800000), Ok(800000));
    s.commit_min(800000);
    assert_eq!(s.curr_min(), 800000);

    assert_eq!(s.validate_min(1000000), Err(CoreError::OutOfRange));
    assert_eq!(s.curr_min(), 800000);

    assert_eq!(s.validate_max(1000000), Ok(1000000));
    s.commit_max(1000000);
    assert_eq!(s.curr_max(), 1000000);

    assert_eq!(s.validate_max(8000000), Err(CoreError::OutOfRange));
    assert_eq!(s.curr_max(), 1000000);
}

#[test]
fn governor_commit_scenario() {
    let mut s = Core {
        num: 0,
        cpuinfo_min_freq: 800000,
        cpuinfo_max_freq: 2500000,
        scaling_available_governors: vec!["performance".into(), "powersave".into()],
        scaling_governor: "powersave".into(),
        scaling_min_freq: 850000,
        scaling_max_freq: 900000,
    };

    assert!(s.validate_governor("performance").is_ok());
    s.commit_governor("performance");
    assert_eq!(s.curr_gov(), "performance");

    assert_eq!(s.validate_governor("conservative"), Err(CoreError::InvalidGovernor));
    assert_eq!(s.curr_gov(), "performance");
}

#[test]
fn setters_idempotent_on_committed_value() {
    let mut s = Core {
        num: 0,
        cpuinfo_min_freq: 800000,
        cpuinfo_max_freq: 2500000,
        scaling_available_governors: vec!["performance".into(), "powersave".into()],
        scaling_governor: "powersave".into(),
        scaling_min_freq: 850000,
        scaling_max_freq: 900000,
    };

    assert!(s.validate_min(850000).is_ok());
    s.commit_min(850000);
    assert!(s.validate_min(850000).is_ok());
    s.commit_min(850000);
    assert_eq!(s.curr_min(), 850000);

    assert!(s.validate_max(900000).is_ok());
    s.commit_max(900000);
    assert!(s.validate_max(900000).is_ok());
    s.commit_max(900000);
    assert_eq!(s.curr_max(), 900000);

    assert!(s.validate_governor("powersave").is_ok());
    s.commit_governor("powersave");
    assert!(s.validate_governor("powersave").is_ok());
    s.commit_governor("powersave");
    assert_eq!(s.curr_gov(), "powersave");

    assert_eq!(s.num(), 0);
    assert_eq!(s.cpu_min(), 800000);
    assert_eq!(s.cpu_max(), 2500000);
    assert_eq!(s.available_govs().len(), 2);
}
