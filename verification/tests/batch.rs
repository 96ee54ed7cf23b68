use mediocore::Batch;
use mediocore::ChangeKind;
use mediocore::Core;
use mediocore::CoreError;
use mediocore::WriteCmd;

fn sample(num: u32) -> Core {
    Core {
        num,
        cpuinfo_min_freq: 800000,
        cpuinfo_max_freq: 2500000,
        scaling_available_governors: vec!["performance".into(), "powersave".into()],
        scaling_governor: "performance".into(),
        scaling_min_freq: 850000,
        scaling_max_freq: 900000,
    }
}

fn run_to_end(b: &mut Batch) -> Vec<WriteCmd> {
    let mut seen = Vec::new();
    loop {
        match b.next_write() {
            Ok(Some(cmd)) => {
                seen.push(cmd);
                b.write_succeeded();
            },
            Ok(None) => return seen,
            Err(f) => panic!("unexpected batch failure: {:?}", f),
        }
    }
}

#[test]
fn batch_orders_governor_before_min_before_max() {
    let cores = vec![sample(1), sample(0)];
    let mut b = Batch::new(cores, None, Some("powersave".to_string()), Some(810000), Some(920000))
        .unwrap();
    let seen = run_to_end(&mut b);
    assert_eq!(seen.len(), 6);
    assert_eq!(
        seen[0],
        WriteCmd::Governor { core_num: 0, name: "powersave".to_string() }
    );
    assert_eq!(
        seen[1],
        WriteCmd::Governor { core_num: 1, name: "powersave".to_string() }
    );
    assert_eq!(seen[2], WriteCmd::MinFreq { core_num: 0, freq: 810000 });
    assert_eq!(seen[3], WriteCmd::MinFreq { core_num: 1, freq: 810000 });
    assert_eq!(seen[4], WriteCmd::MaxFreq { core_num: 0, freq: 920000 });
    assert_eq!(seen[5], WriteCmd::MaxFreq { core_num: 1, freq: 920000 });

    let cores = b.into_cores();
    for c in cores.iter() {
        assert_eq!(c.curr_gov(), "powersave");
        assert_eq!(c.curr_min(), 810000);
        assert_eq!(c.curr_max(), 920000);
    }
}

#[test]
fn batch_with_no_changes_is_a_usage_error() {
    let r = Batch::new(vec![sample(0)], None, None, None, None);
    assert_eq!(r.err(), Some(CoreError::NoChangesRequested));
}

#[test]
fn batch_applies_only_to_selected_cores() {
    let cores = vec![sample(0), sample(1), sample(2)];
    let mut b = Batch::new(
        cores,
        Some(vec![2, 0]),
        Some("powersave".to_string()),
        None,
        None,
    )
    .unwrap();
    let seen = run_to_end(&mut b);
    assert_eq!(seen.len(), 2);
    assert_eq!(
        seen[0],
        WriteCmd::Governor { core_num: 0, name: "powersave".to_string() }
    );
    assert_eq!(
        seen[1],
        WriteCmd::Governor { core_num: 2, name: "powersave".to_string() }
    );
}

#[test]
fn batch_aborts_on_validation_failure_without_rollback() {
    let mut picky = sample(1);
    picky.scaling_available_governors = vec!["performance".into()];
    let cores = vec![sample(0), picky];
    let mut b = Batch::new(cores, None, Some("powersave".to_string()), Some(820000), None)
        .unwrap();

    // core 0 accepts the governor
    match b.next_write() {
        Ok(Some(WriteCmd::Governor { core_num: 0, .. })) => b.write_succeeded(),
        other => panic!("expected governor write for core 0, got {:?}", other),
    }
    // core 1 rejects it: the whole batch aborts, core 0 stays committed
    match b.next_write() {
        Err(f) => {
            assert_eq!(f.core_num, 1);
            assert_eq!(f.change, ChangeKind::Governor);
            assert_eq!(f.error, CoreError::InvalidGovernor);
        },
        other => panic!("expected a batch failure, got {:?}", other),
    }

    let cores = b.into_cores();
    assert_eq!(cores[0].curr_gov(), "powersave");
    assert_eq!(cores[1].curr_gov(), "performance");
    // the later phase was never reached
    assert_eq!(cores[0].curr_min(), 850000);
    assert_eq!(cores[1].curr_min(), 850000);
}

#[test]
fn batch_aborts_when_a_write_fails() {
    let cores = vec![sample(0), sample(1)];
    let mut b = Batch::new(cores, None, None, Some(820000), None).unwrap();

    match b.next_write() {
        Ok(Some(WriteCmd::MinFreq { core_num: 0, freq: 820000 })) => {},
        other => panic!("expected min write for core 0, got {:?}", other),
    }
    let f = b.write_failed();
    assert_eq!(f.core_num, 0);
    assert_eq!(f.change, ChangeKind::MinFreq);
    assert_eq!(f.error, CoreError::WriteFailed);

    let cores = b.into_cores();
    assert_eq!(cores[0].curr_min(), 850000);
    assert_eq!(cores[1].curr_min(), 850000);
}

#[test]
fn batch_skips_absent_change_kinds() {
    let cores = vec![sample(0)];
    let mut b = Batch::new(cores, None, None, None, Some(950000)).unwrap();
    let seen = run_to_end(&mut b);
    assert_eq!(seen, vec![WriteCmd::MaxFreq { core_num: 0, freq: 950000 }]);
}
