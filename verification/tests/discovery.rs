use mediocore::Core;
use mediocore::CoreEntry;
use mediocore::CoreError;
use mediocore::cores_missing_governor;
use mediocore::discover_cores;
use mediocore::is_core_entry;
use mediocore::select_core_entries;
use mediocore::sort_cores_by_num;

fn entry(name: &str, smin: &str, smax: &str) -> CoreEntry {
    CoreEntry {
        name: name.to_string(),
        cpuinfo_min_freq: "800000\n".to_string(),
        cpuinfo_max_freq: "2500000\n".to_string(),
        scaling_min_freq: smin.to_string(),
        scaling_max_freq: smax.to_string(),
        scaling_governor: "powersave\n".to_string(),
        scaling_available_governors: "performance powersave\n".to_string(),
    }
}

#[test]
fn core_entries_exclude_metadata_directories() {
    assert!(is_core_entry("cpu0"));
    assert!(is_core_entry("cpu1"));
    assert!(!is_core_entry("cpufreq"));
    assert!(!is_core_entry("cpuidle"));
    assert!(!is_core_entry("power"));

    let names = vec![
        "cpu0".to_string(),
        "cpu1".to_string(),
        "cpufreq".to_string(),
        "cpuidle".to_string(),
    ];
    let kept = select_core_entries(&names);
    assert_eq!(kept, vec!["cpu0".to_string(), "cpu1".to_string()]);
}

#[test]
fn discovery_builds_one_record_per_core() {
    let entries = vec![entry("cpu1", "850000\n", "900000\n"), entry("cpu0", "800000\n", "2500000\n")];
    let cores = discover_cores(&entries).unwrap();
    assert_eq!(cores.len(), 2);
    assert_eq!(cores[0].num(), 1);
    assert_eq!(cores[0].curr_min(), 850000);
    assert_eq!(cores[0].curr_max(), 900000);
    assert_eq!(cores[1].num(), 0);

    // invariants hold for every record
    for c in cores.iter() {
        assert!(c.cpu_min() <= c.curr_min());
        assert!(c.curr_min() <= c.curr_max());
        assert!(c.curr_max() <= c.cpu_max());
        assert!(c.available_govs().iter().any(|g| g.as_str() == c.curr_gov()));
    }
}

#[test]
fn discovery_is_all_or_nothing() {
    let entries = vec![entry("cpu0", "850000\n", "900000\n"), entry("cpu1", "nonsense", "900000\n")];
    assert_eq!(discover_cores(&entries).err(), Some(CoreError::MalformedAttribute));
}

#[test]
fn discovery_rejects_repeated_core_numbers() {
    let entries = vec![entry("cpu1", "850000\n", "900000\n"), entry("cpu01", "850000\n", "900000\n")];
    assert_eq!(discover_cores(&entries).err(), Some(CoreError::MalformedAttribute));
}

#[test]
fn cores_sort_by_ascending_number() {
    let entries = vec![
        entry("cpu2", "850000\n", "900000\n"),
        entry("cpu0", "850000\n", "900000\n"),
        entry("cpu1", "850000\n", "900000\n"),
    ];
    let cores = discover_cores(&entries).unwrap();
    let sorted = sort_cores_by_num(cores);
    let nums: Vec<u32> = sorted.iter().map(|c| c.num()).collect();
    assert_eq!(nums, vec![0, 1, 2]);
}

#[test]
fn missing_governor_support_is_reported() {
    let mut entries = vec![entry("cpu0", "850000\n", "900000\n"), entry("cpu1", "850000\n", "900000\n")];
    entries[1].scaling_governor = "performance\n".to_string();
    entries[1].scaling_available_governors = "performance\n".to_string();
    let cores = discover_cores(&entries).unwrap();

    assert_eq!(cores_missing_governor(&cores, "powersave"), vec![1]);
    assert_eq!(cores_missing_governor(&cores, "performance"), Vec::<u32>::new());
}

#[test]
fn handmade_records_discoverable_roundtrip() {
    let c = Core {
        num: 7,
        cpuinfo_min_freq: 400000,
        cpuinfo_max_freq: 3000000,
        scaling_available_governors: vec!["schedutil".into()],
        scaling_governor: "schedutil".into(),
        scaling_min_freq: 400000,
        scaling_max_freq: 3000000,
    };
    assert_eq!(c.num(), 7);
    assert_eq!(c.validate_min(400000), Ok(400000));
    assert_eq!(c.validate_max(3000000), Ok(3000000));
    assert!(c.validate_governor("schedutil").is_ok());
}
