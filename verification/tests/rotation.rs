use bcachefs_auto_snapshot::errors::MainError;
use bcachefs_auto_snapshot::errors::SubVolumeError;
use bcachefs_auto_snapshot::freq::Freq;
use bcachefs_auto_snapshot::instant::Instant;
use bcachefs_auto_snapshot::inventory::classify;
use bcachefs_auto_snapshot::inventory::is_due;
use bcachefs_auto_snapshot::plan::Subvolume;
use bcachefs_auto_snapshot::prune::select_victims;

fn at(year: u32, month: u32, day: u32, hour: u32, minute: u32, second: u32) -> Instant {
    Instant::new(year, month, day, hour, minute, second).unwrap()
}

fn names(v: &[&str]) -> Vec<String> {
    v.iter().map(|s| s.to_string()).collect()
}

#[test]
fn preferred_moments_per_class() {
    let on_the_quarter = at(2024, 3, 5, 14, 45, 10);
    let on_the_hour = at(2024, 3, 5, 14, 0, 10);
    let midnight = at(2024, 3, 5, 0, 0, 10);
    let month_start = at(2024, 3, 1, 0, 0, 10);
    let year_start = at(2024, 1, 1, 0, 0, 10);
    let odd = at(2024, 3, 5, 14, 44, 10);

    assert!(Freq::Frequently.preferred_time(&on_the_quarter));
    assert!(Freq::Frequently.preferred_time(&on_the_hour));
    assert!(!Freq::Frequently.preferred_time(&odd));

    assert!(Freq::Hourly.preferred_time(&on_the_hour));
    assert!(!Freq::Hourly.preferred_time(&on_the_quarter));

    assert!(Freq::Daily.preferred_time(&midnight));
    assert!(!Freq::Daily.preferred_time(&on_the_hour));

    assert!(Freq::Monthly.preferred_time(&month_start));
    assert!(!Freq::Monthly.preferred_time(&midnight));

    assert!(Freq::Yearly.preferred_time(&year_start));
    assert!(!Freq::Yearly.preferred_time(&month_start));
}

#[test]
fn due_on_boundary_or_empty_inventory() {
    let off_hour = at(2024, 3, 5, 14, 22, 0);
    let on_hour = at(2024, 3, 5, 14, 0, 0);
    let empty: Vec<(Freq, String)> = Vec::new();
    let stocked = classify(&names(&["2024-03-05-100000_hourly"]));

    // Bootstrap: a class with no records is always due.
    assert!(is_due(&Freq::Hourly, &off_hour, &empty));
    // Off the boundary with records: not due, so a rerun in the same
    // minute creates nothing new.
    assert!(!is_due(&Freq::Hourly, &off_hour, &stocked));
    // On the boundary: due.
    assert!(is_due(&Freq::Hourly, &on_hour, &stocked));
    // Records of another class do not count.
    assert!(is_due(&Freq::Daily, &off_hour, &stocked));
}

#[test]
fn classify_groups_and_ignores_strangers() {
    let inv = classify(&names(&[
        "2024-03-05-100000_hourly",
        "lost+found",
        "2024-03-04-000000_daily",
        "notes_about_backups.txt",
        "2024-03-05-110000_hourly",
    ]));
    assert_eq!(
        inv,
        vec![
            (Freq::Hourly, "2024-03-05-100000_hourly".to_string()),
            (Freq::Daily, "2024-03-04-000000_daily".to_string()),
            (Freq::Hourly, "2024-03-05-110000_hourly".to_string()),
        ]
    );
}

#[test]
fn victims_are_the_oldest_beyond_keep() {
    let inv = classify(&names(&[
        "2024-03-05-130000_hourly",
        "2024-03-05-100000_hourly",
        "2024-03-04-000000_daily",
        "2024-03-05-120000_hourly",
        "2024-03-05-110000_hourly",
    ]));
    let victims = select_victims(&inv, &Freq::Hourly, 2);
    assert_eq!(
        victims,
        names(&["2024-03-05-100000_hourly", "2024-03-05-110000_hourly"])
    );
    // At or below the retention count nothing is selected.
    assert_eq!(select_victims(&inv, &Freq::Hourly, 4), Vec::<String>::new());
    assert_eq!(select_victims(&inv, &Freq::Daily, 1), Vec::<String>::new());
    // keep == 0 removes every record of the class.
    assert_eq!(select_victims(&inv, &Freq::Daily, 0), names(&["2024-03-04-000000_daily"]));
}

#[test]
fn equal_stamps_keep_scan_order() {
    // Two names with the same stamp: the tie breaks by scan order.
    let inv = classify(&names(&[
        "2024-03-05-100000_b_hourly",
        "2024-03-05-100000_a_hourly",
        "2024-03-05-110000_hourly",
    ]));
    let victims = select_victims(&inv, &Freq::Hourly, 1);
    assert_eq!(
        victims,
        names(&["2024-03-05-100000_b_hourly", "2024-03-05-100000_a_hourly"])
    );
}

#[test]
fn bootstrap_hourly_on_the_hour() {
    // No snapshot directory yet: empty inventory, on the hour, keep 3.
    let now = at(2024, 3, 5, 14, 0, 0);
    let sv = Subvolume {
        path: "/tank/data".to_string(),
        frequencies: vec![(Freq::Hourly, 3)],
    };
    let plan = sv.plan(Vec::new(), &now);
    assert_eq!(plan.len(), 1);
    assert_eq!(plan[0].freq, Freq::Hourly);
    assert_eq!(plan[0].keep, 3);
    assert_eq!(plan[0].create.as_deref(), Some("2024-03-05-140000_hourly"));
    // One record after creation, 1 <= 3: no pruning.
    assert!(plan[0].victims.is_empty());
}

#[test]
fn off_hour_prunes_down_to_keep() {
    // Four hourly records, keep 2, off the hour: no creation, the two
    // oldest go, the two newest stay.
    let now = at(2024, 3, 5, 14, 30, 0);
    let inv = classify(&names(&[
        "2024-03-05-100000_hourly",
        "2024-03-05-110000_hourly",
        "2024-03-05-120000_hourly",
        "2024-03-05-130000_hourly",
    ]));
    let sv = Subvolume {
        path: "/tank/data".to_string(),
        frequencies: vec![(Freq::Hourly, 2)],
    };
    let plan = sv.plan(inv, &now);
    assert_eq!(plan.len(), 1);
    assert_eq!(plan[0].create, None);
    assert_eq!(
        plan[0].victims,
        names(&["2024-03-05-100000_hourly", "2024-03-05-110000_hourly"])
    );
}

#[test]
fn zero_classes_plan_no_work() {
    let now = at(2024, 3, 5, 14, 30, 0);
    let sv = Subvolume {
        path: "/tank/data".to_string(),
        frequencies: Vec::new(),
    };
    let inv = classify(&names(&["2024-03-05-100000_hourly"]));
    let plan = sv.plan(inv, &now);
    assert!(plan.is_empty());
}

#[test]
fn fresh_snapshot_counts_toward_pruning() {
    // On the hour with keep 2 and two existing records: the new snapshot
    // makes three, so the oldest one is pruned in the same run.
    let now = at(2024, 3, 5, 14, 0, 0);
    let inv = classify(&names(&[
        "2024-03-05-120000_hourly",
        "2024-03-05-130000_hourly",
    ]));
    let sv = Subvolume {
        path: "/tank/data".to_string(),
        frequencies: vec![(Freq::Hourly, 2)],
    };
    let plan = sv.plan(inv, &now);
    assert_eq!(plan[0].create.as_deref(), Some("2024-03-05-140000_hourly"));
    assert_eq!(plan[0].victims, names(&["2024-03-05-120000_hourly"]));
}

#[test]
fn classes_are_planned_independently_in_order() {
    let now = at(2024, 3, 5, 14, 0, 0);  // on the hour, not midnight
    let inv = classify(&names(&[
        "2024-03-04-000000_daily",
        "2024-03-05-130000_hourly",
    ]));
    let sv = Subvolume {
        path: "/tank/data".to_string(),
        frequencies: vec![(Freq::Hourly, 1), (Freq::Daily, 5)],
    };
    let plan = sv.plan(inv, &now);
    assert_eq!(plan.len(), 2);
    assert_eq!(plan[0].freq, Freq::Hourly);
    assert_eq!(plan[0].create.as_deref(), Some("2024-03-05-140000_hourly"));
    assert_eq!(plan[0].victims, names(&["2024-03-05-130000_hourly"]));
    // Daily: off its boundary, has a record: nothing to do.
    assert_eq!(plan[1].freq, Freq::Daily);
    assert_eq!(plan[1].create, None);
    assert!(plan[1].victims.is_empty());
}

#[test]
fn empty_listing_gives_empty_inventory() {
    let inv = classify(&Vec::new());
    assert!(inv.is_empty());
    assert_eq!(select_victims(&inv, &Freq::Hourly, 0), Vec::<String>::new());
}

#[test]
fn huge_keep_never_selects_victims() {
    let inv = classify(&names(&["2024-03-05-100000_hourly"]));
    assert_eq!(select_victims(&inv, &Freq::Hourly, usize::MAX), Vec::<String>::new());
}

#[test]
fn duplicate_class_sees_the_earlier_snapshot() {
    // Off the hour with an empty inventory: the first occurrence is due
    // (bootstrap); the second sees its record and is not.
    let now = at(2024, 3, 5, 14, 30, 0);
    let sv = Subvolume {
        path: "/tank/data".to_string(),
        frequencies: vec![(Freq::Hourly, 1), (Freq::Hourly, 1)],
    };
    let plan = sv.plan(Vec::new(), &now);
    assert_eq!(plan.len(), 2);
    assert_eq!(plan[0].create.as_deref(), Some("2024-03-05-143000_hourly"));
    assert!(plan[0].victims.is_empty());
    assert_eq!(plan[1].create, None);
    assert!(plan[1].victims.is_empty());
}

#[test]
fn paths_join_under_the_snapshot_dir() {
    let sv = Subvolume {
        path: "/tank/data".to_string(),
        frequencies: Vec::new(),
    };
    assert_eq!(sv.snapshots_dir(), "/tank/data/.snapshots");
    assert_eq!(
        sv.snapshot_path("2024-03-05-140000_hourly"),
        "/tank/data/.snapshots/2024-03-05-140000_hourly"
    );
}

#[test]
fn error_messages_carry_their_context() {
    let e = SubVolumeError("Creating snapshot: '/tank/data'".to_string());
    assert_eq!(e.message(), "Subvolume error: Creating snapshot: '/tank/data'");
    let m = MainError("Reading config file: '/etc/rotation.ron'".to_string());
    assert_eq!(m.message(), "Reading config file: '/etc/rotation.ron'");
}
