use httm::config::{Config, ListSnapsFilters, PrintMode, SnapPoint};
use httm::data::{PathData, PathMetadata};
use httm::errors::HttmErrorKind;
use httm::lookup::{build_candidate_paths, get_snap_point_and_local_relative_path, lookup_exec,
    VersionsMap};
use httm::mounts::{parse_proc_mounts, parse_zfs_list, DatasetMetadata, FilesystemType,
    MapOfDatasets};
use httm::resolve::{get_snapshot_dataset, parent_of};
use httm::snap_names::{split_snap_path, SnapNameMap};
use httm::versions::get_versions;
use httm::workflow::{classify_destroy_stderr, consent_outcome, narrow_plan, parse_consent,
    wipe_preconditions, ConsentDecision};

fn pd(path: &str, time: u64, size: u64) -> PathData {
    PathData::new(path.to_owned(), Some(PathMetadata { size, modify_time: time }))
}

fn phantom(path: &str) -> PathData {
    PathData::new(path.to_owned(), None)
}

fn native_config() -> Config {
    Config {
        snap_point: SnapPoint::Native,
        opt_no_live_vers: false,
        print_mode: PrintMode::FormattedDefault,
        opt_bulk_exclusion: None,
    }
}

#[test]
fn resolver_prefers_most_specific_mount() {
    let mounts = vec!["/".to_owned(), "/usr".to_owned(), "/usr/bin".to_owned()];
    let best = get_snapshot_dataset(&mounts, "/usr/bin/ls").unwrap();
    assert_eq!(best, "/usr/bin");
}

#[test]
fn resolver_is_deterministic() {
    let mounts = vec!["/".to_owned(), "/usr".to_owned()];
    let a = get_snapshot_dataset(&mounts, "/usr/bin/ls").unwrap();
    let b = get_snapshot_dataset(&mounts, "/usr/bin/ls").unwrap();
    assert_eq!(a, b);
}

#[test]
fn resolver_fails_without_match() {
    let mounts = vec!["/tank".to_owned()];
    let err = get_snapshot_dataset(&mounts, "/usr/bin/ls").unwrap_err();
    assert_eq!(err.kind, HttmErrorKind::NoDatasetFound);
}

#[test]
fn parent_of_examples() {
    assert_eq!(parent_of("/usr/bin/ls"), "/usr/bin");
    assert_eq!(parent_of("/ls"), "/");
    assert_eq!(parent_of("ls"), "");
    // trailing separators are normalized away first
    assert_eq!(parent_of("/usr/"), "/");
    assert_eq!(parent_of("/usr/bin/"), "/usr");
}

#[test]
fn dedup_one_record_per_key() {
    let candidates = vec![
        pd("/snap/a/f", 10, 5),
        pd("/snap/b/f", 10, 5),
        pd("/snap/c/f", 20, 7),
        phantom("/snap/d/f"),
    ];
    let versions = get_versions(&candidates);
    assert_eq!(versions.len(), 2);
    // last write wins for the (10, 5) key
    assert_eq!(versions[0].path_buf, "/snap/b/f");
    assert_eq!(versions[1].path_buf, "/snap/c/f");
}

#[test]
fn enumerate_sorted_by_modify_time() {
    let candidates = vec![
        pd("/snap/c/f", 30, 1),
        pd("/snap/a/f", 10, 1),
        pd("/snap/b/f", 20, 1),
    ];
    let versions = get_versions(&candidates);
    let times: Vec<u64> = versions.iter().map(|v| v.metadata.unwrap().modify_time).collect();
    assert_eq!(times, vec![10, 20, 30]);
    for w in times.windows(2) {
        assert!(w[0] <= w[1]);
    }
}

#[test]
fn snap_path_round_trip_recovers_name() {
    let paths = build_candidate_paths(
        "/tank/.zfs/snapshot",
        &vec!["snap1".to_owned()],
        "home/user/file.txt",
    );
    assert_eq!(paths[0], "/tank/.zfs/snapshot/snap1/home/user/file.txt");
    let (dataset, snap, rel) = split_snap_path(&paths[0]).unwrap();
    assert_eq!(dataset, "/tank");
    assert_eq!(snap, "snap1");
    assert_eq!(rel, "home/user/file.txt");
}

#[test]
fn local_relative_path_native() {
    let config = native_config();
    let (snap_dir, local) =
        get_snap_point_and_local_relative_path(&config, "/tank/home/f", "/tank").unwrap();
    assert_eq!(snap_dir, "/tank/.zfs/snapshot");
    assert_eq!(local, "home/f");
}

#[test]
fn local_relative_path_outside_root() {
    let config = native_config();
    let err = get_snap_point_and_local_relative_path(&config, "/other/f", "/tank").unwrap_err();
    assert_eq!(err.kind, HttmErrorKind::PathOutsideRoot);
}

#[test]
fn local_relative_path_must_align_on_component() {
    // the root is a prefix of the characters but not of the components
    let config = native_config();
    let err = get_snap_point_and_local_relative_path(&config, "/usr/bin/ls", "/us").unwrap_err();
    assert_eq!(err.kind, HttmErrorKind::PathOutsideRoot);
}

#[test]
fn lookup_no_versions_found() {
    let config = native_config();
    let requested = vec![phantom("/tank/missing")];
    let err = lookup_exec(&config, &requested, Vec::new()).unwrap_err();
    assert_eq!(err.kind, HttmErrorKind::NoVersionsFound);
}

#[test]
fn lookup_keeps_live_records() {
    let config = native_config();
    let requested = vec![pd("/tank/file", 5, 1)];
    let (snaps, live) = lookup_exec(&config, &requested, Vec::new()).unwrap();
    assert!(snaps.is_empty());
    assert_eq!(live.len(), 1);
    assert_eq!(live[0].path_buf, "/tank/file");
}

fn zfs_map() -> MapOfDatasets {
    let mut map = MapOfDatasets::new();
    map.insert(
        "/tank".to_owned(),
        DatasetMetadata { source: "rpool/tank".to_owned(), fs_type: FilesystemType::Zfs },
    );
    map
}

fn versions_map_with(entries: Vec<(PathData, Vec<PathData>)>) -> VersionsMap {
    let mut vm = VersionsMap::new();
    for (k, v) in entries {
        vm.push_entry(k, v);
    }
    vm
}

#[test]
fn snap_names_formats_identifier() {
    let vm = versions_map_with(vec![(
        phantom("/tank/f"),
        vec![pd("/tank/.zfs/snapshot/daily1/f", 1, 1)],
    )]);
    let map = zfs_map();
    let snm = SnapNameMap::exec(&vm, &None, &map);
    assert_eq!(snm.entries.len(), 1);
    assert_eq!(snm.entries[0].snap_names, vec!["rpool/tank@daily1".to_owned()]);
}

#[test]
fn snap_names_omit_count_drops_newest() {
    let versions: Vec<PathData> = (1..=4)
        .map(|i| pd(&format!("/tank/.zfs/snapshot/s{i}/f"), i as u64, 1))
        .collect();
    let vm = versions_map_with(vec![(phantom("/tank/f"), versions)]);
    let map = zfs_map();
    let filters = Some(ListSnapsFilters {
        name_filters: None,
        omit_num_snaps: 2,
        select_mode: false,
    });
    let snm = SnapNameMap::exec(&vm, &filters, &map);
    assert_eq!(
        snm.entries[0].snap_names,
        vec!["rpool/tank@s1".to_owned(), "rpool/tank@s2".to_owned()]
    );
}

#[test]
fn snap_names_pattern_filter() {
    let versions = vec![
        pd("/tank/.zfs/snapshot/daily1/f", 1, 1),
        pd("/tank/.zfs/snapshot/weekly1/f", 2, 1),
    ];
    let vm = versions_map_with(vec![(phantom("/tank/f"), versions)]);
    let map = zfs_map();
    let filters = Some(ListSnapsFilters {
        name_filters: Some(vec!["weekly".to_owned()]),
        omit_num_snaps: 0,
        select_mode: false,
    });
    let snm = SnapNameMap::exec(&vm, &filters, &map);
    assert_eq!(snm.entries[0].snap_names, vec!["rpool/tank@weekly1".to_owned()]);
}

#[test]
fn snap_names_filter_ignores_dataset_source() {
    // a pattern that occurs only in the dataset source keeps nothing:
    // the filter reads the snapshot short name alone
    let versions = vec![pd("/tank/.zfs/snapshot/s1/f", 1, 1)];
    let vm = versions_map_with(vec![(phantom("/tank/f"), versions)]);
    let map = zfs_map();
    let filters = Some(ListSnapsFilters {
        name_filters: Some(vec!["rpool".to_owned()]),
        omit_num_snaps: 0,
        select_mode: false,
    });
    let snm = SnapNameMap::exec(&vm, &filters, &map);
    assert!(snm.entries[0].snap_names.is_empty());
}

#[test]
fn snap_names_drops_non_zfs_dataset() {
    let mut map = MapOfDatasets::new();
    map.insert(
        "/tank".to_owned(),
        DatasetMetadata { source: "other".to_owned(), fs_type: FilesystemType::Other },
    );
    let vm = versions_map_with(vec![(
        phantom("/tank/f"),
        vec![pd("/tank/.zfs/snapshot/s1/f", 1, 1)],
    )]);
    let snm = SnapNameMap::exec(&vm, &None, &map);
    assert!(snm.entries[0].snap_names.is_empty());
}

#[test]
fn consent_gibberish_then_no_declines() {
    let inputs = vec!["blah".to_owned(), "no".to_owned()];
    assert_eq!(consent_outcome(&inputs), Some(false));
}

#[test]
fn consent_yes_proceeds() {
    let inputs = vec!["YES".to_owned()];
    assert_eq!(consent_outcome(&inputs), Some(true));
    assert_eq!(parse_consent("y"), ConsentDecision::Proceed);
    assert_eq!(parse_consent("N"), ConsentDecision::Decline);
    assert_eq!(parse_consent("maybe"), ConsentDecision::Reprompt);
}

#[test]
fn destroy_stderr_classification() {
    assert!(classify_destroy_stderr("").is_ok());
    let perm = classify_destroy_stderr("cannot destroy snapshots: permission denied").unwrap_err();
    assert_eq!(perm.kind, HttmErrorKind::DestroyPermissionDenied);
    let other = classify_destroy_stderr("dataset is busy").unwrap_err();
    assert_eq!(other.kind, HttmErrorKind::DestroyFailure);
    assert!(other.details.ends_with("dataset is busy"));
}

#[test]
fn wipe_rejects_live_paths() {
    let map = zfs_map();
    let err =
        wipe_preconditions(&vec![pd("/tank/live", 1, 1)], &Vec::new(), &map).unwrap_err();
    assert_eq!(err.kind, HttmErrorKind::WipePrecondition);
}

#[test]
fn wipe_rejects_non_zfs_mounts() {
    let mut map = MapOfDatasets::new();
    map.insert(
        "/mnt/ext".to_owned(),
        DatasetMetadata { source: "sda1".to_owned(), fs_type: FilesystemType::Other },
    );
    let err = wipe_preconditions(
        &vec![phantom("/mnt/ext/gone")],
        &vec!["/mnt/ext".to_owned()],
        &map,
    )
    .unwrap_err();
    assert_eq!(err.kind, HttmErrorKind::WipePrecondition);
}

#[test]
fn wipe_accepts_deleted_zfs_paths() {
    let map = zfs_map();
    assert!(wipe_preconditions(
        &vec![phantom("/tank/gone")],
        &vec!["/tank".to_owned()],
        &map,
    )
    .is_ok());
}

#[test]
fn proc_mounts_parser_keeps_zfs_lines() {
    let text = "rpool/tank /tank zfs rw 0 0\nsysfs /sys sysfs rw 0 0\nrpool/with\\040space /mnt/with\\040space zfs rw 0 0";
    let mounts = parse_proc_mounts(text);
    assert_eq!(mounts, vec!["/tank".to_owned(), "/mnt/with space".to_owned()]);
}

#[test]
fn zfs_list_parser_keeps_mounted_lines() {
    let text = "/tank\tyes\n-\tno\n/rpool\tyes";
    let mounts = parse_zfs_list(text);
    assert_eq!(mounts, vec!["/tank".to_owned(), "/rpool".to_owned()]);
}

#[test]
fn alt_mounts_sorted_by_length() {
    let mut map = MapOfDatasets::new();
    map.insert(
        "/r".to_owned(),
        DatasetMetadata { source: "rpool".to_owned(), fs_type: FilesystemType::Zfs },
    );
    map.insert(
        "/backup/very/long".to_owned(),
        DatasetMetadata { source: "tank/rpool".to_owned(), fs_type: FilesystemType::Zfs },
    );
    map.insert(
        "/b".to_owned(),
        DatasetMetadata { source: "b/rpool".to_owned(), fs_type: FilesystemType::Zfs },
    );
    let alt = httm::alts::get_alt_replicated_from_mount("/r", &map).unwrap();
    assert_eq!(alt.proximate_dataset_mount, "/r");
    assert_eq!(
        alt.opt_datasets_of_interest.unwrap(),
        vec!["/b".to_owned(), "/backup/very/long".to_owned()]
    );
}

#[test]
fn alt_mounts_soft_failure() {
    let map = zfs_map();
    let err = httm::alts::get_alt_replicated_from_mount("/tank", &map).unwrap_err();
    assert_eq!(err.kind, HttmErrorKind::AltMountNotFound);
}

#[test]
fn display_formats_lines_and_borders() {
    let config = native_config();
    let mut vm = VersionsMap::new();
    vm.push_entry(pd("/tank/f", 100, 7), vec![pd("/tank/.zfs/snapshot/s1/f", 50, 3)]);
    let wrapper = httm::display::VersionsDisplayWrapper::from(&config, vm);
    let out = wrapper.format();
    assert!(out.contains("\"/tank/.zfs/snapshot/s1/f\""));
    assert!(out.contains("\"/tank/f\""));
    assert!(out.contains("50"));
    assert!(out.contains("100"));
}

#[test]
fn display_raw_mode_lists_paths() {
    let mut config = native_config();
    config.print_mode = PrintMode::RawNewline;
    let mut vm = VersionsMap::new();
    vm.push_entry(pd("/tank/f", 100, 7), vec![pd("/tank/.zfs/snapshot/s1/f", 50, 3)]);
    let wrapper = httm::display::VersionsDisplayWrapper::from(&config, vm);
    let out = wrapper.format();
    assert_eq!(out, "/tank/.zfs/snapshot/s1/f\n/tank/f\n");
}

#[test]
fn padding_measures_widest_size() {
    let config = native_config();
    let ds = httm::display::DisplaySet::from(
        vec![pd("/tank/f", 100, 7)],
        vec![pd("/tank/.zfs/snapshot/s1/f", 50, 12345)],
    );
    let pc = httm::display::PaddingCollection::new(&config, &ds);
    assert_eq!(pc.size_padding_len, 5);
    assert_eq!(pc.phantom_size_pad_str, " ");
}

#[test]
fn filter_bulk_exclusions_drops_sets() {
    let mut config = native_config();
    assert!(httm::display::filter_bulk_exclusions(&0, &config));
    assert!(httm::display::filter_bulk_exclusions(&1, &config));
    config.opt_bulk_exclusion = Some(httm::config::BulkExclusion::NoLive);
    assert!(httm::display::filter_bulk_exclusions(&0, &config));
    assert!(!httm::display::filter_bulk_exclusions(&1, &config));
    config.opt_bulk_exclusion = Some(httm::config::BulkExclusion::NoSnap);
    assert!(!httm::display::filter_bulk_exclusions(&0, &config));
    assert!(httm::display::filter_bulk_exclusions(&1, &config));
}

#[test]
fn dedup_empty_input() {
    let versions = get_versions(&Vec::new());
    assert!(versions.is_empty());
}

#[test]
fn consent_exhausted_without_answer() {
    let inputs = vec!["hm".to_owned(), "ok".to_owned()];
    assert_eq!(consent_outcome(&inputs), None);
}

#[test]
fn split_snap_path_without_marker() {
    assert!(split_snap_path("/tank/home/file").is_none());
}

#[test]
fn narrow_plan_keeps_only_chosen() {
    let plan = vec!["rpool@s1".to_owned(), "rpool@s2".to_owned(), "rpool@s3".to_owned()];
    let chosen = vec!["rpool@s3".to_owned(), "rpool@s1".to_owned(), "other".to_owned()];
    assert_eq!(
        narrow_plan(&plan, &chosen),
        vec!["rpool@s1".to_owned(), "rpool@s3".to_owned()]
    );
    assert!(narrow_plan(&plan, &Vec::new()).is_empty());
}

#[test]
fn map_of_alts_precomputes_per_mount() {
    let mut map = MapOfDatasets::new();
    map.insert(
        "/r".to_owned(),
        DatasetMetadata { source: "rpool".to_owned(), fs_type: FilesystemType::Zfs },
    );
    map.insert(
        "/b".to_owned(),
        DatasetMetadata { source: "tank/rpool".to_owned(), fs_type: FilesystemType::Zfs },
    );
    let alts = httm::alts::MapOfAlts::new(&map);
    // only "/r" has a replica; "/b" has none ending with "tank/rpool"
    assert_eq!(alts.entries.len(), 1);
    assert_eq!(alts.entries[0].mount, "/r");
    assert_eq!(
        alts.entries[0].md.opt_datasets_of_interest.clone().unwrap(),
        vec!["/b".to_owned()]
    );
}
