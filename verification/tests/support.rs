use logseq_sqlite::support::{
    has_opfs_support, probe_step, Finding, Findings, Probe, ProbeStep,
};

fn all_defined() -> Findings {
    Findings {
        worker_scope: Finding::Defined,
        file_handle: Finding::Defined,
        prototype: Finding::Defined,
        sync_access_handle: Finding::Defined,
        navigator: Finding::Defined,
        storage: Finding::Defined,
        get_directory: Finding::Defined,
    }
}

#[test]
fn opfs_ok() {
    let has_opfs_support = has_opfs_support(&all_defined());
    assert_eq!(has_opfs_support, true);
}

#[test]
fn what_is_missing_is_noticed() {
    let d = all_defined();
    assert!(!has_opfs_support(&Findings { worker_scope: Finding::Undefined, ..d }));
    assert!(!has_opfs_support(&Findings { worker_scope: Finding::Failed, ..d }));
    assert!(!has_opfs_support(&Findings { file_handle: Finding::Undefined, ..d }));
    assert!(!has_opfs_support(&Findings { prototype: Finding::Undefined, ..d }));
    assert!(!has_opfs_support(&Findings { sync_access_handle: Finding::Undefined, ..d }));
    assert!(!has_opfs_support(&Findings { navigator: Finding::Undefined, ..d }));
    assert!(!has_opfs_support(&Findings { storage: Finding::Undefined, ..d }));
    assert!(!has_opfs_support(&Findings { get_directory: Finding::Undefined, ..d }));
}

#[test]
fn what_cannot_be_asked_is_passed_over() {
    let d = all_defined();
    assert!(has_opfs_support(&Findings { sync_access_handle: Finding::Failed, ..d }));
    assert!(has_opfs_support(&Findings { navigator: Finding::Failed, ..d }));
    assert!(has_opfs_support(&Findings { storage: Finding::Failed, ..d }));
    assert!(has_opfs_support(&Findings { get_directory: Finding::Failed, ..d }));
    // What belongs to it is then not asked for.
    assert!(has_opfs_support(&Findings {
        file_handle: Finding::Failed,
        prototype: Finding::Undefined,
        sync_access_handle: Finding::Undefined,
        ..d
    }));
    assert!(has_opfs_support(&Findings {
        prototype: Finding::Failed,
        sync_access_handle: Finding::Undefined,
        ..d
    }));
}

#[test]
fn the_order_of_asking() {
    let mut asked = vec![Probe::WorkerScope];
    loop {
        let probe = *asked.last().unwrap();
        match probe_step(probe, Finding::Defined) {
            ProbeStep::Ask(next) => asked.push(next),
            ProbeStep::Answer(answer) => {
                assert!(answer);
                break;
            }
        }
    }
    assert_eq!(
        asked,
        vec![
            Probe::WorkerScope,
            Probe::FileHandle,
            Probe::Prototype,
            Probe::SyncAccessHandle,
            Probe::Navigator,
            Probe::Storage,
            Probe::GetDirectory
        ]
    );
    assert_eq!(
        probe_step(Probe::FileHandle, Finding::Failed),
        ProbeStep::Ask(Probe::Navigator)
    );
    assert_eq!(
        probe_step(Probe::Navigator, Finding::Undefined),
        ProbeStep::Answer(false)
    );
}
