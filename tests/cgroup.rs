use procctl::{kill_cgroup, CgroupWrite, ProcError, CGROUP_KILL_DIRECTIVE};

const PATH: &str = "/sys/fs/cgroup/app/cgroup.kill";

#[test]
fn written_directive_is_success() {
    assert_eq!(CGROUP_KILL_DIRECTIVE, "1");
    assert!(kill_cgroup(PATH, CgroupWrite::Written).is_ok());
}

#[test]
fn missing_control_file_is_cgroup_error() {
    match kill_cgroup(PATH, CgroupWrite::NotFound) {
        Err(ProcError::CgroupError(d)) => {
            assert_eq!(d, "/sys/fs/cgroup/app/cgroup.kill: no such control file")
        }
        other => panic!("unexpected {:?}", other),
    }
}

#[test]
fn refused_write_is_cgroup_error() {
    match kill_cgroup(PATH, CgroupWrite::PermissionDenied) {
        Err(ProcError::CgroupError(d)) => {
            assert_eq!(d, "/sys/fs/cgroup/app/cgroup.kill: permission denied")
        }
        other => panic!("unexpected {:?}", other),
    }
    match kill_cgroup(PATH, CgroupWrite::Failed("device busy".to_string())) {
        Err(ProcError::CgroupError(d)) => {
            assert_eq!(d, "/sys/fs/cgroup/app/cgroup.kill: device busy")
        }
        other => panic!("unexpected {:?}", other),
    }
}
