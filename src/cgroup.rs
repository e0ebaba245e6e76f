use vstd::prelude::*;
use vstd::string::StringExecFns;
use crate::types::ProcError;

verus! {

/// What is written to a cgroup's `cgroup.kill` control file to kill every
/// process of the group and of its sub-groups.
pub const CGROUP_KILL_DIRECTIVE: &'static str = "1";

/// What became of writing the kill directive to a control file.
#[derive(Debug, Clone)]
pub enum CgroupWrite {
    Written,
    /// The control file does not exist: no cgroup v2 there.
    NotFound,
    /// The kernel refused the write for lack of privilege.
    PermissionDenied,
    /// Any other failure, with its cause.
    Failed(String),
}

/// The detail of a cgroup failure: the control file, then the reason.
pub open spec fn cgroup_detail(path: Seq<char>, reason: Seq<char>) -> Seq<char> {
    path + ": "@ + reason
}

fn detail(path: &str, reason: &str) -> (r: String)
    ensures
        r@ == cgroup_detail(path@, reason@),
{
    path.to_owned().concat(": ").concat(reason)
}

/// The result of killing the cgroup whose control file is `cgroup_path`, once
/// the kill directive was written there with outcome `write`: success when the
/// write went through, a `CgroupError` naming the file and the reason otherwise.
pub fn kill_cgroup(cgroup_path: &str, write: CgroupWrite) -> (r: Result<(), ProcError>)
    ensures
        r is Ok <==> write is Written,
        write is NotFound ==> (r matches Err(ProcError::CgroupError(d)) && d@ == cgroup_detail(
            cgroup_path@,
            "no such control file"@,
        )),
        write is PermissionDenied ==> (r matches Err(ProcError::CgroupError(d)) && d@
            == cgroup_detail(cgroup_path@, "permission denied"@)),
        write matches CgroupWrite::Failed(cause) ==> (r matches Err(ProcError::CgroupError(d))
            && d@ == cgroup_detail(cgroup_path@, cause@)),
{
    match write {
        CgroupWrite::Written => Ok(()),
        CgroupWrite::NotFound => Err(
            ProcError::CgroupError(detail(cgroup_path, "no such control file")),
        ),
        CgroupWrite::PermissionDenied => Err(
            ProcError::CgroupError(detail(cgroup_path, "permission denied")),
        ),
        CgroupWrite::Failed(cause) => Err(ProcError::CgroupError(detail(cgroup_path, &cause))),
    }
}

} // verus!
