//! Workspace-root detection: the marker files that identify a Python
//! project, and the walk from a start directory upward to the nearest
//! directory holding one.
//!
//! Probing the file system is left to the caller, which hands in one
//! flag per candidate directory; the decision over those flags is here.

use vstd::prelude::*;

verus! {

/// Finds the workspace root of a Python project.
pub struct WorkspaceDetector;

impl WorkspaceDetector {
    /// The marker files and directories whose presence makes a directory
    /// a workspace root.
    pub fn python_markers() -> (r: Vec<&'static str>)
        ensures
            r@.len() == 8,
            r@[0]@ == "pyproject.toml"@,
            r@[1]@ == "setup.py"@,
            r@[2]@ == "setup.cfg"@,
            r@[3]@ == "requirements.txt"@,
            r@[4]@ == "Pipfile"@,
            r@[5]@ == "poetry.lock"@,
            r@[6]@ == ".git"@,
            r@[7]@ == "src"@,
    {
        let mut v: Vec<&'static str> = Vec::new();
        v.push("pyproject.toml");
        v.push("setup.py");
        v.push("setup.cfg");
        v.push("requirements.txt");
        v.push("Pipfile");
        v.push("poetry.lock");
        v.push(".git");
        v.push("src");
        v
    }

    /// Whether a directory holds a Python marker, over one flag per
    /// marker name as the caller probed them.
    pub fn has_python_markers(marker_present: &Vec<bool>) -> (r: bool)
        ensures
            r == exists|i: int| 0 <= i < marker_present@.len() && marker_present@[i],
    {
        let mut i: usize = 0;
        while i < marker_present.len()
            invariant
                i <= marker_present@.len(),
                forall|k: int| 0 <= k < i ==> !marker_present@[k],
            decreases marker_present@.len() - i,
        {
            if marker_present[i] {
                return true;
            }
            i = i + 1;
        }
        proof {
            if exists|k: int| 0 <= k < marker_present@.len() && marker_present@[k] {
                let k = choose|k: int| 0 <= k < marker_present@.len() && marker_present@[k];
                assert(!marker_present@[k]);
            }
        }
        false
    }

    /// The workspace root among the candidate directories: the start
    /// directory first, then each parent in turn; the nearest one with a
    /// marker wins, and without any the search fails.
    pub fn find_workspace_root(candidate_has_markers: &Vec<bool>) -> (r: Option<usize>)
        ensures
            match r {
                Some(i) => {
                    &&& 0 <= i < candidate_has_markers@.len()
                    &&& candidate_has_markers@[i as int]
                    &&& forall|k: int| 0 <= k < i ==> !candidate_has_markers@[k]
                },
                None => forall|k: int|
                    0 <= k < candidate_has_markers@.len() ==> !candidate_has_markers@[k],
            },
    {
        let mut i: usize = 0;
        while i < candidate_has_markers.len()
            invariant
                i <= candidate_has_markers@.len(),
                forall|k: int| 0 <= k < i ==> !candidate_has_markers@[k],
            decreases candidate_has_markers@.len() - i,
        {
            if candidate_has_markers[i] {
                return Some(i);
            }
            i = i + 1;
        }
        None
    }
}

} // verus!
