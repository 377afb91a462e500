//! A project: a directory with the spec files found under it.
use vstd::prelude::*;

use crate::spec::SpecFile;

verus! {

/// A parsed spec file with the path it was read from.
#[derive(Debug)]
pub struct LoadedSpec {
    pub path: String,
    pub spec: SpecFile,
}

/// A project root, the spec files found there and their parsed contents.
#[derive(Debug)]
pub struct Project {
    pub root: String,
    pub spec_files: Vec<String>,
    pub specs: Vec<LoadedSpec>,
}

/// Attaches parsed spec files to a project.
pub struct ProjectLoader;

impl ProjectLoader {
    /// The project with its spec files' parsed contents: `parsed` holds them in the order of
    /// `project.spec_files`, and each is kept with the path it was read from.
    pub fn load(project: Project, parsed: Vec<SpecFile>) -> (r: Project)
        requires
            parsed@.len() == project.spec_files@.len(),
        ensures
            r.root == project.root,
            r.spec_files == project.spec_files,
            r.specs@.len() == parsed@.len(),
            forall|i: int|
                0 <= i < r.specs@.len() ==> (#[trigger] r.specs@[i]).path@ == project.spec_files@[i]@
                    && r.specs@[i].spec == parsed@[i],
    {
        let Project { root, spec_files, specs: _ } = project;
        let mut rest = parsed;
        let ghost all = rest@;
        let mut specs: Vec<LoadedSpec> = Vec::new();
        let n = spec_files.len();
        let mut i: usize = 0;
        while rest.len() > 0
            invariant
                n == spec_files@.len(),
                i + rest@.len() == all.len(),
                all.len() == spec_files@.len(),
                rest@ == all.skip(i as int),
                specs@.len() == i,
                forall|j: int|
                    0 <= j < i ==> (#[trigger] specs@[j]).path@ == spec_files@[j]@ && specs@[j].spec
                        == all[j],
            decreases rest.len(),
        {
            let ghost before = rest@;
            let spec = rest.remove(0);
            assert(spec == all[i as int]);
            assert(rest@ =~= all.skip(i + 1));
            specs.push(LoadedSpec { path: spec_files[i].clone(), spec });
            i = i + 1;
        }
        Project { root, spec_files, specs }
    }
}

} // verus!
