use vstd::prelude::*;
use crate::dir::Dir;
use crate::file::File;
use crate::path::{base_name, base_name_of, copy_components};

verus! {

broadcast use vstd::std_specs::vec::group_vec_axioms;

/// One step of extracting a tree onto a filesystem. A location is a list of
/// path segments below the target directory; the empty list is the target.
pub enum ExtractStep<'a> {
    /// Make sure the directory at this location exists, with its ancestors.
    CreateDir(Vec<Vec<char>>),
    /// Create or truncate the file at this location and write these bytes.
    WriteFile(Vec<Vec<char>>, &'a File),
}

/// What an extraction step means.
pub enum PlannedStep<'a> {
    CreateDir(Seq<Seq<char>>),
    WriteFile(Seq<Seq<char>>, &'a File),
}

/// The segments of a location.
pub open spec fn segments_of(v: Vec<Vec<char>>) -> Seq<Seq<char>> {
    Seq::new(v@.len(), |k: int| v[k]@)
}

impl<'a> ExtractStep<'a> {
    pub open spec fn view(&self) -> PlannedStep<'a> {
        match self {
            ExtractStep::CreateDir(at) => PlannedStep::CreateDir(segments_of(*at)),
            ExtractStep::WriteFile(at, f) => PlannedStep::WriteFile(segments_of(*at), *f),
        }
    }
}

/// The steps that extract `d` at location `at`: create `at`, write each file
/// of `d` at `at` followed by the file's base name, then extract each
/// sub-directory at `at` followed by its base name, in order.
pub open spec fn plan<'a>(d: &'a Dir, at: Seq<Seq<char>>) -> Seq<PlannedStep<'a>>
    decreases d, d.dirs.len() + 1,
{
    seq![PlannedStep::CreateDir(at)] + Seq::new(
        d.files@.len(),
        |k: int| PlannedStep::WriteFile(at.push(base_name(d.files[k].path@)), &d.files[k]),
    ) + plan_dirs(d, at, 0)
}

/// The steps that extract the sub-directories of `d` from index `i` on.
pub open spec fn plan_dirs<'a>(d: &'a Dir, at: Seq<Seq<char>>, i: int) -> Seq<PlannedStep<'a>>
    decreases d, d.dirs.len() - i,
{
    if i < 0 || i >= d.dirs.len() {
        Seq::empty()
    } else {
        plan(&d.dirs[i], at.push(base_name(d.dirs[i].path@))) + plan_dirs(d, at, i + 1)
    }
}

/// The views of a list of steps.
pub open spec fn steps_view<'a>(v: Seq<ExtractStep<'a>>) -> Seq<PlannedStep<'a>> {
    Seq::new(v.len(), |k: int| v[k].view())
}

fn location_plus(at: &Vec<Vec<char>>, name: Vec<char>) -> (r: Vec<Vec<char>>)
    ensures
        segments_of(r) == segments_of(*at).push(name@),
{
    let mut r = copy_components(at);
    r.push(name);
    assert(segments_of(r) =~= segments_of(*at).push(name@));
    r
}

impl Dir {
    fn plan_into<'a>(&'a self, at: &Vec<Vec<char>>, out: &mut Vec<ExtractStep<'a>>)
        ensures
            steps_view(final(out)@) == steps_view(old(out)@) + plan(self, segments_of(*at)),
        decreases self, self.dirs.len() + 1,
    {
        let ghost loc = segments_of(*at);
        let ghost out0 = steps_view(out@);
        let ghost fs = Seq::new(
            self.files@.len(),
            |k: int| PlannedStep::WriteFile(loc.push(base_name(self.files[k].path@)), &self.files[k]),
        );
        let here = copy_components(at);
        assert(segments_of(here) =~= loc);
        out.push(ExtractStep::CreateDir(here));
        assert(steps_view(out@) =~= out0 + seq![PlannedStep::CreateDir(loc)]);
        let ghost out1 = steps_view(out@);
        let mut k: usize = 0;
        while k < self.files.len()
            invariant
                k <= self.files.len(),
                loc == segments_of(*at),
                fs == Seq::new(
                    self.files@.len(),
                    |k: int|
                        PlannedStep::WriteFile(
                            loc.push(base_name(self.files[k].path@)),
                            &self.files[k],
                        ),
                ),
                steps_view(out@) == out1 + fs.take(k as int),
            decreases self.files.len() - k,
        {
            let f = &self.files[k];
            let name = base_name_of(f.path.as_str());
            let dest = location_plus(at, name);
            let ghost prev = steps_view(out@);
            let step = ExtractStep::WriteFile(dest, f);
            assert(step.view() == fs[k as int]);
            out.push(step);
            assert(steps_view(out@) =~= prev.push(fs[k as int]));
            assert(fs.take(k + 1) =~= fs.take(k as int).push(fs[k as int]));
            k = k + 1;
            assert(steps_view(out@) =~= out1 + fs.take(k as int));
        }
        assert(fs.take(k as int) =~= fs);
        let mut j: usize = 0;
        while j < self.dirs.len()
            invariant
                j <= self.dirs.len(),
                loc == segments_of(*at),
                steps_view(out@) + plan_dirs(self, loc, j as int) == out0 + plan(self, loc),
            decreases self.dirs.len() - j,
        {
            let sub = &self.dirs[j];
            let ghost before = steps_view(out@);
            let name = base_name_of(sub.path.as_str());
            let dest = location_plus(at, name);
            sub.plan_into(&dest, out);
            assert(steps_view(out@) + plan_dirs(self, loc, j + 1) =~= before + plan_dirs(
                self,
                loc,
                j as int,
            ));
            j = j + 1;
        }
        assert(steps_view(out@) + plan_dirs(self, loc, j as int) =~= steps_view(out@));
    }

    /// The steps that extract this directory into a target directory: the
    /// target is created, each file is written under its base name, and each
    /// sub-directory is extracted the same way under its base name. Running
    /// them in order, and stopping at the first failure, extracts the tree.
    pub fn extract_plan<'a>(&'a self) -> (r: Vec<ExtractStep<'a>>)
        ensures
            steps_view(r@) == plan(self, Seq::empty()),
    {
        let mut out: Vec<ExtractStep<'a>> = Vec::new();
        let root: Vec<Vec<char>> = Vec::new();
        assert(steps_view(out@) =~= Seq::<PlannedStep<'a>>::empty());
        self.plan_into(&root, &mut out);
        assert(segments_of(root) =~= Seq::<Seq<char>>::empty());
        assert(steps_view(out@) =~= plan(self, Seq::empty()));
        out
    }
}

/// Extracting `d` first makes sure the target exists, then writes each file
/// of `d`, in order, directly in the target under its base name and with its
/// own bytes.
pub proof fn lemma_files_written_under_base_names<'a>(d: &'a Dir, k: int)
    requires
        0 <= k < d.files.len(),
    ensures
        plan(d, Seq::empty())[0] == PlannedStep::<'a>::CreateDir(Seq::empty()),
        plan(d, Seq::empty())[1 + k] == PlannedStep::WriteFile(
            seq![base_name(d.files[k].path@)],
            &d.files[k],
        ),
{
    assert(Seq::<Seq<char>>::empty().push(base_name(d.files[k].path@)) =~= seq![
        base_name(d.files[k].path@),
    ]);
}

} // verus!
