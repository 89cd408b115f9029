//! Trees of files and directories, and what is to do to make them.

use vstd::prelude::*;

verus! {

/// A file or a directory of a tree that is to be made.
#[derive(Debug, PartialEq)]
pub enum Entry {
    File { contents: &'static str },
    /// A directory: the names of what it holds, each with its entry.
    Dir { entries: Vec<(&'static str, Entry)> },
}

/// One thing to do when a tree is made. A path is given by the names that
/// lead to it from the place where the tree is rooted.
#[derive(Debug, PartialEq)]
#[allow(inconsistent_fields)]
pub enum Step {
    /// Write a file.
    Write { path: Vec<&'static str>, contents: &'static str },
    /// Create a directory.
    Create { path: Vec<&'static str> },
}

/// What a step says.
pub enum Task {
    Write { path: Seq<&'static str>, contents: &'static str },
    Create { path: Seq<&'static str> },
}

impl View for Step {
    type V = Task;

    open spec fn view(&self) -> Task {
        match self {
            Step::Write { path, contents } => Task::Write { path: path@, contents: *contents },
            Step::Create { path } => Task::Create { path: path@ },
        }
    }
}

/// What a row of steps says.
pub open spec fn tasks(steps: Seq<Step>) -> Seq<Task> {
    Seq::new(steps.len(), |i: int| steps[i]@)
}

impl Entry {
    /// What is to do to make the entry at `path`: a file is written; a
    /// directory is created, and then what it holds is made in it.
    pub open spec fn plan(&self, path: Seq<&'static str>) -> Seq<Task>
        decreases self,
    {
        match self {
            Entry::File { contents } => seq![Task::Write { path, contents: *contents }],
            Entry::Dir { entries } => seq![Task::Create { path }] + plan_all(
                entries@,
                path,
                entries@.len(),
            ),
        }
    }

    /// Appends what is to do to make the entry at `path`.
    pub fn instantiate(&self, path: &mut Vec<&'static str>, steps: &mut Vec<Step>)
        ensures
            final(path)@ == old(path)@,
            tasks(final(steps)@) == tasks(old(steps)@) + self.plan(old(path)@),
        decreases self,
    {
        match self {
            Entry::File { contents } => {
                steps.push(Step::Write { path: copy(path), contents: *contents });
                assert(tasks(steps@) =~= tasks(old(steps)@) + self.plan(old(path)@));
            },
            Entry::Dir { entries } => {
                steps.push(Step::Create { path: copy(path) });
                let ghost start = tasks(steps@);
                assert(start =~= tasks(old(steps)@) + seq![Task::Create { path: old(path)@ }]);
                let mut k: usize = 0;
                assert(start + plan_all(entries@, path@, 0) =~= start);
                while k < entries.len()
                    invariant
                        k <= entries.len(),
                        decreases_to!(self => entries),
                        path@ == old(path)@,
                        tasks(steps@) == start + plan_all(entries@, path@, k as nat),
                    decreases entries.len() - k,
                {
                    let ghost before = tasks(steps@);
                    let ghost here = path@;
                    path.push(entries[k].0);
                    assert(decreases_to!(entries => entries[k as int]));
                    assert(decreases_to!(entries[k as int] => entries[k as int].1));
                    entries[k].1.instantiate(path, steps);
                    path.pop();
                    assert(path@ =~= here);
                    assert(before + entries@[k as int].1.plan(here.push(entries@[k as int].0))
                        =~= start + plan_all(entries@, here, (k + 1) as nat));
                    k += 1;
                }
                assert(tasks(steps@) =~= tasks(old(steps)@) + self.plan(old(path)@));
            },
        }
    }

    /// What is to do to make a tree: each entry under its name, in the
    /// order in which the entries are given.
    pub fn instantiate_base(entries: &Vec<(&'static str, Entry)>) -> (steps: Vec<Step>)
        ensures
            tasks(steps@) == plan_all(entries@, Seq::empty(), entries@.len()),
    {
        let mut steps: Vec<Step> = Vec::new();
        let mut path: Vec<&'static str> = Vec::new();
        let mut k: usize = 0;
        assert(tasks(steps@) =~= plan_all(entries@, path@, 0));
        while k < entries.len()
            invariant
                k <= entries.len(),
                path@ == Seq::<&'static str>::empty(),
                tasks(steps@) == plan_all(entries@, path@, k as nat),
            decreases entries.len() - k,
        {
            let ghost before = tasks(steps@);
            path.push(entries[k].0);
            entries[k].1.instantiate(&mut path, &mut steps);
            path.pop();
            assert(path@ =~= Seq::<&'static str>::empty());
            assert(before + entries@[k as int].1.plan(Seq::empty().push(entries@[k as int].0))
                =~= plan_all(entries@, Seq::empty(), (k + 1) as nat));
            k += 1;
        }
        steps
    }
}

/// What is to do to make the first `n` of `entries` in the directory at
/// `path`.
pub open spec fn plan_all(
    entries: Seq<(&'static str, Entry)>,
    path: Seq<&'static str>,
    n: nat,
) -> Seq<Task>
    decreases entries, n,
{
    if n == 0 || n > entries.len() {
        Seq::empty()
    } else {
        plan_all(entries, path, (n - 1) as nat) + entries[n - 1].1.plan(
            path.push(entries[n - 1].0),
        )
    }
}

/// A copy of a path.
fn copy(path: &Vec<&'static str>) -> (r: Vec<&'static str>)
    ensures
        r@ == path@,
{
    let mut r: Vec<&'static str> = Vec::new();
    let mut i: usize = 0;
    while i < path.len()
        invariant
            i <= path.len(),
            r@ == path@.take(i as int),
        decreases path.len() - i,
    {
        r.push(path[i]);
        assert(r@ =~= path@.take(i + 1));
        i += 1;
    }
    assert(path@.take(i as int) =~= path@);
    r
}

} // verus!
