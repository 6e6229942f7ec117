//! Resolution of a command name against the directories of the search path.
//!
//! The file system is not read here. The caller looks at the candidate
//! `<directory>/<name>` in each directory of the search path, in order, and
//! hands over what it found; the choice among the candidates is made here.

use vstd::prelude::*;

verus! {

/// What the file system says of one candidate path.
#[derive(Debug)]
pub struct Candidate {
    /// The path, `<directory>/<name>`.
    pub path: String,
    /// Whether the path names a regular file.
    pub is_file: bool,
    /// The permission bits of the file; `None` where they cannot be read.
    pub mode: Option<u32>,
}

/// The mathematical value of a `Candidate`.
pub struct Found {
    pub path: Seq<char>,
    pub is_file: bool,
    pub mode: Option<u32>,
}

impl View for Candidate {
    type V = Found;

    open spec fn view(&self) -> Found {
        Found { path: self.path@, is_file: self.is_file, mode: self.mode }
    }
}

impl DeepView for Candidate {
    type V = Found;

    open spec fn deep_view(&self) -> Found {
        self@
    }
}

/// The permission bits grant execution to the owner, the group or the
/// others.
pub open spec fn executable(mode: Option<u32>) -> bool {
    match mode {
        Some(bits) => bits & 0o111 != 0,
        None => false,
    }
}

/// The candidate is a regular file that may be executed.
pub open spec fn usable(found: Found) -> bool {
    found.is_file && executable(found.mode)
}

/// The path of the first usable candidate, if there is one.
pub open spec fn resolve(candidates: Seq<Found>) -> Option<Seq<char>>
    decreases candidates.len(),
{
    if candidates.len() == 0 {
        None
    } else if usable(candidates[0]) {
        Some(candidates[0].path)
    } else {
        resolve(candidates.drop_first())
    }
}

/// `resolve` picks the first usable candidate: it finds a path exactly when
/// some candidate is usable, and the path is that of a usable candidate that
/// no usable candidate precedes.
pub proof fn lemma_resolve_first_usable(candidates: Seq<Found>)
    ensures
        resolve(candidates) is None <==> forall|k: int|
            0 <= k < candidates.len() ==> !usable(#[trigger] candidates[k]),
        resolve(candidates) is Some ==> exists|k: int|
            0 <= k < candidates.len() && usable(#[trigger] candidates[k]) && resolve(candidates)
                == Some(candidates[k].path) && forall|j: int|
                0 <= j < k ==> !usable(#[trigger] candidates[j]),
    decreases candidates.len(),
{
    if candidates.len() == 0 {
    } else if usable(candidates[0]) {
        assert(0 <= 0 < candidates.len() && usable(candidates[0]));
    } else {
        let rest = candidates.drop_first();
        lemma_resolve_first_usable(rest);
        assert forall|k: int| 0 <= k < rest.len() implies rest[k] == candidates[k + 1] by {}
        if resolve(rest) is Some {
            let k = choose|k: int|
                0 <= k < rest.len() && usable(#[trigger] rest[k]) && resolve(rest) == Some(
                    rest[k].path,
                ) && forall|j: int| 0 <= j < k ==> !usable(#[trigger] rest[j]);
            assert(usable(candidates[k + 1]));
            assert forall|j: int| 0 <= j < k + 1 implies !usable(#[trigger] candidates[j]) by {
                if j > 0 {
                    assert(rest[j - 1] == candidates[j]);
                }
            }
        } else {
            assert forall|k: int| 0 <= k < candidates.len() implies !usable(
                #[trigger] candidates[k],
            ) by {
                if k > 0 {
                    assert(rest[k - 1] == candidates[k]);
                }
            }
        }
    }
}

/// Whether a file with these permission bits may be executed: at least one
/// of the three execute bits is set. Permission bits that could not be read
/// grant nothing.
pub fn is_exec(mode: Option<u32>) -> (exec: bool)
    ensures
        exec == executable(mode),
{
    match mode {
        Some(bits) => bits & 0o111 != 0,
        None => false,
    }
}

/// Searches the candidates, in order, for a regular file that may be
/// executed. Returns whether one was found, and the path of the first.
pub fn check_ext_cmd(candidates: &Vec<Candidate>) -> (found: (bool, Option<String>))
    ensures
        found.0 == (resolve(candidates.deep_view()) is Some),
        match found.1 {
            Some(path) => resolve(candidates.deep_view()) == Some(path@),
            None => resolve(candidates.deep_view()) is None,
        },
{
    let ghost all = candidates.deep_view();
    let mut k: usize = 0;
    assert(all.skip(0) =~= all);
    while k < candidates.len()
        invariant
            k <= candidates.len(),
            all == candidates.deep_view(),
            resolve(all) == resolve(all.skip(k as int)),
        decreases candidates.len() - k,
    {
        let candidate = &candidates[k];
        assert(all.skip(k as int)[0] == candidate@);
        if candidate.is_file && is_exec(candidate.mode) {
            return (true, Some(candidate.path.clone()));
        }
        assert(all.skip(k as int).drop_first() =~= all.skip(k + 1));
        k += 1;
    }
    (false, None)
}

} // verus!
