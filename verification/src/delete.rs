//! Deleting files picked in the analyzer. Each path is re-checked with the
//! classifier, the safety gate: paths not classified `Safe` are rejected
//! into the errors and never handed out for removal. The removal itself is
//! the caller's; it reports each outcome back.
use vstd::prelude::*;
use crate::classify::{classify, spec_classify};
use crate::models::{CleanAdvice, DeleteResult};

verus! {

/// Prefix of the error recorded for a path that is not safe to delete.
pub const REJECT_PREFIX: &'static str = "拒绝删除(非安全类): ";

/// What the caller is to do next.
pub enum DeleteStep {
    /// The path was not safe to delete and was recorded as an error.
    Rejected,
    /// Remove this file (it is classified `Safe`) and report the outcome.
    Remove(String),
    /// Every path has been processed.
    Finished,
}

/// The outcome of removing one file.
pub enum RemoveOutcome {
    /// The file of this size was removed.
    Removed(u64),
    /// Reading its size or removing it failed with this message.
    Failed(String),
}

/// A deletion run over a list of paths.
pub struct DeleteRun {
    paths: Vec<String>,
    next: usize,
    pending: Option<String>,
    result: DeleteResult,
}

/// The error recorded for a rejected path.
pub open spec fn rejection(path: Seq<char>) -> Seq<char> {
    REJECT_PREFIX@ + path
}

/// The error recorded for a path whose removal failed.
pub open spec fn failure(path: Seq<char>, msg: Seq<char>) -> Seq<char> {
    path + ": "@ + msg
}

impl DeleteRun {
    pub closed spec fn paths(&self) -> Seq<Seq<char>> {
        self.paths@.map_values(|p: String| p@)
    }

    /// How many paths have been taken from the list.
    pub closed spec fn position(&self) -> nat {
        self.next as nat
    }

    /// The path handed out for removal and not yet reported, if any.
    pub closed spec fn pending(&self) -> Option<Seq<char>> {
        match self.pending {
            Some(p) => Some(p@),
            None => None,
        }
    }

    pub closed spec fn deleted_count(&self) -> u64 {
        self.result.deleted_count
    }

    pub closed spec fn freed_bytes(&self) -> u64 {
        self.result.freed_bytes
    }

    pub closed spec fn errors(&self) -> Seq<Seq<char>> {
        self.result.errors@.map_values(|e: String| e@)
    }

    pub closed spec fn wf(&self) -> bool {
        &&& self.next <= self.paths.len()
        &&& self.result.deleted_count + self.result.errors.len() + (if self.pending is Some {
            1int
        } else {
            0int
        }) == self.next
    }

    /// Start a run over `paths`.
    pub fn new(paths: Vec<String>) -> (r: Self)
        ensures
            r.wf(),
            r.paths() == paths@.map_values(|p: String| p@),
            r.position() == 0,
            r.pending() is None,
            r.deleted_count() == 0,
            r.freed_bytes() == 0,
            r.errors() == Seq::<Seq<char>>::empty(),
    {
        let r = DeleteRun {
            paths,
            next: 0,
            pending: None,
            result: DeleteResult { deleted_count: 0, freed_bytes: 0, errors: Vec::new() },
        };
        assert(r.errors() =~= Seq::<Seq<char>>::empty());
        r
    }

    /// Take the next path: reject it when it is not classified `Safe`, or
    /// hand it out for removal.
    pub fn next_step(&mut self) -> (step: DeleteStep)
        requires
            old(self).wf(),
            old(self).pending() is None,
        ensures
            final(self).wf(),
            final(self).paths() == old(self).paths(),
            final(self).deleted_count() == old(self).deleted_count(),
            final(self).freed_bytes() == old(self).freed_bytes(),
            old(self).position() == old(self).paths().len() ==> {
                &&& step is Finished
                &&& final(self).position() == old(self).position()
                &&& final(self).pending() is None
                &&& final(self).errors() == old(self).errors()
            },
            old(self).position() < old(self).paths().len() ==> {
                let p = old(self).paths()[old(self).position() as int];
                &&& final(self).position() == old(self).position() + 1
                &&& spec_classify(p).0 != CleanAdvice::Safe ==> {
                    &&& step is Rejected
                    &&& final(self).pending() is None
                    &&& final(self).errors() == old(self).errors().push(rejection(p))
                }
                &&& spec_classify(p).0 == CleanAdvice::Safe ==> {
                    &&& step matches DeleteStep::Remove(q) && q@ == p
                    &&& final(self).pending() == Some(p)
                    &&& final(self).errors() == old(self).errors()
                }
            },
            step matches DeleteStep::Remove(q) ==> spec_classify(q@).0 == CleanAdvice::Safe,
    {
        if self.next == self.paths.len() {
            return DeleteStep::Finished;
        }
        let path = self.paths[self.next].clone();
        self.next = self.next + 1;
        let (advice, _) = classify(path.as_str());
        if advice != CleanAdvice::Safe {
            let mut msg = REJECT_PREFIX.to_owned();
            msg.append(path.as_str());
            let ghost before = self.result.errors@;
            self.result.errors.push(msg);
            assert(self.errors() =~= before.map_values(|e: String| e@).push(rejection(path@)));
            DeleteStep::Rejected
        } else {
            self.pending = Some(path.clone());
            DeleteStep::Remove(path)
        }
    }

    /// Record the outcome of removing the pending path.
    pub fn report(&mut self, outcome: RemoveOutcome)
        requires
            old(self).wf(),
            old(self).pending() is Some,
            outcome matches RemoveOutcome::Removed(size) ==> old(self).freed_bytes() + size
                <= u64::MAX && old(self).deleted_count() < u64::MAX,
        ensures
            final(self).wf(),
            final(self).paths() == old(self).paths(),
            final(self).position() == old(self).position(),
            final(self).pending() is None,
            match outcome {
                RemoveOutcome::Removed(size) => {
                    &&& final(self).deleted_count() == old(self).deleted_count() + 1
                    &&& final(self).freed_bytes() == old(self).freed_bytes() + size
                    &&& final(self).errors() == old(self).errors()
                },
                RemoveOutcome::Failed(msg) => {
                    &&& final(self).deleted_count() == old(self).deleted_count()
                    &&& final(self).freed_bytes() == old(self).freed_bytes()
                    &&& final(self).errors() == old(self).errors().push(
                        failure(old(self).pending()->0, msg@),
                    )
                },
            },
    {
        let path = match self.pending.take() {
            Some(p) => p,
            None => String::new(),
        };
        match outcome {
            RemoveOutcome::Removed(size) => {
                self.result.deleted_count = self.result.deleted_count + 1;
                self.result.freed_bytes = self.result.freed_bytes + size;
            },
            RemoveOutcome::Failed(msg) => {
                let mut e = path;
                e.append(": ");
                e.append(msg.as_str());
                let ghost before = self.result.errors@;
                self.result.errors.push(e);
                assert(self.errors() =~= before.map_values(|e: String| e@).push(e@));
            },
        }
    }

    /// `(deleted, total, freed_bytes)` for progress reports.
    pub fn progress(&self) -> (r: (u64, u64, u64))
        ensures
            r.0 == self.deleted_count(),
            r.1 == self.paths().len() as u64,
            r.2 == self.freed_bytes(),
    {
        (self.result.deleted_count, self.paths.len() as u64, self.result.freed_bytes)
    }

    /// The result of the run. Once every path has been taken and reported,
    /// each path counts either as deleted or as one error.
    pub fn finish(self) -> (r: DeleteResult)
        requires
            self.wf(),
        ensures
            self.position() == self.paths().len() && self.pending() is None ==> r.deleted_count
                + r.errors.len() == self.paths().len(),
            r.deleted_count == self.deleted_count(),
            r.freed_bytes == self.freed_bytes(),
            r.errors@.map_values(|e: String| e@) == self.errors(),
    {
        self.result
    }
}

} // verus!
