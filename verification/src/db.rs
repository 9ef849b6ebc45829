//! The result-store collaborator.
//!
//! The engine persists finished attempts and reads attempt history through
//! the [`Database`] trait. The spec function `spec_marks` models the whole
//! store as a map from (user, test) to the sequence of recorded marks, so
//! the engine's contracts can say exactly when a mark is appended and that
//! nothing else ever changes.

use vstd::prelude::*;

use crate::score::Score;

verus! {

/// What the examiner needs from the persistent mark store.
/// Implementations live outside the verified crate (a file-backed store, a
/// test double); their contracts tie each call to the spec view of the
/// store's contents.
pub trait Database: Sized {
    /// The marks recorded so far for one user on one test, oldest first.
    /// Left at its default, the spec view is unspecified; implementations
    /// inside the verifier override it.
    open spec fn spec_marks(&self, username: Seq<char>, testname: Seq<char>) -> Seq<Score> {
        arbitrary()
    }

    /// The number of finished attempts: one mark is recorded per attempt,
    /// so the attempt count is the length of the mark history.
    fn attempts_counter(&mut self, username: &String, testname: &String) -> (r: u32)
        ensures
            r as nat == old(self).spec_marks(username@, testname@).len(),
            forall|u: Seq<char>, t: Seq<char>| #[trigger]
                final(self).spec_marks(u, t) == old(self).spec_marks(u, t),
    ;

    /// The recorded marks for one user on one test.
    fn marks(&mut self, username: &String, testname: &String) -> (r: Vec<Score>)
        ensures
            r@ == old(self).spec_marks(username@, testname@),
            forall|u: Seq<char>, t: Seq<char>| #[trigger]
                final(self).spec_marks(u, t) == old(self).spec_marks(u, t),
    ;

    /// Appends one finished attempt's mark, with its start and end
    /// timestamps. Returns whether persisting succeeded; on failure the
    /// store is unchanged, so the caller can retry later.
    fn append_mark(
        &mut self,
        username: &String,
        testname: &String,
        mark: &Score,
        start_timestamp: &String,
        end_timestamp: &String,
    ) -> (ok: bool)
        ensures
            ok ==> final(self).spec_marks(username@, testname@) == old(self).spec_marks(
                username@,
                testname@,
            ).push(*mark),
            ok ==> forall|u: Seq<char>, t: Seq<char>|
                !(u == username@ && t == testname@) ==> #[trigger] final(self).spec_marks(u, t)
                    == old(self).spec_marks(u, t),
            !ok ==> forall|u: Seq<char>, t: Seq<char>| #[trigger]
                final(self).spec_marks(u, t) == old(self).spec_marks(u, t),
    ;
}

} // verus!
