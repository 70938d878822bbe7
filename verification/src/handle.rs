//! The handle a successful build yields: how to invoke the artifact,
//! the environment it runs with, and which files disposal must remove.
use vstd::prelude::*;

verus! {

/// Of the tracked paths, those that still exist and so must be removed:
/// `exists` gives, position by position, whether the path is present on
/// the filesystem.
pub open spec fn to_delete(paths: Seq<Seq<char>>, exists: Seq<bool>) -> Seq<Seq<char>>
    decreases paths.len(),
{
    if paths.len() == 0 || exists.len() == 0 {
        Seq::empty()
    } else {
        (if exists[0] {
            seq![paths[0]]
        } else {
            Seq::empty()
        }) + to_delete(paths.drop_first(), exists.drop_first())
    }
}

/// A compiled artifact ready to run: its path doubles as the command to
/// invoke, `env` is merged into the spawned process's environment, and
/// `cleanup` lists every temporary path disposal must remove.
pub struct RunHandle {
    /// The artifact's filesystem path, also the invocation command.
    pub output_path: String,
    /// The variable pairs the artifact runs with.
    pub env: Vec<(String, String)>,
    /// The paths to remove on disposal.
    pub cleanup: Vec<String>,
}

impl RunHandle {
    pub fn new(output_path: String, env: Vec<(String, String)>, cleanup: Vec<String>) -> (r:
        RunHandle)
        ensures
            r.output_path == output_path,
            r.env == env,
            r.cleanup == cleanup,
    {
        RunHandle { output_path, env, cleanup }
    }

    /// The artifact's path, read-only.
    pub fn output_path(&self) -> (r: &String)
        ensures
            r == self.output_path,
    {
        &self.output_path
    }

    /// The tracked paths that disposal must remove, given which of them
    /// still exist: exactly the existing ones, in list order. A path
    /// already absent — removed by hand, or by an earlier disposal — is
    /// never asked for again.
    pub fn dispose_list(&self, exists: &Vec<bool>) -> (r: Vec<String>)
        requires
            exists@.len() == self.cleanup@.len(),
        ensures
            r@.map_values(|p: String| p@) == to_delete(
                self.cleanup@.map_values(|p: String| p@),
                exists@,
            ),
    {
        let ghost cv = self.cleanup@.map_values(|p: String| p@);
        let n = self.cleanup.len();
        let mut r: Vec<String> = Vec::new();
        let mut i: usize = 0;
        proof {
            assert(cv.skip(0) =~= cv);
            assert(exists@.skip(0) =~= exists@);
            assert(r@.map_values(|p: String| p@) + to_delete(cv.skip(0), exists@.skip(0))
                =~= to_delete(cv, exists@));
        }
        while i < n
            invariant
                i <= n,
                n == self.cleanup@.len(),
                n == exists@.len(),
                cv == self.cleanup@.map_values(|p: String| p@),
                to_delete(cv, exists@) == r@.map_values(|p: String| p@) + to_delete(
                    cv.skip(i as int),
                    exists@.skip(i as int),
                ),
            decreases n - i,
        {
            proof {
                assert(cv.skip(i as int)[0] == cv[i as int]);
                assert(cv[i as int] == self.cleanup@[i as int]@);
                assert(exists@.skip(i as int)[0] == exists@[i as int]);
                assert(cv.skip(i as int).drop_first() =~= cv.skip(i + 1 as int));
                assert(exists@.skip(i as int).drop_first() =~= exists@.skip(i + 1 as int));
            }
            if exists[i] {
                let ghost before = r@.map_values(|p: String| p@);
                r.push(crate::text::clone_string(&self.cleanup[i]));
                proof {
                    assert(r@.map_values(|p: String| p@) =~= before + seq![cv[i as int]]);
                }
            }
            i = i + 1;
        }
        proof {
            assert(to_delete(cv.skip(n as int), exists@.skip(n as int))
                =~= Seq::<Seq<char>>::empty());
            assert(r@.map_values(|p: String| p@) + to_delete(cv.skip(n as int), exists@.skip(n as int))
                =~= r@.map_values(|p: String| p@));
        }
        r
    }
}

/// Disposal removes every tracked path that still exists: when all of
/// them exist, the whole cleanup list is removed.
pub proof fn lemma_dispose_removes_all(paths: Seq<Seq<char>>, exists: Seq<bool>)
    requires
        exists.len() == paths.len(),
        forall|i: int| 0 <= i < exists.len() ==> exists[i],
    ensures
        to_delete(paths, exists) == paths,
    decreases paths.len(),
{
    if paths.len() > 0 {
        lemma_dispose_removes_all(paths.drop_first(), exists.drop_first());
        assert(to_delete(paths, exists) =~= paths);
    } else {
        assert(to_delete(paths, exists) =~= paths);
    }
}

/// A second disposal — or a disposal after a path was removed by hand —
/// asks for none of the already-absent paths: with every path gone,
/// nothing is removed at all.
pub proof fn lemma_dispose_idempotent(paths: Seq<Seq<char>>, exists: Seq<bool>)
    requires
        exists.len() == paths.len(),
        forall|i: int| 0 <= i < exists.len() ==> !exists[i],
    ensures
        to_delete(paths, exists) == Seq::<Seq<char>>::empty(),
    decreases paths.len(),
{
    if paths.len() > 0 {
        lemma_dispose_idempotent(paths.drop_first(), exists.drop_first());
        assert(to_delete(paths, exists) =~= Seq::<Seq<char>>::empty());
    }
}

/// An absent path is never in the removal list, whatever the rest of
/// the cleanup list holds.
pub proof fn lemma_dispose_skips_absent(paths: Seq<Seq<char>>, exists: Seq<bool>, i: int)
    requires
        exists.len() == paths.len(),
        0 <= i < paths.len(),
        !exists[i],
        forall|j: int| 0 <= j < paths.len() && j != i ==> paths[j] != paths[i],
    ensures
        !to_delete(paths, exists).contains(paths[i]),
    decreases paths.len(),
{
    if i == 0 {
        lemma_not_in_delete(paths.drop_first(), exists.drop_first(), paths[0]);
    } else {
        lemma_dispose_skips_absent(paths.drop_first(), exists.drop_first(), i - 1);
        if exists[0] {
            assert(paths[0] != paths[i]);
        }
    }
}

/// A path that stands nowhere in the list is never in the removal list.
proof fn lemma_not_in_delete(paths: Seq<Seq<char>>, exists: Seq<bool>, p: Seq<char>)
    requires
        forall|j: int| 0 <= j < paths.len() ==> paths[j] != p,
    ensures
        !to_delete(paths, exists).contains(p),
    decreases paths.len(),
{
    if paths.len() > 0 && exists.len() > 0 {
        lemma_not_in_delete(paths.drop_first(), exists.drop_first(), p);
    }
}

} // verus!
