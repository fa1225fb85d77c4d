use crate::dto::MusicDir;
use vstd::prelude::*;

verus! {

/// What a worker does after its wait for a pending directory timed out.
#[derive(Debug, Clone, PartialEq, Eq)]
pub enum WorkerStep {
    /// Every worker of the pool is idle: no directory is pending and none can
    /// be added any more, so the worker leaves.
    Exit,
    /// Some other worker is still probing and may hand out subdirectories, so
    /// the worker marks itself busy again and waits once more.
    Retry,
}

/// The number of workers: the machine's parallelism where it is known (and
/// not zero), else one.
pub fn pool_size(available: Option<usize>) -> (r: usize)
    ensures
        r >= 1,
        match available {
            Some(n) => n >= 1 ==> r == n,
            None => r == 1,
        },
{
    match available {
        Some(n) => if n >= 1 {
            n
        } else {
            1
        },
        None => 1,
    }
}

/// The decision of a worker whose wait timed out, where `idle_now` is the count
/// of idle workers right after it counted itself in, and `pool_size` the
/// number of workers.
pub fn after_timeout(idle_now: usize, pool_size: usize) -> (r: WorkerStep)
    ensures
        (r is Exit) <==> idle_now == pool_size,
{
    if idle_now == pool_size {
        WorkerStep::Exit
    } else {
        WorkerStep::Retry
    }
}

/// The position of the first failure among `results`, if any.
pub open spec fn is_first_failure(results: Seq<Result<MusicDir, String>>, k: int) -> bool {
    &&& 0 <= k < results.len()
    &&& results[k] is Err
    &&& forall|j: int| 0 <= j < k ==> (#[trigger] results[j]) is Ok
}

/// Gathers what the workers reported: every directory in the order reported
/// when no probe failed, else the first failure.
pub fn collect_results(results: Vec<Result<MusicDir, String>>) -> (r: Result<Vec<MusicDir>, String>)
    ensures
        match r {
            Ok(dirs) => {
                &&& forall|j: int| 0 <= j < results@.len() ==> (#[trigger] results@[j]) is Ok
                &&& dirs@.len() == results@.len()
                &&& forall|j: int| 0 <= j < results@.len() ==> results@[j] == Ok::<MusicDir, String>(#[trigger] dirs@[j])
            },
            Err(e) => exists|k: int| is_first_failure(results@, k) && results@[k] == Err::<MusicDir, String>(e),
        },
{
    let ghost rs = results@;
    let total = results.len();
    let mut rest = results;
    let mut dirs: Vec<MusicDir> = Vec::new();
    let mut i: usize = 0;
    while rest.len() > 0
        invariant
            rs == results@,
            rs.len() == total,
            i <= total,
            rest@ == rs.subrange(i as int, rs.len() as int),
            dirs@.len() == i,
            forall|j: int| 0 <= j < i ==> (#[trigger] rs[j]) is Ok,
            forall|j: int| 0 <= j < i ==> rs[j] == Ok::<MusicDir, String>(#[trigger] dirs@[j]),
        decreases rest@.len(),
    {
        let result = rest.remove(0);
        assert(result == rs[i as int]);
        match result {
            Ok(dir) => {
                dirs.push(dir);
                assert(rs[i as int] is Ok);
            },
            Err(e) => {
                assert(is_first_failure(rs, i as int));
                return Err(e);
            },
        }
        i = i + 1;
    }
    Ok(dirs)
}

} // verus!
