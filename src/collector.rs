use vstd::prelude::*;

use crate::error::Error;

verus! {

/// Chapter and page discovery rooted at one base directory.
pub struct Collector {
    pub base_directory: String,
}

impl Collector {
    pub fn new(base_directory: &String) -> (r: Self)
        ensures
            r.base_directory@ == base_directory@,
    {
        Collector { base_directory: base_directory.clone() }
    }

    /// The paths for which the test answers `false`, in their order.
    pub fn check_path<F: Fn(&String) -> bool>(paths: &Vec<String>, test_case: F) -> (r: Result<
        Vec<String>,
        Error,
    >)
        requires
            forall|p: &String| #[trigger] test_case.requires((p,)),
        ensures
            r matches Ok(v) && exists|answers: Seq<bool>|
                #[trigger] answers.len() == paths@.len() && (forall|i: int|
                    0 <= i < paths@.len() ==> test_case.ensures((&paths@[i],), #[trigger] answers[i]))
                    && v@ == failing(paths@, answers),
    {
        let mut invalid: Vec<String> = Vec::new();
        let ghost mut answers: Seq<bool> = Seq::empty();
        let mut i: usize = 0;
        while i < paths.len()
            invariant
                i <= paths@.len(),
                forall|p: &String| #[trigger] test_case.requires((p,)),
                answers.len() == i,
                forall|k: int| 0 <= k < i ==> test_case.ensures((&paths@[k],), #[trigger] answers[k]),
                invalid@ == failing(paths@.subrange(0, i as int), answers),
            decreases paths@.len() - i,
        {
            let ok = test_case(&paths[i]);
            proof {
                let pre = paths@.subrange(0, i as int);
                assert(paths@.subrange(0, i + 1).drop_last() =~= pre);
                assert(answers.push(ok).drop_last() =~= answers);
                answers = answers.push(ok);
            }
            if !ok {
                invalid.push(paths[i].clone());
            }
            i = i + 1;
        }
        assert(paths@.subrange(0, paths@.len() as int) =~= paths@);
        Ok(invalid)
    }
}

/// The paths whose answer is `false`, in their order.
pub open spec fn failing(paths: Seq<String>, answers: Seq<bool>) -> Seq<String>
    decreases paths.len(),
{
    if paths.len() == 0 || answers.len() != paths.len() {
        Seq::empty()
    } else if answers.last() {
        failing(paths.drop_last(), answers.drop_last())
    } else {
        failing(paths.drop_last(), answers.drop_last()).push(paths.last())
    }
}

} // verus!
