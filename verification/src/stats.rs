//! What a comparison comes to.
use vstd::prelude::*;

verus! {

/// What a comparison comes to.
#[derive(Clone, Copy, Debug, PartialEq, Eq, Structural)]
pub enum Verdict {
    Improved,
    Regressed,
    NoChange,
}

/// The verdict on a difference: none where it is within the noise; else it is an
/// improvement if it goes the better way.
pub open spec fn verdict_of(
    significant: bool,
    lower_is_better: bool,
    falls: bool,
    rises: bool,
) -> Verdict {
    if !significant {
        Verdict::NoChange
    } else if (lower_is_better && falls) || (!lower_is_better && rises) {
        Verdict::Improved
    } else {
        Verdict::Regressed
    }
}

/// The verdict on a difference. `significant` says that it is above the noise,
/// `falls` and `rises` which way the candidate differs from the base.
pub fn verdict(significant: bool, lower_is_better: bool, falls: bool, rises: bool) -> (r: Verdict)
    ensures
        r == verdict_of(significant, lower_is_better, falls, rises),
{
    if !significant {
        Verdict::NoChange
    } else if (lower_is_better && falls) || (!lower_is_better && rises) {
        Verdict::Improved
    } else {
        Verdict::Regressed
    }
}

/// What is within the noise is no change. What is not is an improvement exactly
/// where it goes the better way: down where lower is better, up where it is not.
pub proof fn law_verdict_goes_by_direction(
    significant: bool,
    lower_is_better: bool,
    falls: bool,
    rises: bool,
)
    ensures
        !significant <==> verdict_of(significant, lower_is_better, falls, rises) is NoChange,
        significant && lower_is_better ==> (falls <==> verdict_of(
            significant,
            lower_is_better,
            falls,
            rises,
        ) is Improved),
        significant && !lower_is_better ==> (rises <==> verdict_of(
            significant,
            lower_is_better,
            falls,
            rises,
        ) is Improved),
{
}

/// A metric turned round, with differences turned round too, gives the same
/// verdict.
pub proof fn law_verdict_is_symmetric(
    significant: bool,
    lower_is_better: bool,
    falls: bool,
    rises: bool,
)
    ensures
        verdict_of(significant, lower_is_better, falls, rises) == verdict_of(
            significant,
            !lower_is_better,
            rises,
            falls,
        ),
{
}

/// Base and candidate exchanged turn a significant verdict round, and leave one
/// within the noise.
pub proof fn law_exchange_turns_verdict(significant: bool, lower_is_better: bool, falls: bool)
    ensures
        ({
            let there = verdict_of(significant, lower_is_better, falls, !falls);
            let back = verdict_of(significant, lower_is_better, !falls, falls);
            match there {
                Verdict::Improved => back is Regressed,
                Verdict::Regressed => back is Improved,
                Verdict::NoChange => back is NoChange,
            }
        }),
{
}

} // verus!
