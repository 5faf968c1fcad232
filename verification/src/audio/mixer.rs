//! Which mixer channels are heard: the solo rule.

use vstd::prelude::*;

verus! {

/// Whether any channel is soloed.
pub open spec fn any_solo(solo: Seq<bool>) -> bool {
    exists|j: int| 0 <= j < solo.len() && #[trigger] solo[j]
}

/// The channels that take part in the mix: every channel while none is
/// soloed, otherwise exactly the soloed ones. (A muted channel takes part
/// with zero gain.)
pub fn audible_channels(solo: &Vec<bool>) -> (heard: Vec<bool>)
    ensures
        heard.len() == solo.len(),
        forall|i: int| 0 <= i < solo.len() ==> #[trigger] heard[i] == (!any_solo(solo@) || solo[i]),
{
    let mut has_solo = false;
    let mut i: usize = 0;
    while i < solo.len()
        invariant
            i <= solo.len(),
            has_solo == exists|j: int| 0 <= j < i && #[trigger] solo[j],
        decreases solo.len() - i,
    {
        if solo[i] {
            has_solo = true;
        }
        i = i + 1;
    }
    let mut heard: Vec<bool> = Vec::new();
    let mut k: usize = 0;
    while k < solo.len()
        invariant
            k <= solo.len(),
            has_solo == any_solo(solo@),
            heard.len() == k,
            forall|i: int| 0 <= i < k ==> #[trigger] heard[i] == (!any_solo(solo@) || solo[i]),
        decreases solo.len() - k,
    {
        heard.push(!has_solo || solo[k]);
        k = k + 1;
    }
    heard
}

} // verus!
