//! Who may talk to the bot: policies and allowlists.

use vstd::prelude::*;

use crate::text;

verus! {

/// Who may send direct messages.
#[derive(Debug, Clone, Copy, PartialEq, Eq, Structural)]
pub enum DmPolicy {
    /// Nobody.
    Disabled,
    /// Everybody.
    Open,
    /// Those on the allowlist.
    Allowlist,
}

/// In which channels the bot answers.
#[derive(Debug, Clone, Copy, PartialEq, Eq, Structural)]
pub enum GroupPolicy {
    /// In none.
    Disabled,
    /// In all.
    Open,
    /// In those on the allowlist.
    Allowlist,
}

/// Which messages of a channel the bot answers.
#[derive(Debug, Clone, Copy, PartialEq, Eq, Structural)]
pub enum MentionMode {
    /// All.
    Always,
    /// None.
    Never,
    /// Those that mention it.
    Mention,
}

impl Default for DmPolicy {
    fn default() -> (r: Self)
        ensures
            r == DmPolicy::Open,
    {
        DmPolicy::Open
    }
}

impl Default for GroupPolicy {
    fn default() -> (r: Self)
        ensures
            r == GroupPolicy::Open,
    {
        GroupPolicy::Open
    }
}

impl Default for MentionMode {
    fn default() -> (r: Self)
        ensures
            r == MentionMode::Mention,
    {
        MentionMode::Mention
    }
}

/// Whether `id` is on the list, letter for letter.
pub open spec fn listed(id: Seq<char>, list: Seq<String>) -> bool {
    exists|i: int| 0 <= i < list.len() && (#[trigger] list[i])@ == id
}

/// Whether `id` is on the list, letter for letter.
pub fn is_allowed(id: &str, list: &Vec<String>) -> (r: bool)
    ensures
        r == listed(id@, list@),
{
    let n: usize = list.len();
    let mut i: usize = 0;
    while i < n
        invariant
            n == list@.len(),
            i <= n,
            forall|j: int| 0 <= j < i ==> (#[trigger] list@[j])@ != id@,
        decreases n - i,
    {
        if text::same_text(list[i].as_str(), id) {
            return true;
        }
        i = i + 1;
    }
    false
}

} // verus!
