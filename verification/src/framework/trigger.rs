//! Triggers: handlers run on messages that match a regex.

use vstd::prelude::*;
use crate::util::regex::{regex_matches, CompiledRegex, SettingsView};
use crate::util::{lemma_same_multiset_contains, random_order};

verus! {

/// Attributes of a trigger.
#[derive(Clone, Copy, Debug, PartialEq, Eq)]
pub enum TriggerAttr {
    /// Use this attribute for triggers that should trigger even on messages that aren't
    /// addressed to the bot.
    AlwaysWatching,
}

/// The priority of a trigger; triggers of higher priority are tried first.
#[derive(Clone, Copy, Debug, PartialEq, Eq, PartialOrd, Ord, Hash)]
pub enum TriggerPriority {
    /// Minimum priority.
    Minimum,
    /// Low priority, appropriate for playful or otherwise non-serious triggers.
    Low,
    /// Medium priority.
    Medium,
    /// High priority, appropriate for triggers that implement important functionality.
    High,
    /// Maximum priority.
    Maximum,
}

/// The rank of a priority: higher priorities have higher ranks.
pub open spec fn priority_rank(p: TriggerPriority) -> int {
    match p {
        TriggerPriority::Minimum => 0,
        TriggerPriority::Low => 1,
        TriggerPriority::Medium => 2,
        TriggerPriority::High => 3,
        TriggerPriority::Maximum => 4,
    }
}

/// Priorities rank in the order in which they are declared, from `Minimum` up to `Maximum`, so
/// that the trigger picked for a message (see [`find_matching_trigger`]) has no matching rival
/// of a later-declared priority.
pub proof fn lemma_priority_rank_follows_declaration()
    ensures
        priority_rank(TriggerPriority::Minimum) < priority_rank(TriggerPriority::Low),
        priority_rank(TriggerPriority::Low) < priority_rank(TriggerPriority::Medium),
        priority_rank(TriggerPriority::Medium) < priority_rank(TriggerPriority::High),
        priority_rank(TriggerPriority::High) < priority_rank(TriggerPriority::Maximum),
{
}

fn rank_of(p: TriggerPriority) -> (r: u8)
    ensures
        r == priority_rank(p),
{
    match p {
        TriggerPriority::Minimum => 0,
        TriggerPriority::Low => 1,
        TriggerPriority::Medium => 2,
        TriggerPriority::High => 3,
        TriggerPriority::Maximum => 4,
    }
}

/// A loaded trigger.
#[derive(Debug)]
pub struct Trigger {
    /// The trigger's name.
    pub name: String,
    /// The name of the module that provides the trigger.
    pub provider: String,
    /// The pattern of the messages that the trigger answers.
    pub regex: CompiledRegex,
    /// The trigger's priority.
    pub priority: TriggerPriority,
    /// The trigger's help message.
    pub help_msg: String,
}

/// A loaded trigger as a mathematical value.
pub ghost struct TriggerView {
    pub name: Seq<char>,
    pub provider: Seq<char>,
    pub settings: SettingsView,
    pub priority: TriggerPriority,
    pub help_msg: Seq<char>,
}

impl View for Trigger {
    type V = TriggerView;

    open spec fn view(&self) -> TriggerView {
        TriggerView {
            name: self.name@,
            provider: self.provider@,
            settings: self.regex.settings(),
            priority: self.priority,
            help_msg: self.help_msg@,
        }
    }
}

/// Whether a loaded trigger answers the message text `text`.
pub open spec fn view_matches(t: TriggerView, text: Seq<char>) -> bool {
    regex_matches(t.settings.pattern, t.settings.case_insensitive, t.settings.size_limit, text)
}

/// Whether `r` is a pick of a trigger for the message text `text` among the loaded triggers
/// `ts`: one that answers it, of the highest priority among those that do; `None` where none
/// does.
pub open spec fn trigger_pick(ts: Seq<TriggerView>, text: Seq<char>, r: Option<usize>) -> bool {
    match r {
        None => forall|j: int| 0 <= j < ts.len() ==> !view_matches(#[trigger] ts[j], text),
        Some(i) => {
            &&& i < ts.len()
            &&& view_matches(ts[i as int], text)
            &&& forall|j: int| 0 <= j < ts.len() && view_matches(#[trigger] ts[j], text)
                ==> priority_rank(ts[j].priority) <= priority_rank(ts[i as int].priority)
        },
    }
}

/// Whether the trigger `t` answers the message text `text`.
pub open spec fn trigger_matches(t: Trigger, text: Seq<char>) -> bool {
    t.regex.matches(text)
}

/// Picks the trigger to run on the message text `text`: one whose regex matches it, of the
/// highest priority among those that match, chosen at random among the matching triggers of that
/// priority; `None` if no trigger matches.
pub fn find_matching_trigger(triggers: &[Trigger], text: &str) -> (r: Option<usize>)
    ensures
        match r {
            None => forall|j: int| 0 <= j < triggers@.len() ==> !trigger_matches(#[trigger] triggers@[j], text@),
            Some(i) => {
                &&& i < triggers@.len()
                &&& trigger_matches(triggers@[i as int], text@)
                &&& forall|j: int| 0 <= j < triggers@.len() && trigger_matches(#[trigger] triggers@[j], text@)
                    ==> priority_rank(triggers@[j].priority) <= priority_rank(triggers@[i as int].priority)
            },
        },
{
    let n = triggers.len();
    let mut level: u8 = 5;
    while level > 0
        invariant
            n == triggers@.len(),
            level <= 5,
            forall|j: int| 0 <= j < n && priority_rank(triggers@[j].priority) >= level
                ==> !trigger_matches(#[trigger] triggers@[j], text@),
        decreases level,
    {
        level = level - 1;
        let mut idx: Vec<usize> = Vec::new();
        let mut i: usize = 0;
        while i < n
            invariant
                n == triggers@.len(),
                i <= n,
                forall|k: int| 0 <= k < idx@.len() ==> #[trigger] idx@[k] < n && priority_rank(triggers@[idx@[k] as int].priority) == level,
                forall|j: int| 0 <= j < i && priority_rank(triggers@[j].priority) == level ==> #[trigger] idx@.contains(j as usize),
            decreases n - i,
        {
            let ghost before = idx@;
            if rank_of(triggers[i].priority) == level {
                idx.push(i);
                assert(idx@ == before.push(i));
            }
            assert forall|j: int| 0 <= j < i + 1 && priority_rank(triggers@[j].priority) == level
                implies #[trigger] idx@.contains(j as usize) by {
                if j == i {
                    assert(idx@[idx@.len() - 1] == i);
                } else {
                    assert(before.contains(j as usize));
                    let m = choose|m: int| 0 <= m < before.len() && before[m] == j as usize;
                    assert(idx@[m] == before[m]);
                }
            }
            i += 1;
        }
        let order = random_order(idx.as_slice());
        let mut k: usize = 0;
        while k < order.len()
            invariant
                n == triggers@.len(),
                order@.to_multiset() == idx@.to_multiset(),
                forall|m: int| 0 <= m < idx@.len() ==> #[trigger] idx@[m] < n && priority_rank(triggers@[idx@[m] as int].priority) == level,
                k <= order@.len(),
                forall|j: int| 0 <= j < n && priority_rank(triggers@[j].priority) > level
                    ==> !trigger_matches(#[trigger] triggers@[j], text@),
                forall|m: int| 0 <= m < k ==> !trigger_matches(triggers@[#[trigger] order@[m] as int], text@),
            decreases order@.len() - k,
        {
            let t = order[k];
            proof {
                lemma_same_multiset_contains(order@, idx@, t);
                assert(order@.contains(t));
            }
            if triggers[t].regex.is_match(text) {
                assert(trigger_matches(triggers@[t as int], text@));
                return Some(t);
            }
            k += 1;
        }
        assert forall|j: int| 0 <= j < n && priority_rank(triggers@[j].priority) >= level
            implies !trigger_matches(#[trigger] triggers@[j], text@) by {
            if priority_rank(triggers@[j].priority) == level {
                assert(idx@.contains(j as usize));
                lemma_same_multiset_contains(order@, idx@, j as usize);
                let m = choose|m: int| 0 <= m < order@.len() && order@[m] == j as usize;
                assert(order@[m] == j as usize);
            }
        }
    }
    None
}

} // verus!
