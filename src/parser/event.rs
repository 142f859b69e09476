use vstd::prelude::*;

use crate::parser::parse_error::ParseError;
use crate::syntax::SyntaxKind;

verus! {

/// One step of the parser's output, from which the tree is built afterwards.
#[derive(Debug, Clone, PartialEq, Eq)]
pub enum Event {
    /// Opens a node. With a forward parent, the event that many places further on opens
    /// a node that encloses this one.
    StartNode { kind: SyntaxKind, forward_parent: Option<usize> },
    /// Moves the next non-trivia token into the open node.
    AddToken,
    /// Closes the innermost open node.
    FinishNode,
    /// Records a diagnostic.
    Error(ParseError),
    /// The slot of a node that has been started and not yet completed.
    Placeholder,
}

/// The diagnostics among `evs`, in order.
pub open spec fn error_list(evs: Seq<Event>) -> Seq<ParseError>
    decreases evs.len(),
{
    if evs.len() == 0 {
        seq![]
    } else {
        error_list(evs.drop_last()) + match evs.last() {
            Event::Error(e) => seq![e],
            _ => seq![],
        }
    }
}

/// How an event changes the number of open nodes.
pub open spec fn delta(e: Event) -> int {
    match e {
        Event::StartNode { .. } => 1,
        Event::Placeholder => 1,
        Event::FinishNode => -1,
        _ => 0,
    }
}

/// The number of nodes left open after `evs`.
pub open spec fn depth(evs: Seq<Event>) -> int
    decreases evs.len(),
{
    if evs.len() == 0 {
        0
    } else {
        depth(evs.drop_last()) + delta(evs.last())
    }
}

/// The number of nodes started in `evs` and not yet completed.
pub open spec fn placeholders(evs: Seq<Event>) -> int
    decreases evs.len(),
{
    if evs.len() == 0 {
        0
    } else {
        placeholders(evs.drop_last()) + if evs.last() is Placeholder {
            1int
        } else {
            0int
        }
    }
}

/// The number of tokens that `evs` move into the tree.
pub open spec fn add_tokens(evs: Seq<Event>) -> int
    decreases evs.len(),
{
    if evs.len() == 0 {
        0
    } else {
        add_tokens(evs.drop_last()) + if evs.last() is AddToken {
            1int
        } else {
            0int
        }
    }
}

/// No prefix of `evs` closes more nodes than it opens.
pub open spec fn never_underflows(evs: Seq<Event>) -> bool {
    forall|k: int| 0 <= k <= evs.len() ==> #[trigger] depth(evs.take(k)) >= 0
}

/// Every node that `evs` opens is closed, never before it is opened, and every started
/// node has been completed.
pub open spec fn balanced(evs: Seq<Event>) -> bool {
    &&& never_underflows(evs)
    &&& depth(evs) == 0
    &&& placeholders(evs) == 0
}

/// The events of a parse in progress: the nodes still open are exactly those started and
/// not yet completed.
pub open spec fn events_ok(evs: Seq<Event>) -> bool {
    &&& never_underflows(evs)
    &&& keeps_started_open(evs)
    &&& depth(evs) == placeholders(evs)
}

/// No prefix of `evs` closes a node that was started and is not yet completed.
pub open spec fn keeps_started_open(evs: Seq<Event>) -> bool {
    forall|k: int| 0 <= k <= evs.len() ==> #[trigger] depth(evs.take(k)) >= placeholders(evs.take(k))
}

pub proof fn lemma_push(evs: Seq<Event>, e: Event)
    ensures
        depth(evs.push(e)) == depth(evs) + delta(e),
        placeholders(evs.push(e)) == placeholders(evs) + if e is Placeholder {
            1int
        } else {
            0int
        },
        add_tokens(evs.push(e)) == add_tokens(evs) + if e is AddToken {
            1int
        } else {
            0int
        },
        forall|k: int| 0 <= k <= evs.len() ==> #[trigger] evs.push(e).take(k) == evs.take(k),
        evs.push(e).take(evs.len() as int + 1) == evs.push(e),
{
    assert(evs.push(e).drop_last() =~= evs);
    assert forall|k: int| 0 <= k <= evs.len() implies #[trigger] evs.push(e).take(k) == evs.take(
        k,
    ) by {
        assert(evs.push(e).take(k) =~= evs.take(k));
    }
    assert(evs.push(e).take(evs.len() as int + 1) =~= evs.push(e));
}

pub proof fn lemma_placeholders_nonneg(evs: Seq<Event>)
    ensures
        placeholders(evs) >= 0,
        forall|i: int| 0 <= i < evs.len() && evs[i] is Placeholder ==> placeholders(evs) >= 1,
    decreases evs.len(),
{
    if evs.len() > 0 {
        lemma_placeholders_nonneg(evs.drop_last());
        assert forall|i: int| 0 <= i < evs.len() && evs[i] is Placeholder implies placeholders(
            evs,
        ) >= 1 by {
            if i < evs.len() - 1 {
                assert(evs.drop_last()[i] == evs[i]);
            }
        }
    }
}

/// Replacing an event by one with the same effect on the open nodes changes no depth;
/// filling a placeholder removes it from the count.
pub proof fn lemma_update(evs: Seq<Event>, pos: int, e: Event)
    requires
        0 <= pos < evs.len(),
        delta(evs[pos]) == delta(e),
    ensures
        forall|k: int| 0 <= k <= evs.len() ==> #[trigger] depth(evs.update(pos, e).take(k)) == depth(
            evs.take(k),
        ),
        placeholders(evs.update(pos, e)) == placeholders(evs) + (if e is Placeholder {
            1int
        } else {
            0int
        }) - (if evs[pos] is Placeholder {
            1int
        } else {
            0int
        }),
        !(evs[pos] is AddToken) && !(e is AddToken) ==> add_tokens(evs.update(pos, e))
            == add_tokens(evs),
    decreases evs.len(),
{
    let u = evs.update(pos, e);
    assert forall|k: int| 0 <= k <= evs.len() implies #[trigger] depth(u.take(k)) == depth(
        evs.take(k),
    ) by {
        lemma_update_depth(evs, pos, e, k);
    }
    if pos < evs.len() - 1 {
        lemma_update(evs.drop_last(), pos, e);
        assert(u.drop_last() =~= evs.drop_last().update(pos, e));
    } else {
        assert(u.drop_last() =~= evs.drop_last());
    }
}

proof fn lemma_update_depth(evs: Seq<Event>, pos: int, e: Event, k: int)
    requires
        0 <= pos < evs.len(),
        delta(evs[pos]) == delta(e),
        0 <= k <= evs.len(),
    ensures
        depth(evs.update(pos, e).take(k)) == depth(evs.take(k)),
    decreases k,
{
    let u = evs.update(pos, e);
    if k > 0 {
        lemma_update_depth(evs, pos, e, k - 1);
        assert(u.take(k).drop_last() =~= u.take(k - 1));
        assert(evs.take(k).drop_last() =~= evs.take(k - 1));
    }
}

proof fn lemma_update_placeholders(evs: Seq<Event>, pos: int, e: Event, k: int)
    requires
        0 <= pos < evs.len(),
        !(e is Placeholder),
        0 <= k <= evs.len(),
    ensures
        placeholders(evs.update(pos, e).take(k)) <= placeholders(evs.take(k)),
    decreases k,
{
    let u = evs.update(pos, e);
    if k > 0 {
        lemma_update_placeholders(evs, pos, e, k - 1);
        assert(u.take(k).drop_last() =~= u.take(k - 1));
        assert(evs.take(k).drop_last() =~= evs.take(k - 1));
    }
}

/// Replacing an event by a non-placeholder with the same effect on the open nodes keeps
/// every started node open in every prefix.
pub proof fn lemma_update_keeps_open(evs: Seq<Event>, pos: int, e: Event)
    requires
        0 <= pos < evs.len(),
        delta(evs[pos]) == delta(e),
        !(e is Placeholder),
        keeps_started_open(evs),
    ensures
        keeps_started_open(evs.update(pos, e)),
{
    assert forall|k: int| 0 <= k <= evs.len() implies #[trigger] depth(evs.update(pos, e).take(k))
        >= placeholders(evs.update(pos, e).take(k)) by {
        lemma_update_depth(evs, pos, e, k);
        lemma_update_placeholders(evs, pos, e, k);
    }
}

/// A prefix that holds a placeholder has at least one started node.
pub proof fn lemma_placeholder_in_prefix(evs: Seq<Event>, i: int, k: int)
    requires
        0 <= i < k <= evs.len(),
        evs[i] is Placeholder,
    ensures
        placeholders(evs.take(k)) >= 1,
{
    lemma_placeholders_nonneg(evs.take(k));
    assert(evs.take(k)[i] is Placeholder);
}

pub proof fn lemma_push_keeps_open(evs: Seq<Event>, e: Event)
    requires
        keeps_started_open(evs),
        depth(evs.push(e)) >= placeholders(evs.push(e)),
    ensures
        keeps_started_open(evs.push(e)),
{
    lemma_push(evs, e);
    assert forall|k: int| 0 <= k <= evs.len() + 1 implies #[trigger] depth(evs.push(e).take(k))
        >= placeholders(evs.push(e).take(k)) by {
        if k <= evs.len() {
            assert(evs.push(e).take(k) == evs.take(k));
        }
    }
}

} // verus!
