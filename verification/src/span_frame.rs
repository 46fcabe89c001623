//! Nodes of the branch tree, and where navigation from one node leads.
//!
//! Every function here works on the list of created nodes, in the order in
//! which they were created. None of them creates a node: they say which node a
//! navigation step targets.

use vstd::prelude::*;

verus! {

/// A node of the branch tree: a branch (`span`) and a generation within it
/// (`frame`).
#[derive(Debug, Clone, Copy, PartialEq, Eq, Hash, Structural)]
pub struct SpanFrame {
    pub span: i32,
    pub frame: i32,
}

/// Why a navigation step has no target.
#[derive(Debug, Clone, Copy, PartialEq, Eq, Structural)]
pub enum NavigationError {
    /// The current node is in span 1, below which there is nothing.
    LowestSpan,
    /// No node has been created in this span.
    SpanNotFound { span: i32 },
    /// The span has nodes, but none in this frame.
    FrameNotFound { span: i32, frame: i32 },
    /// The target's span or frame would not fit in 32 bits.
    OutOfRange,
}

/// The size of a frame number, by which the frames of a span are ranked.
pub open spec fn frame_rank(frame: i32) -> int {
    if frame < 0 {
        -(frame as int)
    } else {
        frame as int
    }
}

/// True when some node of `nodes` lies in `span`.
pub open spec fn has_span(nodes: Seq<SpanFrame>, span: int) -> bool {
    exists|i: int| 0 <= i < nodes.len() && #[trigger] nodes[i].span == span
}

/// The latest node of `span`: the one whose frame ranks highest and, among
/// several of that rank, the one created last. `None` when the span is empty.
pub open spec fn latest_in_span(nodes: Seq<SpanFrame>, span: int) -> Option<SpanFrame>
    decreases nodes.len(),
{
    if nodes.len() == 0 {
        None
    } else {
        let earlier = latest_in_span(nodes.drop_last(), span);
        let last = nodes.last();
        if last.span != span {
            earlier
        } else if earlier is Some && frame_rank(earlier->Some_0.frame) > frame_rank(last.frame) {
            earlier
        } else {
            Some(last)
        }
    }
}

/// The node one past the latest of `span`, or frame 1 of an empty span, unless
/// that node would lie out of range.
pub open spec fn next_in_span(nodes: Seq<SpanFrame>, span: int) -> Result<
    SpanFrame,
    NavigationError,
> {
    if span < i32::MIN || span > i32::MAX {
        Err(NavigationError::OutOfRange)
    } else {
        match latest_in_span(nodes, span) {
            None => Ok(SpanFrame { span: span as i32, frame: 1 }),
            Some(latest) => if latest.frame == i32::MAX {
                Err(NavigationError::OutOfRange)
            } else {
                Ok(SpanFrame { span: span as i32, frame: (latest.frame + 1) as i32 })
            },
        }
    }
}

/// Where a push from `current` leads: a new node in the span above.
pub open spec fn push_target(nodes: Seq<SpanFrame>, current: SpanFrame) -> Result<
    SpanFrame,
    NavigationError,
> {
    next_in_span(nodes, current.span + 1)
}

/// Where a pop from `current` leads: the latest node of the span below.
pub open spec fn pop_target(nodes: Seq<SpanFrame>, current: SpanFrame) -> Result<
    SpanFrame,
    NavigationError,
> {
    if current.span == 1 {
        Err(NavigationError::LowestSpan)
    } else if current.span == i32::MIN {
        Err(NavigationError::OutOfRange)
    } else {
        match latest_in_span(nodes, current.span - 1) {
            Some(latest) => Ok(latest),
            None => Err(NavigationError::SpanNotFound { span: (current.span - 1) as i32 }),
        }
    }
}

/// Where a switch to `(span, frame)` leads: that very node, if it exists.
pub open spec fn switch_target(nodes: Seq<SpanFrame>, span: i32, frame: i32) -> Result<
    SpanFrame,
    NavigationError,
> {
    if !has_span(nodes, span as int) {
        Err(NavigationError::SpanNotFound { span })
    } else if !nodes.contains(SpanFrame { span, frame }) {
        Err(NavigationError::FrameNotFound { span, frame })
    } else {
        Ok(SpanFrame { span, frame })
    }
}

/// Where a soft reset from `current` leads: a new node in the same span.
pub open spec fn soft_reset_target(nodes: Seq<SpanFrame>, current: SpanFrame) -> Result<
    SpanFrame,
    NavigationError,
> {
    if latest_in_span(nodes, current.span as int) is None {
        Err(NavigationError::SpanNotFound { span: current.span })
    } else {
        next_in_span(nodes, current.span as int)
    }
}

/// Where a hard reset leads: a new node in span 1.
pub open spec fn hard_reset_target(nodes: Seq<SpanFrame>) -> Result<SpanFrame, NavigationError> {
    soft_reset_target(nodes, SpanFrame { span: 1, frame: 1 })
}

/// The latest node of a span is one of its nodes, no node of the span outranks
/// it, and every node of the span created after it ranks lower. A span has a
/// latest node exactly when it has a node.
pub proof fn lemma_latest_in_span(nodes: Seq<SpanFrame>, span: int)
    ensures
        latest_in_span(nodes, span) is None <==> !has_span(nodes, span),
        latest_in_span(nodes, span) matches Some(latest) ==> exists|i: int|
            {
                &&& 0 <= i < nodes.len() && #[trigger] nodes[i] == latest
                &&& latest.span == span
                &&& forall|j: int|
                    0 <= j < nodes.len() && #[trigger] nodes[j].span == span ==> frame_rank(
                        nodes[j].frame,
                    ) <= frame_rank(latest.frame)
                &&& forall|j: int|
                    i < j < nodes.len() && #[trigger] nodes[j].span == span ==> frame_rank(
                        nodes[j].frame,
                    ) < frame_rank(latest.frame)
            },
    decreases nodes.len(),
{
    if nodes.len() > 0 {
        let init = nodes.drop_last();
        let last = nodes.last();
        let n = init.len() as int;
        lemma_latest_in_span(init, span);
        assert(forall|j: int| 0 <= j < n ==> init[j] == nodes[j]);
        if has_span(init, span) {
            let k = choose|k: int| 0 <= k < init.len() && #[trigger] init[k].span == span;
            assert(nodes[k].span == span);
        }
        if has_span(nodes, span) && last.span != span {
            let k = choose|k: int| 0 <= k < nodes.len() && #[trigger] nodes[k].span == span;
            assert(init[k].span == span);
        }
        if last.span == span {
            assert(nodes[n].span == span);
        }
        match latest_in_span(nodes, span) {
            None => {},
            Some(latest) => {
                if latest_in_span(init, span) == Some(latest) && !(last.span == span && !(
                frame_rank(latest.frame) > frame_rank(last.frame))) {
                    let i = choose|i: int|
                        {
                            &&& 0 <= i < init.len() && #[trigger] init[i] == latest
                            &&& latest.span == span
                            &&& forall|j: int|
                                0 <= j < init.len() && #[trigger] init[j].span == span
                                    ==> frame_rank(init[j].frame) <= frame_rank(latest.frame)
                            &&& forall|j: int|
                                i < j < init.len() && #[trigger] init[j].span == span
                                    ==> frame_rank(init[j].frame) < frame_rank(latest.frame)
                        };
                    assert(nodes[i] == latest);
                    assert forall|j: int|
                        0 <= j < nodes.len() && #[trigger] nodes[j].span == span implies frame_rank(
                        nodes[j].frame,
                    ) <= frame_rank(latest.frame) by {
                        if j < n {
                            assert(init[j].span == span);
                        }
                    }
                    assert forall|j: int|
                        i < j < nodes.len() && #[trigger] nodes[j].span == span implies frame_rank(
                        nodes[j].frame,
                    ) < frame_rank(latest.frame) by {
                        if j < n {
                            assert(init[j].span == span);
                        }
                    }
                } else {
                    assert(latest == last);
                    assert(nodes[n] == latest);
                    assert forall|j: int|
                        0 <= j < nodes.len() && #[trigger] nodes[j].span == span implies frame_rank(
                        nodes[j].frame,
                    ) <= frame_rank(latest.frame) by {
                        if j < n {
                            assert(init[j].span == span);
                        }
                    }
                }
            },
        }
    }
}

/// Executable form of [`frame_rank`].
pub fn rank_of(frame: i32) -> (rank: i64)
    ensures
        rank == frame_rank(frame),
{
    let wide: i64 = frame as i64;
    if wide < 0 {
        -wide
    } else {
        wide
    }
}

/// The latest node of `span` among `nodes`.
pub fn find_latest_in_span(nodes: &Vec<SpanFrame>, span: i32) -> (r: Option<SpanFrame>)
    ensures
        r == latest_in_span(nodes@, span as int),
{
    let mut best: Option<SpanFrame> = None;
    let mut i: usize = 0;
    while i < nodes.len()
        invariant
            i <= nodes.len(),
            best == latest_in_span(nodes@.take(i as int), span as int),
        decreases nodes.len() - i,
    {
        let node = nodes[i];
        proof {
            assert(nodes@.take(i + 1).drop_last() == nodes@.take(i as int));
            assert(nodes@.take(i + 1).last() == node);
        }
        if node.span == span {
            let keep = match best {
                Some(b) => rank_of(b.frame) > rank_of(node.frame),
                None => false,
            };
            if !keep {
                best = Some(node);
            }
        }
        i = i + 1;
    }
    proof {
        assert(nodes@.take(nodes.len() as int) == nodes@);
    }
    best
}

/// True when some node of `nodes` lies in `span`.
pub fn span_exists(nodes: &Vec<SpanFrame>, span: i32) -> (r: bool)
    ensures
        r == has_span(nodes@, span as int),
{
    let mut i: usize = 0;
    while i < nodes.len()
        invariant
            i <= nodes.len(),
            forall|j: int| 0 <= j < i ==> nodes@[j].span != span,
        decreases nodes.len() - i,
    {
        if nodes[i].span == span {
            return true;
        }
        i = i + 1;
    }
    false
}

/// True when `(span, frame)` is one of `nodes`.
pub fn span_frame_exists(nodes: &Vec<SpanFrame>, span: i32, frame: i32) -> (r: bool)
    ensures
        r == nodes@.contains(SpanFrame { span, frame }),
{
    let mut i: usize = 0;
    while i < nodes.len()
        invariant
            i <= nodes.len(),
            forall|j: int| 0 <= j < i ==> nodes@[j] != (SpanFrame { span, frame }),
        decreases nodes.len() - i,
    {
        if nodes[i].span == span && nodes[i].frame == frame {
            assert(nodes@[i as int] == SpanFrame { span, frame });
            return true;
        }
        i = i + 1;
    }
    false
}

/// The node that would be created next in `span`.
pub fn find_next_in_span(nodes: &Vec<SpanFrame>, span: i32) -> (r: Result<
    SpanFrame,
    NavigationError,
>)
    ensures
        r == next_in_span(nodes@, span as int),
{
    match find_latest_in_span(nodes, span) {
        None => Ok(SpanFrame { span, frame: 1 }),
        Some(latest) => {
            if latest.frame == i32::MAX {
                Err(NavigationError::OutOfRange)
            } else {
                Ok(SpanFrame { span, frame: latest.frame + 1 })
            }
        },
    }
}

/// The node that a push from `current` would create.
pub fn find_push_target(nodes: &Vec<SpanFrame>, current: &SpanFrame) -> (r: Result<
    SpanFrame,
    NavigationError,
>)
    ensures
        r == push_target(nodes@, *current),
{
    if current.span == i32::MAX {
        Err(NavigationError::OutOfRange)
    } else {
        find_next_in_span(nodes, current.span + 1)
    }
}

/// The node that a pop from `current` would move to.
pub fn find_pop_target(nodes: &Vec<SpanFrame>, current: &SpanFrame) -> (r: Result<
    SpanFrame,
    NavigationError,
>)
    ensures
        r == pop_target(nodes@, *current),
{
    if current.span == 1 {
        Err(NavigationError::LowestSpan)
    } else if current.span == i32::MIN {
        Err(NavigationError::OutOfRange)
    } else {
        match find_latest_in_span(nodes, current.span - 1) {
            Some(latest) => Ok(latest),
            None => Err(NavigationError::SpanNotFound { span: current.span - 1 }),
        }
    }
}

/// The node that a switch to `(span, frame)` would move to.
pub fn find_switch_target(nodes: &Vec<SpanFrame>, span: i32, frame: i32) -> (r: Result<
    SpanFrame,
    NavigationError,
>)
    ensures
        r == switch_target(nodes@, span, frame),
{
    if !span_exists(nodes, span) {
        Err(NavigationError::SpanNotFound { span })
    } else if !span_frame_exists(nodes, span, frame) {
        Err(NavigationError::FrameNotFound { span, frame })
    } else {
        Ok(SpanFrame { span, frame })
    }
}

/// The node that a soft reset from `current` would create.
pub fn find_soft_reset_target(nodes: &Vec<SpanFrame>, current: &SpanFrame) -> (r: Result<
    SpanFrame,
    NavigationError,
>)
    ensures
        r == soft_reset_target(nodes@, *current),
{
    match find_latest_in_span(nodes, current.span) {
        None => Err(NavigationError::SpanNotFound { span: current.span }),
        Some(latest) => {
            if latest.frame == i32::MAX {
                Err(NavigationError::OutOfRange)
            } else {
                Ok(SpanFrame { span: current.span, frame: latest.frame + 1 })
            }
        },
    }
}

/// The node that a hard reset would create.
pub fn find_hard_reset_target(nodes: &Vec<SpanFrame>) -> (r: Result<SpanFrame, NavigationError>)
    ensures
        r == hard_reset_target(nodes@),
{
    find_soft_reset_target(nodes, &SpanFrame { span: 1, frame: 1 })
}

} // verus!
