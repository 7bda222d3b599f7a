//! The tree of panes in a session: pruning, normalizing, inserting and checking.
use vstd::prelude::*;
use vstd::string::*;

use crate::control_contract::{
    control_error, plain_error, ControlError, ControlErrorCode, ControlResult,
};
use crate::text::{list_has, push_text, same, views};

verus! {

/// How a split arranges its two parts.
#[derive(Clone, Copy, Debug, PartialEq, Eq, Structural)]
pub enum MuxSplitDirection {
    Horizontal,
    Vertical,
}

/// The share of the first part, by the bits of its double. Positive doubles are ordered as their
/// bits are, so the range check and the clamp work on the bits.
#[derive(Clone, Copy, Debug, PartialEq, Eq, Structural)]
pub struct SplitRatio {
    pub bits: u64,
}

/// The bits of 0.1.
pub const MIN_RATIO_BITS: u64 = 0x3FB999999999999A;

/// The bits of 0.9.
pub const MAX_RATIO_BITS: u64 = 0x3FECCCCCCCCCCCCD;

/// The bits of 0.5.
pub const HALF_RATIO_BITS: u64 = 0x3FE0000000000000;

/// The bits of the positive infinity; greater magnitudes are not numbers.
pub const INFINITY_BITS: u64 = 0x7FF0000000000000;

/// The weight of the sign bit.
pub const SIGN_BIT: u64 = 0x8000000000000000;

/// How deep a layout may be nested.
pub const MAX_LAYOUT_DEPTH: usize = 32;

impl SplitRatio {
    /// Between 0.1 and 0.9, both included.
    pub open spec fn in_range(self) -> bool {
        MIN_RATIO_BITS <= self.bits <= MAX_RATIO_BITS
    }

    /// Not a number.
    pub open spec fn is_nan(self) -> bool {
        self.bits % SIGN_BIT > INFINITY_BITS
    }

    /// The nearest ratio between 0.1 and 0.9; what is not a number stays.
    pub open spec fn clamped(self) -> SplitRatio {
        if self.is_nan() {
            self
        } else if self.bits >= SIGN_BIT || self.bits < MIN_RATIO_BITS {
            SplitRatio { bits: MIN_RATIO_BITS }
        } else if self.bits > MAX_RATIO_BITS {
            SplitRatio { bits: MAX_RATIO_BITS }
        } else {
            self
        }
    }

    /// Decides `in_range`.
    pub fn is_in_range(self) -> (r: bool)
        ensures
            r == self.in_range(),
    {
        MIN_RATIO_BITS <= self.bits && self.bits <= MAX_RATIO_BITS
    }

    /// Computes `clamped`.
    pub fn clamp(self) -> (r: SplitRatio)
        ensures
            r == self.clamped(),
    {
        if self.bits % SIGN_BIT > INFINITY_BITS {
            self
        } else if self.bits >= SIGN_BIT || self.bits < MIN_RATIO_BITS {
            SplitRatio { bits: MIN_RATIO_BITS }
        } else if self.bits > MAX_RATIO_BITS {
            SplitRatio { bits: MAX_RATIO_BITS }
        } else {
            self
        }
    }
}

/// A pane, or two parts side by side.
#[derive(Debug)]
pub enum MuxSplitNode {
    Pane { pane_id: String },
    Split {
        direction: MuxSplitDirection,
        ratio: SplitRatio,
        first: Box<MuxSplitNode>,
        second: Box<MuxSplitNode>,
    },
}

/// What a layout holds.
pub ghost enum LayoutView {
    Pane(Seq<char>),
    Split(MuxSplitDirection, SplitRatio, Box<LayoutView>, Box<LayoutView>),
}

impl MuxSplitNode {
    pub open spec fn view(&self) -> LayoutView
        decreases self,
    {
        match self {
            MuxSplitNode::Pane { pane_id } => LayoutView::Pane(pane_id@),
            MuxSplitNode::Split { direction, ratio, first, second } => LayoutView::Split(
                *direction,
                *ratio,
                Box::new(first.view()),
                Box::new(second.view()),
            ),
        }
    }
}

pub open spec fn opt_layout(o: Option<MuxSplitNode>) -> Option<LayoutView> {
    match o {
        Some(node) => Some(node.view()),
        None => None,
    }
}

/// The pane ids of a layout, from the first to the last.
pub open spec fn leaves(v: LayoutView) -> Seq<Seq<char>>
    decreases v,
{
    match v {
        LayoutView::Pane(id) => seq![id],
        LayoutView::Split(_, _, a, b) => leaves(*a) + leaves(*b),
    }
}

/// The pane ids of a layout that may be missing.
pub open spec fn opt_leaves(v: Option<LayoutView>) -> Seq<Seq<char>> {
    match v {
        Some(v) => leaves(v),
        None => Seq::empty(),
    }
}

/// How deep the layout is nested.
pub open spec fn depth(v: LayoutView) -> nat
    decreases v,
{
    match v {
        LayoutView::Pane(_) => 0,
        LayoutView::Split(_, _, a, b) => 1 + if depth(*a) > depth(*b) {
            depth(*a)
        } else {
            depth(*b)
        },
    }
}

/// Every ratio in the layout is in range.
pub open spec fn ratios_in_range(v: LayoutView) -> bool
    decreases v,
{
    match v {
        LayoutView::Pane(_) => true,
        LayoutView::Split(_, ratio, a, b) => ratio.in_range() && ratios_in_range(*a)
            && ratios_in_range(*b),
    }
}

/// Two parts side by side, or the one that is left.
pub open spec fn combine(
    direction: MuxSplitDirection,
    ratio: SplitRatio,
    first: Option<LayoutView>,
    second: Option<LayoutView>,
) -> Option<LayoutView> {
    match (first, second) {
        (Some(a), Some(b)) => Some(
            LayoutView::Split(direction, ratio, Box::new(a), Box::new(b)),
        ),
        (Some(a), None) => Some(a),
        (None, Some(b)) => Some(b),
        (None, None) => None,
    }
}

/// The layout without the removed panes; a split that loses a part becomes the other part.
pub open spec fn pruned(v: LayoutView, removed: Seq<Seq<char>>) -> Option<LayoutView>
    decreases v,
{
    match v {
        LayoutView::Pane(id) => if removed.contains(id) {
            None
        } else {
            Some(v)
        },
        LayoutView::Split(direction, ratio, a, b) => combine(
            direction,
            ratio,
            pruned(*a, removed),
            pruned(*b, removed),
        ),
    }
}

fn combine_nodes(
    direction: MuxSplitDirection,
    ratio: SplitRatio,
    first: Option<MuxSplitNode>,
    second: Option<MuxSplitNode>,
) -> (r: Option<MuxSplitNode>)
    ensures
        opt_layout(r) == combine(direction, ratio, opt_layout(first), opt_layout(second)),
{
    match (first, second) {
        (Some(a), Some(b)) => Some(
            MuxSplitNode::Split { direction, ratio, first: Box::new(a), second: Box::new(b) },
        ),
        (Some(a), None) => Some(a),
        (None, Some(b)) => Some(b),
        (None, None) => None,
    }
}

/// Takes the removed panes out of a layout.
pub fn prune_mux_layout(
    node: MuxSplitNode,
    removed_pane_ids: &[String],
) -> (r: Option<MuxSplitNode>)
    ensures
        opt_layout(r) == pruned(node.view(), views(removed_pane_ids@)),
    decreases node,
{
    match node {
        MuxSplitNode::Pane { pane_id } => {
            if list_has(removed_pane_ids, pane_id.as_str()) {
                None
            } else {
                Some(MuxSplitNode::Pane { pane_id })
            }
        },
        MuxSplitNode::Split { direction, ratio, first, second } => {
            let a = prune_mux_layout(*first, removed_pane_ids);
            let b = prune_mux_layout(*second, removed_pane_ids);
            combine_nodes(direction, ratio, a, b)
        },
    }
}

/// Those of the ids that are not removed, in the same order.
pub open spec fn without(ids: Seq<Seq<char>>, removed: Seq<Seq<char>>) -> Seq<Seq<char>>
    decreases ids.len(),
{
    if ids.len() == 0 {
        ids
    } else {
        let rest = without(ids.drop_last(), removed);
        if removed.contains(ids.last()) {
            rest
        } else {
            rest.push(ids.last())
        }
    }
}

proof fn lemma_without_concat(a: Seq<Seq<char>>, b: Seq<Seq<char>>, removed: Seq<Seq<char>>)
    ensures
        without(a + b, removed) == without(a, removed) + without(b, removed),
    decreases b.len(),
{
    if b.len() == 0 {
        assert(a + b =~= a);
        assert(without(a, removed) + without(b, removed) =~= without(a, removed));
    } else {
        lemma_without_concat(a, b.drop_last(), removed);
        assert((a + b).drop_last() =~= a + b.drop_last());
        assert(without(a + b, removed) =~= without(a, removed) + without(b, removed));
    }
}

/// Each pane of the layout is removed.
pub open spec fn all_removed(v: LayoutView, removed: Seq<Seq<char>>) -> bool {
    forall|i: int| 0 <= i < leaves(v).len() ==> removed.contains(#[trigger] leaves(v)[i])
}

/// No pane of the layout is removed.
pub open spec fn none_removed(v: LayoutView, removed: Seq<Seq<char>>) -> bool {
    forall|i: int| 0 <= i < leaves(v).len() ==> !removed.contains(#[trigger] leaves(v)[i])
}

proof fn lemma_split_leaves(a: LayoutView, b: LayoutView, v: LayoutView, removed: Seq<Seq<char>>)
    requires
        leaves(v) == leaves(a) + leaves(b),
    ensures
        all_removed(v, removed) == (all_removed(a, removed) && all_removed(b, removed)),
        none_removed(v, removed) == (none_removed(a, removed) && none_removed(b, removed)),
{
    assert forall|i: int| 0 <= i < leaves(a).len() implies #[trigger] leaves(a)[i]
        == leaves(v)[i] by {}
    assert forall|i: int| 0 <= i < leaves(b).len() implies #[trigger] leaves(b)[i] == leaves(v)[i
        + leaves(a).len()] by {}
}

proof fn lemma_pruned(v: LayoutView, removed: Seq<Seq<char>>)
    ensures
        pruned(v, removed) is None <==> all_removed(v, removed),
        none_removed(v, removed) ==> pruned(v, removed) == Some(v),
        pruned(v, removed) is Some ==> none_removed(pruned(v, removed)->0, removed),
    decreases v,
{
    match v {
        LayoutView::Pane(id) => {
            assert(leaves(v)[0] == id);
        },
        LayoutView::Split(direction, ratio, a, b) => {
            lemma_pruned(*a, removed);
            lemma_pruned(*b, removed);
            lemma_split_leaves(*a, *b, v, removed);
            match (pruned(*a, removed), pruned(*b, removed)) {
                (Some(first), Some(second)) => {
                    lemma_split_leaves(first, second, pruned(v, removed)->0, removed);
                },
                _ => {},
            }
        },
    }
}

/// Pruning keeps exactly the other panes, in their order. Nothing is left exactly where every pane
/// is removed, a layout that loses no pane stays as it is, and pruning again changes nothing.
pub proof fn law_prune_keeps_the_other_panes(v: LayoutView, removed: Seq<Seq<char>>)
    ensures
        opt_leaves(pruned(v, removed)) == without(leaves(v), removed),
        pruned(v, removed) is None <==> all_removed(v, removed),
        none_removed(v, removed) ==> pruned(v, removed) == Some(v),
        pruned(v, removed) is Some ==> pruned(pruned(v, removed)->0, removed) == pruned(v, removed),
    decreases v,
{
    lemma_pruned(v, removed);
    if pruned(v, removed) is Some {
        lemma_pruned(pruned(v, removed)->0, removed);
    }
    match v {
        LayoutView::Pane(id) => {
            assert(without(seq![id].drop_last(), removed) =~= Seq::empty());
            assert(opt_leaves(pruned(v, removed)) =~= without(leaves(v), removed));
        },
        LayoutView::Split(direction, ratio, a, b) => {
            law_prune_keeps_the_other_panes(*a, removed);
            law_prune_keeps_the_other_panes(*b, removed);
            lemma_without_concat(leaves(*a), leaves(*b), removed);
            assert(opt_leaves(pruned(v, removed)) =~= opt_leaves(pruned(*a, removed))
                + opt_leaves(pruned(*b, removed)));
        },
    }
}

/// The layout without foreign and repeated panes and with its ratios clamped, and the panes placed
/// so far. A split that loses a part becomes the other part.
pub open spec fn settled(
    v: LayoutView,
    valid: Seq<Seq<char>>,
    placed: Seq<Seq<char>>,
) -> (Option<LayoutView>, Seq<Seq<char>>)
    decreases v,
{
    match v {
        LayoutView::Pane(id) => if valid.contains(id) && !placed.contains(id) {
            (Some(v), placed.push(id))
        } else {
            (None, placed)
        },
        LayoutView::Split(direction, ratio, a, b) => {
            let (first, then) = settled(*a, valid, placed);
            let (second, end) = settled(*b, valid, then);
            (combine(direction, ratio.clamped(), first, second), end)
        },
    }
}

/// The layout with a pane at the end, beside all that was there.
pub open spec fn appended(
    layout: Option<LayoutView>,
    direction: MuxSplitDirection,
    ratio: SplitRatio,
    id: Seq<char>,
) -> LayoutView {
    match layout {
        Some(v) => LayoutView::Split(
            direction,
            ratio,
            Box::new(v),
            Box::new(LayoutView::Pane(id)),
        ),
        None => LayoutView::Pane(id),
    }
}

/// The layout with each of the ids that is not placed yet at the end.
pub open spec fn completed(
    layout: Option<LayoutView>,
    placed: Seq<Seq<char>>,
    ids: Seq<Seq<char>>,
) -> Option<LayoutView>
    decreases ids.len(),
{
    if ids.len() == 0 {
        layout
    } else if placed.contains(ids[0]) {
        completed(layout, placed, ids.skip(1))
    } else {
        completed(
            Some(
                appended(
                    layout,
                    MuxSplitDirection::Horizontal,
                    SplitRatio { bits: HALF_RATIO_BITS },
                    ids[0],
                ),
            ),
            placed.push(ids[0]),
            ids.skip(1),
        )
    }
}

/// The layout of exactly the given panes that is nearest to the old one.
pub open spec fn normalized(layout: Option<LayoutView>, ids: Seq<Seq<char>>) -> Option<LayoutView> {
    match layout {
        None => completed(None, Seq::empty(), ids),
        Some(v) => {
            let (kept, placed) = settled(v, ids, Seq::empty());
            completed(kept, placed, ids)
        },
    }
}

fn settle(node: MuxSplitNode, valid: &[String], placed: &mut Vec<String>) -> (r: Option<
    MuxSplitNode,
>)
    ensures
        (opt_layout(r), views(final(placed)@)) == settled(
            node.view(),
            views(valid@),
            views(old(placed)@),
        ),
    decreases node,
{
    match node {
        MuxSplitNode::Pane { pane_id } => {
            if list_has(valid, pane_id.as_str()) && !list_has(placed, pane_id.as_str()) {
                push_text(placed, pane_id.clone());
                Some(MuxSplitNode::Pane { pane_id })
            } else {
                None
            }
        },
        MuxSplitNode::Split { direction, ratio, first, second } => {
            let a = settle(*first, valid, placed);
            let b = settle(*second, valid, placed);
            combine_nodes(direction, ratio.clamp(), a, b)
        },
    }
}

fn append_pane(
    layout: Option<MuxSplitNode>,
    direction: MuxSplitDirection,
    ratio: SplitRatio,
    pane_id: String,
) -> (r: MuxSplitNode)
    ensures
        r.view() == appended(opt_layout(layout), direction, ratio, pane_id@),
{
    let leaf = MuxSplitNode::Pane { pane_id };
    assert(leaf.view() == LayoutView::Pane(pane_id@));
    match layout {
        Some(existing) => MuxSplitNode::Split {
            direction,
            ratio,
            first: Box::new(existing),
            second: Box::new(leaf),
        },
        None => leaf,
    }
}

/// Brings a layout in line with the panes of its session: foreign and repeated panes leave,
/// ratios are clamped, and panes that are missing come in at the end.
pub fn normalize_mux_layout(layout: Option<MuxSplitNode>, pane_ids: &[String]) -> (r: Option<
    MuxSplitNode,
>)
    ensures
        opt_layout(r) == normalized(opt_layout(layout), views(pane_ids@)),
{
    let ghost ids = views(pane_ids@);
    let ghost goal = normalized(opt_layout(layout), ids);
    let mut placed: Vec<String> = Vec::new();
    assert(views(placed@) =~= Seq::empty());
    let mut current: Option<MuxSplitNode> = match layout {
        Some(node) => settle(node, pane_ids, &mut placed),
        None => None,
    };
    let mut i: usize = 0;
    assert(ids.skip(0) =~= ids);
    while i < pane_ids.len()
        invariant
            i <= pane_ids@.len(),
            ids == views(pane_ids@),
            goal == completed(opt_layout(current), views(placed@), ids.skip(i as int)),
        decreases pane_ids@.len() - i,
    {
        proof {
            assert(ids.skip(i as int)[0] == pane_ids@[i as int]@);
            assert(ids.skip(i as int).skip(1) =~= ids.skip(i + 1));
        }
        if !list_has(&placed, pane_ids[i].as_str()) {
            push_text(&mut placed, pane_ids[i].clone());
            current = Some(
                append_pane(
                    current,
                    MuxSplitDirection::Horizontal,
                    SplitRatio { bits: HALF_RATIO_BITS },
                    pane_ids[i].clone(),
                ),
            );
        }
        i = i + 1;
    }
    current
}

/// Some ratio in the layout is not a number.
pub open spec fn has_nan(v: LayoutView) -> bool
    decreases v,
{
    match v {
        LayoutView::Pane(_) => false,
        LayoutView::Split(_, ratio, a, b) => ratio.is_nan() || has_nan(*a) || has_nan(*b),
    }
}

proof fn lemma_settled(v: LayoutView, valid: Seq<Seq<char>>, placed: Seq<Seq<char>>)
    requires
        placed.no_duplicates(),
    ensures
        settled(v, valid, placed).1 == placed + opt_leaves(settled(v, valid, placed).0),
        settled(v, valid, placed).1.no_duplicates(),
        forall|k: int|
            #![trigger opt_leaves(settled(v, valid, placed).0)[k]]
            0 <= k < opt_leaves(settled(v, valid, placed).0).len() ==> valid.contains(
                opt_leaves(settled(v, valid, placed).0)[k],
            ),
        !has_nan(v) && settled(v, valid, placed).0 is Some ==> ratios_in_range(
            settled(v, valid, placed).0->0,
        ),
    decreases v,
{
    match v {
        LayoutView::Pane(id) => {
            let (r, end) = settled(v, valid, placed);
            assert(end =~= placed + opt_leaves(r));
        },
        LayoutView::Split(direction, ratio, a, b) => {
            lemma_settled(*a, valid, placed);
            let (first, then) = settled(*a, valid, placed);
            lemma_settled(*b, valid, then);
            let (second, end) = settled(*b, valid, then);
            let r = combine(direction, ratio.clamped(), first, second);
            assert(opt_leaves(r) =~= opt_leaves(first) + opt_leaves(second));
            assert(end =~= placed + opt_leaves(r));
        },
    }
}

proof fn lemma_completed(
    layout: Option<LayoutView>,
    placed: Seq<Seq<char>>,
    ids: Seq<Seq<char>>,
    valid: Seq<Seq<char>>,
)
    requires
        placed == opt_leaves(layout),
        placed.no_duplicates(),
        forall|k: int| 0 <= k < placed.len() ==> valid.contains(#[trigger] placed[k]),
        forall|k: int| 0 <= k < ids.len() ==> valid.contains(#[trigger] ids[k]),
    ensures
        ({
            let all = opt_leaves(completed(layout, placed, ids));
            &&& all.no_duplicates()
            &&& forall|k: int| 0 <= k < all.len() ==> valid.contains(#[trigger] all[k])
            &&& forall|k: int| 0 <= k < ids.len() ==> all.contains(#[trigger] ids[k])
            &&& forall|k: int| 0 <= k < placed.len() ==> all.contains(#[trigger] placed[k])
        }),
        (layout is Some ==> ratios_in_range(layout->0)) ==> (completed(layout, placed, ids) is Some
            ==> ratios_in_range(completed(layout, placed, ids)->0)),
    decreases ids.len(),
{
    let all = opt_leaves(completed(layout, placed, ids));
    if ids.len() > 0 {
        let rest = ids.skip(1);
        assert forall|k: int| 0 <= k < rest.len() implies valid.contains(#[trigger] rest[k]) by {
            assert(rest[k] == ids[k + 1]);
        }
        if placed.contains(ids[0]) {
            lemma_completed(layout, placed, rest, valid);
            assert forall|k: int| 0 <= k < ids.len() implies all.contains(#[trigger] ids[k]) by {
                if k > 0 {
                    assert(rest[k - 1] == ids[k]);
                } else {
                    let j = choose|j: int| 0 <= j < placed.len() && placed[j] == ids[0];
                    assert(all.contains(placed[j]));
                }
            }
        } else {
            let next = Some(
                appended(
                    layout,
                    MuxSplitDirection::Horizontal,
                    SplitRatio { bits: HALF_RATIO_BITS },
                    ids[0],
                ),
            );
            let more = placed.push(ids[0]);
            reveal_with_fuel(leaves, 2);
            reveal_with_fuel(ratios_in_range, 2);
            assert(opt_leaves(next) =~= more);
            assert(more.no_duplicates());
            lemma_completed(next, more, rest, valid);
            assert(more[placed.len() as int] == ids[0]);
            assert forall|k: int| 0 <= k < ids.len() implies all.contains(#[trigger] ids[k]) by {
                if k > 0 {
                    assert(rest[k - 1] == ids[k]);
                } else {
                    assert(all.contains(more[placed.len() as int]));
                }
            }
            assert forall|k: int| 0 <= k < placed.len() implies all.contains(
                #[trigger] placed[k],
            ) by {
                assert(more[k] == placed[k]);
            }
        }
    }
}

/// A normalized layout holds each pane of the session once and no other, and its ratios are in
/// range where all ratios were numbers.
pub proof fn law_normalized_layout_holds_each_pane_once(
    layout: Option<LayoutView>,
    ids: Seq<Seq<char>>,
)
    ensures
        opt_leaves(normalized(layout, ids)).no_duplicates(),
        forall|id: Seq<char>|
            #![trigger ids.contains(id)]
            opt_leaves(normalized(layout, ids)).contains(id) <==> ids.contains(id),
        (layout is Some ==> !has_nan(layout->0)) && normalized(layout, ids) is Some
            ==> ratios_in_range(normalized(layout, ids)->0),
{
    let (kept, placed) = match layout {
        None => (None::<LayoutView>, Seq::<Seq<char>>::empty()),
        Some(v) => settled(v, ids, Seq::empty()),
    };
    match layout {
        None => {
            assert(opt_leaves(kept) =~= placed);
        },
        Some(v) => {
            lemma_settled(v, ids, Seq::empty());
            assert(placed =~= opt_leaves(kept));
        },
    }
    assert(normalized(layout, ids) == completed(kept, placed, ids));
    lemma_completed(kept, placed, ids, ids);
    let all = opt_leaves(normalized(layout, ids));
    assert forall|id: Seq<char>|
        #![trigger ids.contains(id)]
        all.contains(id) <==> ids.contains(id) by {
        if ids.contains(id) {
            let k = choose|k: int| 0 <= k < ids.len() && ids[k] == id;
            assert(all.contains(ids[k]));
        }
        if all.contains(id) {
            let k = choose|k: int| 0 <= k < all.len() && all[k] == id;
            assert(ids.contains(all[k]));
        }
    }
}

/// The layout with the leaf beside the first pane with the anchor's id, and whether that pane was
/// found.
pub open spec fn anchored(
    v: LayoutView,
    anchor: Seq<char>,
    direction: MuxSplitDirection,
    ratio: SplitRatio,
    id: Seq<char>,
) -> (LayoutView, bool)
    decreases v,
{
    match v {
        LayoutView::Pane(own) => if own == anchor {
            (appended(Some(v), direction, ratio, id), true)
        } else {
            (v, false)
        },
        LayoutView::Split(d, r, a, b) => {
            let (first, found) = anchored(*a, anchor, direction, ratio, id);
            if found {
                (LayoutView::Split(d, r, Box::new(first), b), true)
            } else {
                let (second, found) = anchored(*b, anchor, direction, ratio, id);
                (LayoutView::Split(d, r, Box::new(first), Box::new(second)), found)
            }
        },
    }
}

/// The layout with one more pane: beside the anchor where it is found, else at the end.
pub open spec fn with_pane(
    layout: Option<LayoutView>,
    anchor: Option<Seq<char>>,
    direction: MuxSplitDirection,
    ratio: SplitRatio,
    id: Seq<char>,
) -> LayoutView {
    match (layout, anchor) {
        (Some(v), Some(anchor)) => {
            let (placed, found) = anchored(v, anchor, direction, ratio, id);
            if found {
                placed
            } else {
                appended(layout, direction, ratio, id)
            }
        },
        _ => appended(layout, direction, ratio, id),
    }
}

fn insert_beside(
    node: MuxSplitNode,
    anchor: &str,
    direction: MuxSplitDirection,
    ratio: SplitRatio,
    pane_id: &str,
) -> (r: (MuxSplitNode, bool))
    ensures
        (r.0.view(), r.1) == anchored(node.view(), anchor@, direction, ratio, pane_id@),
        !r.1 ==> r.0.view() == node.view(),
    decreases node,
{
    match node {
        MuxSplitNode::Pane { pane_id: own } => {
            if same(own.as_str(), anchor) {
                let leaf = MuxSplitNode::Pane { pane_id: own };
                (append_pane(Some(leaf), direction, ratio, pane_id.to_owned()), true)
            } else {
                (MuxSplitNode::Pane { pane_id: own }, false)
            }
        },
        MuxSplitNode::Split { direction: d, ratio: r, first, second } => {
            let (first, found) = insert_beside(*first, anchor, direction, ratio, pane_id);
            if found {
                return (
                    MuxSplitNode::Split { direction: d, ratio: r, first: Box::new(first), second },
                    true,
                );
            }
            let (second, found) = insert_beside(*second, anchor, direction, ratio, pane_id);
            (
                MuxSplitNode::Split {
                    direction: d,
                    ratio: r,
                    first: Box::new(first),
                    second: Box::new(second),
                },
                found,
            )
        },
    }
}

/// Puts one more pane into a layout: beside the anchor where it is found, else at the end.
pub fn insert_mux_pane(
    layout: Option<MuxSplitNode>,
    anchor_pane_id: Option<&str>,
    pane_id: &str,
    direction: MuxSplitDirection,
    ratio: SplitRatio,
) -> (r: MuxSplitNode)
    ensures
        r.view() == with_pane(
            opt_layout(layout),
            match anchor_pane_id {
                Some(s) => Some(s@),
                None => None,
            },
            direction,
            ratio,
            pane_id@,
        ),
{
    match (layout, anchor_pane_id) {
        (Some(node), Some(anchor)) => {
            let (node, found) = insert_beside(node, anchor, direction, ratio, pane_id);
            if found {
                node
            } else {
                append_pane(Some(node), direction, ratio, pane_id.to_owned())
            }
        },
        (layout, _) => append_pane(layout, direction, ratio, pane_id.to_owned()),
    }
}

/// The ids with one more: right behind the first that equals the anchor, else at the end.
pub open spec fn inserted_after(
    ids: Seq<Seq<char>>,
    anchor: Seq<char>,
    id: Seq<char>,
) -> Seq<Seq<char>>
    decreases ids.len(),
{
    if ids.len() == 0 {
        seq![id]
    } else if ids[0] == anchor {
        seq![anchor, id] + ids.skip(1)
    } else {
        seq![ids[0]] + inserted_after(ids.skip(1), anchor, id)
    }
}

proof fn lemma_inserted_after_concat(
    a: Seq<Seq<char>>,
    b: Seq<Seq<char>>,
    anchor: Seq<char>,
    id: Seq<char>,
)
    ensures
        a.contains(anchor) ==> inserted_after(a + b, anchor, id) == inserted_after(a, anchor, id)
            + b,
        !a.contains(anchor) ==> inserted_after(a + b, anchor, id) == a + inserted_after(
            b,
            anchor,
            id,
        ),
    decreases a.len(),
{
    if a.len() == 0 {
        assert(a + b =~= b);
        assert(a + inserted_after(b, anchor, id) =~= inserted_after(b, anchor, id));
    } else {
        let rest = a.skip(1);
        lemma_inserted_after_concat(rest, b, anchor, id);
        assert((a + b).skip(1) =~= rest + b);
        assert((a + b)[0] == a[0]);
        if a[0] == anchor {
            assert(a.contains(anchor));
            assert(inserted_after(a + b, anchor, id) =~= inserted_after(a, anchor, id) + b);
        } else {
            if a.contains(anchor) {
                let k = choose|k: int| 0 <= k < a.len() && a[k] == anchor;
                assert(rest[k - 1] == anchor);
                assert(inserted_after(a + b, anchor, id) =~= inserted_after(a, anchor, id) + b);
            } else {
                assert forall|k: int| 0 <= k < rest.len() implies rest[k] != anchor by {
                    assert(rest[k] == a[k + 1]);
                }
                assert(inserted_after(a + b, anchor, id) =~= a + inserted_after(b, anchor, id));
            }
        }
    }
}

proof fn lemma_anchored(
    v: LayoutView,
    anchor: Seq<char>,
    direction: MuxSplitDirection,
    ratio: SplitRatio,
    id: Seq<char>,
)
    ensures
        anchored(v, anchor, direction, ratio, id).1 == leaves(v).contains(anchor),
        anchored(v, anchor, direction, ratio, id).1 ==> leaves(
            anchored(v, anchor, direction, ratio, id).0,
        ) == inserted_after(leaves(v), anchor, id),
        !anchored(v, anchor, direction, ratio, id).1 ==> anchored(
            v,
            anchor,
            direction,
            ratio,
            id,
        ).0 == v,
    decreases v,
{
    let (after, found) = anchored(v, anchor, direction, ratio, id);
    match v {
        LayoutView::Pane(own) => {
            assert(leaves(v)[0] == own);
            if own == anchor {
                reveal_with_fuel(leaves, 2);
                assert(leaves(v).skip(1) =~= Seq::empty());
                assert(leaves(after) =~= inserted_after(leaves(v), anchor, id));
            }
        },
        LayoutView::Split(d, r, a, b) => {
            lemma_anchored(*a, anchor, direction, ratio, id);
            lemma_anchored(*b, anchor, direction, ratio, id);
            lemma_inserted_after_concat(leaves(*a), leaves(*b), anchor, id);
            let l = leaves(*a);
            let m = leaves(*b);
            if l.contains(anchor) {
                let k = choose|k: int| 0 <= k < l.len() && l[k] == anchor;
                assert((l + m)[k] == anchor);
            } else if m.contains(anchor) {
                let k = choose|k: int| 0 <= k < m.len() && m[k] == anchor;
                assert((l + m)[l.len() + k] == anchor);
            } else if (l + m).contains(anchor) {
                let k = choose|k: int| 0 <= k < (l + m).len() && (l + m)[k] == anchor;
                if k < l.len() {
                    assert(l[k] == anchor);
                } else {
                    assert(m[k - l.len()] == anchor);
                }
            }
        },
    }
}

proof fn lemma_inserted_after_missing(ids: Seq<Seq<char>>, anchor: Seq<char>, id: Seq<char>)
    requires
        !ids.contains(anchor),
    ensures
        inserted_after(ids, anchor, id) == ids.push(id),
    decreases ids.len(),
{
    if ids.len() == 0 {
        assert(inserted_after(ids, anchor, id) =~= ids.push(id));
    } else {
        assert(ids[0] != anchor);
        let rest = ids.skip(1);
        assert forall|k: int| 0 <= k < rest.len() implies rest[k] != anchor by {
            assert(rest[k] == ids[k + 1]);
        }
        lemma_inserted_after_missing(rest, anchor, id);
        assert(inserted_after(ids, anchor, id) =~= ids.push(id));
    }
}

/// A new pane stands right behind the anchor where the layout holds it, else at the end; the
/// panes that were there keep their order.
pub proof fn law_inserted_pane_follows_its_anchor(
    v: LayoutView,
    anchor: Option<Seq<char>>,
    direction: MuxSplitDirection,
    ratio: SplitRatio,
    id: Seq<char>,
)
    ensures
        leaves(with_pane(Some(v), anchor, direction, ratio, id)) == (match anchor {
            Some(a) => inserted_after(leaves(v), a, id),
            None => leaves(v).push(id),
        }),
{
    reveal_with_fuel(leaves, 2);
    assert(leaves(appended(Some(v), direction, ratio, id)) =~= leaves(v).push(id));
    match anchor {
        Some(a) => {
            lemma_anchored(v, a, direction, ratio, id);
            if !leaves(v).contains(a) {
                lemma_inserted_after_missing(leaves(v), a, id);
            }
        },
        None => {},
    }
}

/// What is wrong with a layout.
pub ghost enum LayoutFault {
    TooDeep,
    Foreign(Seq<char>),
    Repeated(Seq<char>),
    Ratio,
    Incomplete,
}

/// The message for a fault.
pub open spec fn fault_text(fault: LayoutFault) -> Seq<char> {
    match fault {
        LayoutFault::TooDeep => "布局嵌套不能超过 32 层"@,
        LayoutFault::Foreign(id) => "布局包含不属于当前 Session 的 Pane："@ + id,
        LayoutFault::Repeated(id) => "布局重复引用了 Pane："@ + id,
        LayoutFault::Ratio => "布局 split ratio 必须在 0.1 到 0.9 之间"@,
        LayoutFault::Incomplete => "布局必须且只能包含当前 Session 的全部 Pane"@,
    }
}

/// The panes found when the layout is walked from the first part to the last, or the first fault
/// on that walk.
pub open spec fn walked(
    v: LayoutView,
    level: nat,
    valid: Seq<Seq<char>>,
    found: Seq<Seq<char>>,
) -> Result<Seq<Seq<char>>, LayoutFault>
    decreases v,
{
    if level > MAX_LAYOUT_DEPTH {
        Err(LayoutFault::TooDeep)
    } else {
        match v {
            LayoutView::Pane(id) => if !valid.contains(id) {
                Err(LayoutFault::Foreign(id))
            } else if found.contains(id) {
                Err(LayoutFault::Repeated(id))
            } else {
                Ok(found.push(id))
            },
            LayoutView::Split(_, ratio, a, b) => if !ratio.in_range() {
                Err(LayoutFault::Ratio)
            } else {
                match walked(*a, level + 1, valid, found) {
                    Ok(then) => walked(*b, level + 1, valid, then),
                    Err(fault) => Err(fault),
                }
            },
        }
    }
}

/// The first fault of a layout for a session with the given panes.
pub open spec fn layout_fault(layout: Option<LayoutView>, ids: Seq<Seq<char>>) -> Option<
    LayoutFault,
> {
    let walk = match layout {
        Some(v) => walked(v, 0, ids, Seq::empty()),
        None => Ok(Seq::empty()),
    };
    match walk {
        Err(fault) => Some(fault),
        Ok(found) => if forall|k: int| 0 <= k < ids.len() ==> found.contains(#[trigger] ids[k]) {
            None
        } else {
            Some(LayoutFault::Incomplete)
        },
    }
}

fn invalid(message: String) -> (r: ControlError)
    ensures
        plain_error(r, ControlErrorCode::InvalidArguments, message@),
{
    control_error(ControlErrorCode::InvalidArguments, message.as_str())
}

fn walk(node: &MuxSplitNode, level: usize, valid: &[String], found: &mut Vec<String>) -> (r:
    ControlResult<()>)
    requires
        level <= MAX_LAYOUT_DEPTH + 1,
    ensures
        match walked(node.view(), level as nat, views(valid@), views(old(found)@)) {
            Ok(then) => r is Ok && views(final(found)@) == then,
            Err(fault) => r is Err && plain_error(
                r->Err_0,
                ControlErrorCode::InvalidArguments,
                fault_text(fault),
            ),
        },
    decreases node,
{
    if level > MAX_LAYOUT_DEPTH {
        return Err(invalid("布局嵌套不能超过 32 层".to_owned()));
    }
    match node {
        MuxSplitNode::Pane { pane_id } => {
            if !list_has(valid, pane_id.as_str()) {
                let mut message = "布局包含不属于当前 Session 的 Pane：".to_owned();
                message.append(pane_id.as_str());
                return Err(invalid(message));
            }
            if list_has(found, pane_id.as_str()) {
                let mut message = "布局重复引用了 Pane：".to_owned();
                message.append(pane_id.as_str());
                return Err(invalid(message));
            }
            push_text(found, pane_id.clone());
            Ok(())
        },
        MuxSplitNode::Split { direction: _, ratio, first, second } => {
            if !ratio.is_in_range() {
                return Err(invalid("布局 split ratio 必须在 0.1 到 0.9 之间".to_owned()));
            }
            match walk(first, level + 1, valid, found) {
                Ok(()) => walk(second, level + 1, valid, found),
                Err(error) => Err(error),
            }
        },
    }
}

/// Refuses a layout that is nested too deep, has a ratio out of range, or does not hold each pane
/// of the session exactly once. The error is that of the first fault.
pub fn validate_mux_layout(layout: Option<&MuxSplitNode>, pane_ids: &[String]) -> (r: ControlResult<
    (),
>)
    ensures
        match layout_fault(
            match layout {
                Some(node) => Some(node.view()),
                None => None,
            },
            views(pane_ids@),
        ) {
            None => r is Ok,
            Some(fault) => r is Err && plain_error(
                r->Err_0,
                ControlErrorCode::InvalidArguments,
                fault_text(fault),
            ),
        },
{
    let ghost ids = views(pane_ids@);
    let ghost start = match layout {
        Some(node) => Some(node.view()),
        None => None,
    };
    let mut found: Vec<String> = Vec::new();
    assert(views(found@) =~= Seq::empty());
    match layout {
        Some(node) => {
            match walk(node, 0, pane_ids, &mut found) {
                Ok(()) => {},
                Err(error) => {
                    return Err(error);
                },
            }
        },
        None => {},
    }
    let mut i: usize = 0;
    while i < pane_ids.len()
        invariant
            i <= pane_ids@.len(),
            ids == views(pane_ids@),
            start == (match layout {
                Some(node) => Some(node.view()),
                None => None::<LayoutView>,
            }),
            layout_fault(start, ids) == (if forall|k: int|
                0 <= k < ids.len() ==> views(found@).contains(#[trigger] ids[k]) {
                None
            } else {
                Some(LayoutFault::Incomplete)
            }),
            forall|k: int| 0 <= k < i ==> views(found@).contains(#[trigger] ids[k]),
        decreases pane_ids@.len() - i,
    {
        if !list_has(&found, pane_ids[i].as_str()) {
            assert(!views(found@).contains(ids[i as int]));
            return Err(invalid("布局必须且只能包含当前 Session 的全部 Pane".to_owned()));
        }
        assert(ids[i as int] == pane_ids@[i as int]@);
        i = i + 1;
    }
    Ok(())
}

/// The layout is nested at most as deep as allowed, its ratios are in range, and it holds each of
/// the given panes exactly once.
pub open spec fn layout_valid(v: LayoutView, ids: Seq<Seq<char>>) -> bool {
    &&& depth(v) <= MAX_LAYOUT_DEPTH
    &&& ratios_in_range(v)
    &&& leaves(v).no_duplicates()
    &&& forall|id: Seq<char>| #![trigger ids.contains(id)] leaves(v).contains(id) <==> ids.contains(id)
}

proof fn lemma_walked(v: LayoutView, level: nat, valid: Seq<Seq<char>>, found: Seq<Seq<char>>)
    requires
        found.no_duplicates(),
    ensures
        walked(v, level, valid, found) is Ok <==> (level + depth(v) <= MAX_LAYOUT_DEPTH
            && ratios_in_range(v) && (found + leaves(v)).no_duplicates() && forall|k: int|
            0 <= k < leaves(v).len() ==> valid.contains(#[trigger] leaves(v)[k])),
        walked(v, level, valid, found) is Ok ==> walked(v, level, valid, found)->Ok_0 == found
            + leaves(v),
    decreases v,
{
    let all = leaves(v);
    match v {
        LayoutView::Pane(id) => {
            assert(all[0] == id);
            assert(found + all =~= found.push(id));
            if found.contains(id) {
                let k = choose|k: int| 0 <= k < found.len() && found[k] == id;
                assert((found + all)[k] == (found + all)[found.len() as int]);
            }
        },
        LayoutView::Split(_, ratio, a, b) => {
            lemma_walked(*a, level + 1, valid, found);
            let l = leaves(*a);
            let m = leaves(*b);
            assert(all =~= l + m);
            assert(found + all =~= (found + l) + m);
            assert(forall|k: int| 0 <= k < l.len() ==> #[trigger] l[k] == all[k]);
            assert(forall|k: int| 0 <= k < m.len() ==> #[trigger] m[k] == all[l.len() + k]);
            if (found + all).no_duplicates() {
                assert forall|i: int, j: int|
                    0 <= i < (found + l).len() && 0 <= j < (found + l).len() && i
                        != j implies (found + l)[i] != (found + l)[j] by {
                    assert((found + all)[i] == (found + l)[i]);
                    assert((found + all)[j] == (found + l)[j]);
                }
            }
            if walked(*a, level + 1, valid, found) is Ok {
                lemma_walked(*b, level + 1, valid, found + l);
            }
            assert forall|k: int| 0 <= k < all.len() && (forall|i: int|
                0 <= i < l.len() ==> valid.contains(#[trigger] l[i])) && (forall|i: int|
                0 <= i < m.len() ==> valid.contains(#[trigger] m[i])) implies valid.contains(
                #[trigger] all[k],
            ) by {
                if k < l.len() {
                    assert(valid.contains(l[k]));
                } else {
                    assert(valid.contains(m[k - l.len()]));
                }
            }
        },
    }
}

/// A layout passes the check exactly where it is valid; no layout passes exactly where the session
/// has no pane.
pub proof fn law_check_accepts_exactly_the_valid_layouts(v: LayoutView, ids: Seq<Seq<char>>)
    ensures
        layout_fault(Some(v), ids) is None <==> layout_valid(v, ids),
        layout_fault(None, ids) is None <==> ids.len() == 0,
{
    let none = Seq::<Seq<char>>::empty();
    lemma_walked(v, 0, ids, none);
    assert(none + leaves(v) =~= leaves(v));
    let all = leaves(v);
    if layout_fault(Some(v), ids) is None {
        assert forall|id: Seq<char>|
            #![trigger ids.contains(id)]
            all.contains(id) <==> ids.contains(id) by {
            if ids.contains(id) {
                let k = choose|k: int| 0 <= k < ids.len() && ids[k] == id;
                assert(all.contains(ids[k]));
            }
            if all.contains(id) {
                let k = choose|k: int| 0 <= k < all.len() && all[k] == id;
                assert(ids.contains(all[k]));
            }
        }
    }
    if layout_valid(v, ids) {
        assert forall|k: int| 0 <= k < all.len() implies ids.contains(#[trigger] all[k]) by {
            assert(all.contains(all[k]));
        }
        assert forall|k: int| 0 <= k < ids.len() implies all.contains(#[trigger] ids[k]) by {
            assert(ids.contains(ids[k]));
        }
    }
    if ids.len() > 0 {
        assert(!none.contains(ids[0]));
    }
}

/// Clamping changes no ratio of the layout.
spec fn ratios_clamped(v: LayoutView) -> bool
    decreases v,
{
    match v {
        LayoutView::Pane(_) => true,
        LayoutView::Split(_, ratio, a, b) => ratio.clamped() == ratio && ratios_clamped(*a)
            && ratios_clamped(*b),
    }
}

proof fn lemma_clamped(ratio: SplitRatio)
    ensures
        ratio.clamped().clamped() == ratio.clamped(),
        ratio.in_range() ==> ratio.clamped() == ratio,
{
    let bits = ratio.clamped().bits;
    assert(MIN_RATIO_BITS <= bits <= MAX_RATIO_BITS ==> bits % SIGN_BIT == bits);
    assert(MIN_RATIO_BITS <= ratio.bits <= MAX_RATIO_BITS ==> ratio.bits % SIGN_BIT == ratio.bits);
}

proof fn lemma_in_range_is_clamped(v: LayoutView)
    requires
        ratios_in_range(v),
    ensures
        ratios_clamped(v),
    decreases v,
{
    match v {
        LayoutView::Pane(_) => {},
        LayoutView::Split(_, ratio, a, b) => {
            lemma_clamped(ratio);
            lemma_in_range_is_clamped(*a);
            lemma_in_range_is_clamped(*b);
        },
    }
}

proof fn lemma_settled_is_clamped(v: LayoutView, valid: Seq<Seq<char>>, placed: Seq<Seq<char>>)
    ensures
        settled(v, valid, placed).0 is Some ==> ratios_clamped(settled(v, valid, placed).0->0),
    decreases v,
{
    match v {
        LayoutView::Pane(_) => {},
        LayoutView::Split(_, ratio, a, b) => {
            lemma_clamped(ratio);
            lemma_settled_is_clamped(*a, valid, placed);
            lemma_settled_is_clamped(*b, valid, settled(*a, valid, placed).1);
        },
    }
}

proof fn lemma_completed_is_clamped(
    layout: Option<LayoutView>,
    placed: Seq<Seq<char>>,
    ids: Seq<Seq<char>>,
)
    requires
        layout is Some ==> ratios_clamped(layout->0),
    ensures
        completed(layout, placed, ids) is Some ==> ratios_clamped(
            completed(layout, placed, ids)->0,
        ),
    decreases ids.len(),
{
    if ids.len() > 0 {
        if placed.contains(ids[0]) {
            lemma_completed_is_clamped(layout, placed, ids.skip(1));
        } else {
            let half = SplitRatio { bits: HALF_RATIO_BITS };
            let next = appended(layout, MuxSplitDirection::Horizontal, half, ids[0]);
            lemma_clamped(half);
            reveal_with_fuel(ratios_clamped, 2);
            assert(ratios_clamped(next));
            lemma_completed_is_clamped(Some(next), placed.push(ids[0]), ids.skip(1));
        }
    }
}

proof fn lemma_settled_keeps_valid(
    v: LayoutView,
    valid: Seq<Seq<char>>,
    placed: Seq<Seq<char>>,
)
    requires
        ratios_clamped(v),
        (placed + leaves(v)).no_duplicates(),
        forall|k: int| 0 <= k < leaves(v).len() ==> valid.contains(#[trigger] leaves(v)[k]),
    ensures
        settled(v, valid, placed) == (Some(v), placed + leaves(v)),
    decreases v,
{
    let all = leaves(v);
    match v {
        LayoutView::Pane(id) => {
            assert(all[0] == id);
            assert(placed + all =~= placed.push(id));
            if placed.contains(id) {
                let k = choose|k: int| 0 <= k < placed.len() && placed[k] == id;
                assert((placed + all)[k] == (placed + all)[placed.len() as int]);
            }
        },
        LayoutView::Split(direction, ratio, a, b) => {
            let l = leaves(*a);
            let m = leaves(*b);
            assert(placed + all =~= (placed + l) + m);
            assert forall|i: int, j: int|
                0 <= i < (placed + l).len() && 0 <= j < (placed + l).len() && i != j implies (
            placed + l)[i] != (placed + l)[j] by {
                assert((placed + all)[i] == (placed + l)[i]);
                assert((placed + all)[j] == (placed + l)[j]);
            }
            assert forall|k: int| 0 <= k < l.len() implies valid.contains(#[trigger] l[k]) by {
                assert(l[k] == all[k]);
            }
            assert forall|k: int| 0 <= k < m.len() implies valid.contains(#[trigger] m[k]) by {
                assert(m[k] == all[l.len() + k]);
            }
            lemma_settled_keeps_valid(*a, valid, placed);
            lemma_settled_keeps_valid(*b, valid, placed + l);
        },
    }
}

proof fn lemma_completed_all_placed(
    layout: Option<LayoutView>,
    placed: Seq<Seq<char>>,
    ids: Seq<Seq<char>>,
)
    requires
        forall|k: int| 0 <= k < ids.len() ==> placed.contains(#[trigger] ids[k]),
    ensures
        completed(layout, placed, ids) == layout,
    decreases ids.len(),
{
    if ids.len() > 0 {
        assert(placed.contains(ids[0]));
        let rest = ids.skip(1);
        assert forall|k: int| 0 <= k < rest.len() implies placed.contains(#[trigger] rest[k]) by {
            assert(rest[k] == ids[k + 1]);
        }
        lemma_completed_all_placed(layout, placed, rest);
    }
}

proof fn lemma_normalized_stays(v: LayoutView, ids: Seq<Seq<char>>)
    requires
        ratios_clamped(v),
        leaves(v).no_duplicates(),
        forall|id: Seq<char>|
            #![trigger ids.contains(id)]
            leaves(v).contains(id) <==> ids.contains(id),
    ensures
        normalized(Some(v), ids) == Some(v),
{
    let none = Seq::<Seq<char>>::empty();
    let all = leaves(v);
    assert(none + all =~= all);
    assert forall|k: int| 0 <= k < all.len() implies ids.contains(#[trigger] all[k]) by {
        assert(all.contains(all[k]));
    }
    lemma_settled_keeps_valid(v, ids, none);
    assert forall|k: int| 0 <= k < ids.len() implies all.contains(#[trigger] ids[k]) by {
        assert(ids.contains(ids[k]));
    }
    lemma_completed_all_placed(Some(v), all, ids);
}

/// Normalizing leaves a valid layout as it is.
pub proof fn law_normalizing_keeps_a_valid_layout(v: LayoutView, ids: Seq<Seq<char>>)
    requires
        layout_valid(v, ids),
    ensures
        normalized(Some(v), ids) == Some(v),
{
    lemma_in_range_is_clamped(v);
    lemma_normalized_stays(v, ids);
}

/// Normalizing a layout again changes nothing, whatever the layout was.
pub proof fn law_normalizing_twice_is_normalizing_once(
    layout: Option<LayoutView>,
    ids: Seq<Seq<char>>,
)
    ensures
        normalized(normalized(layout, ids), ids) == normalized(layout, ids),
{
    let once = normalized(layout, ids);
    law_normalized_layout_holds_each_pane_once(layout, ids);
    match layout {
        None => {
            lemma_completed_is_clamped(None, Seq::empty(), ids);
        },
        Some(v) => {
            let (kept, placed) = settled(v, ids, Seq::empty());
            lemma_settled_is_clamped(v, ids, Seq::empty());
            lemma_completed_is_clamped(kept, placed, ids);
        },
    }
    match once {
        Some(v) => {
            lemma_normalized_stays(v, ids);
        },
        None => {
            if ids.len() > 0 {
                assert(ids.contains(ids[0]));
                assert(!opt_leaves(once).contains(ids[0]));
            }
        },
    }
}

/// A copy of a layout.
pub fn copy_layout(node: &MuxSplitNode) -> (r: MuxSplitNode)
    ensures
        r.view() == node.view(),
    decreases node,
{
    match node {
        MuxSplitNode::Pane { pane_id } => MuxSplitNode::Pane { pane_id: pane_id.clone() },
        MuxSplitNode::Split { direction, ratio, first, second } => MuxSplitNode::Split {
            direction: *direction,
            ratio: *ratio,
            first: Box::new(copy_layout(first)),
            second: Box::new(copy_layout(second)),
        },
    }
}

/// A copy of a layout that may be missing.
pub fn copy_opt_layout(layout: &Option<MuxSplitNode>) -> (r: Option<MuxSplitNode>)
    ensures
        opt_layout(r) == opt_layout(*layout),
{
    match layout {
        Some(node) => Some(copy_layout(node)),
        None => None,
    }
}

/// The part stands somewhere in the layout.
pub open spec fn has_part(v: LayoutView, part: LayoutView) -> bool
    decreases v,
{
    v == part || match v {
        LayoutView::Pane(_) => false,
        LayoutView::Split(_, _, a, b) => has_part(*a, part) || has_part(*b, part),
    }
}

proof fn lemma_absent(v: LayoutView, id: Seq<char>)
    requires
        !leaves(v).contains(id),
    ensures
        pruned(v, seq![id]) == Some(v),
{
    let removed = seq![id];
    assert forall|i: int| 0 <= i < leaves(v).len() implies !removed.contains(
        #[trigger] leaves(v)[i],
    ) by {
        assert(leaves(v).contains(leaves(v)[i]));
    }
    lemma_pruned(v, removed);
}

proof fn lemma_anchored_and_pruned(
    v: LayoutView,
    anchor: Seq<char>,
    direction: MuxSplitDirection,
    ratio: SplitRatio,
    id: Seq<char>,
)
    requires
        !leaves(v).contains(id),
    ensures
        pruned(anchored(v, anchor, direction, ratio, id).0, seq![id]) == Some(v),
        leaves(v).contains(anchor) ==> has_part(
            anchored(v, anchor, direction, ratio, id).0,
            LayoutView::Split(
                direction,
                ratio,
                Box::new(LayoutView::Pane(anchor)),
                Box::new(LayoutView::Pane(id)),
            ),
        ),
    decreases v,
{
    lemma_absent(v, id);
    lemma_anchored(v, anchor, direction, ratio, id);
    let (after, found) = anchored(v, anchor, direction, ratio, id);
    match v {
        LayoutView::Pane(own) => {
            assert(seq![id][0] == id);
            reveal_with_fuel(pruned, 2);
        },
        LayoutView::Split(d, r, a, b) => {
            lemma_anchored(*a, anchor, direction, ratio, id);
            lemma_anchored(*b, anchor, direction, ratio, id);
            assert forall|k: int| 0 <= k < leaves(*a).len() implies leaves(*a)[k] != id by {
                assert(leaves(v)[k] == leaves(*a)[k]);
            }
            assert forall|k: int| 0 <= k < leaves(*b).len() implies leaves(*b)[k] != id by {
                assert(leaves(v)[k + leaves(*a).len()] == leaves(*b)[k]);
            }
            lemma_absent(*a, id);
            lemma_absent(*b, id);
            lemma_anchored_and_pruned(*a, anchor, direction, ratio, id);
            lemma_anchored_and_pruned(*b, anchor, direction, ratio, id);
        },
    }
}

/// Putting a pane in leaves all that was there as it was: taking it out again gives the layout
/// back. The one new split has the direction and the ratio that were asked for; the anchor stands
/// first in it, or all that was there where the anchor is not found, and the new pane second.
pub proof fn law_insertion_is_undone_by_pruning(
    v: LayoutView,
    anchor: Option<Seq<char>>,
    direction: MuxSplitDirection,
    ratio: SplitRatio,
    id: Seq<char>,
)
    requires
        !leaves(v).contains(id),
    ensures
        ({
            let after = with_pane(Some(v), anchor, direction, ratio, id);
            let found = anchor is Some && leaves(v).contains(anchor->0);
            let beside = if found {
                LayoutView::Pane(anchor->0)
            } else {
                v
            };
            let added = LayoutView::Split(
                direction,
                ratio,
                Box::new(beside),
                Box::new(LayoutView::Pane(id)),
            );
            &&& pruned(after, seq![id]) == Some(v)
            &&& has_part(after, added)
            &&& !found ==> after == added
        }),
        with_pane(None, anchor, direction, ratio, id) == LayoutView::Pane(id),
{
    lemma_absent(v, id);
    assert(seq![id][0] == id);
    reveal_with_fuel(pruned, 2);
    match anchor {
        Some(a) => {
            lemma_anchored_and_pruned(v, a, direction, ratio, id);
            lemma_anchored(v, a, direction, ratio, id);
        },
        None => {},
    }
}

/// A split that keeps panes on both sides stays, with its direction and its ratio; one that loses a
/// side becomes what is left of the other.
pub proof fn law_pruned_splits_stay_as_they_were(
    direction: MuxSplitDirection,
    ratio: SplitRatio,
    a: LayoutView,
    b: LayoutView,
    removed: Seq<Seq<char>>,
)
    ensures
        ({
            let left = pruned(
                LayoutView::Split(direction, ratio, Box::new(a), Box::new(b)),
                removed,
            );
            &&& all_removed(a, removed) ==> left == pruned(b, removed)
            &&& all_removed(b, removed) ==> left == pruned(a, removed)
            &&& !all_removed(a, removed) && !all_removed(b, removed) ==> left == Some(
                LayoutView::Split(
                    direction,
                    ratio,
                    Box::new(pruned(a, removed)->0),
                    Box::new(pruned(b, removed)->0),
                ),
            )
        }),
{
    lemma_pruned(a, removed);
    lemma_pruned(b, removed);
}

/// Panes may be removed one after the other or together.
pub proof fn law_pruning_in_steps(v: LayoutView, first: Seq<Seq<char>>, second: Seq<Seq<char>>)
    ensures
        pruned(v, first + second) == (match pruned(v, first) {
            Some(rest) => pruned(rest, second),
            None => None,
        }),
    decreases v,
{
    match v {
        LayoutView::Pane(id) => {
            let both = first + second;
            if first.contains(id) {
                let k = choose|k: int| 0 <= k < first.len() && first[k] == id;
                assert(both[k] == id);
            } else if second.contains(id) {
                let k = choose|k: int| 0 <= k < second.len() && second[k] == id;
                assert(both[first.len() + k] == id);
            } else if both.contains(id) {
                let k = choose|k: int| 0 <= k < both.len() && both[k] == id;
                if k < first.len() {
                    assert(first[k] == id);
                } else {
                    assert(second[k - first.len()] == id);
                }
            }
        },
        LayoutView::Split(_, _, a, b) => {
            law_pruning_in_steps(*a, first, second);
            law_pruning_in_steps(*b, first, second);
        },
    }
}

proof fn lemma_without_is_part(ids: Seq<Seq<char>>, removed: Seq<Seq<char>>, k: int)
    requires
        0 <= k < without(ids, removed).len(),
    ensures
        ids.contains(without(ids, removed)[k]),
        !removed.contains(without(ids, removed)[k]),
    decreases ids.len(),
{
    if ids.len() > 0 {
        let rest = without(ids.drop_last(), removed);
        if k < rest.len() {
            lemma_without_is_part(ids.drop_last(), removed, k);
            let j = choose|j: int|
                0 <= j < ids.drop_last().len() && ids.drop_last()[j] == rest[k];
            assert(ids[j] == rest[k]);
        } else {
            assert(ids[ids.len() - 1] == ids.last());
        }
    }
}

proof fn lemma_settled_prunes(
    v: LayoutView,
    valid: Seq<Seq<char>>,
    placed: Seq<Seq<char>>,
    removed: Seq<Seq<char>>,
)
    requires
        ratios_clamped(v),
        leaves(v).no_duplicates(),
        forall|k: int|
            0 <= k < leaves(v).len() ==> !placed.contains(#[trigger] leaves(v)[k]) && (
            removed.contains(leaves(v)[k]) <==> !valid.contains(leaves(v)[k])),
    ensures
        settled(v, valid, placed).0 == pruned(v, removed),
        settled(v, valid, placed).1 == placed + opt_leaves(pruned(v, removed)),
    decreases v,
{
    match v {
        LayoutView::Pane(id) => {
            assert(leaves(v)[0] == id);
            assert(settled(v, valid, placed).1 =~= placed + opt_leaves(pruned(v, removed)));
        },
        LayoutView::Split(_, _, a, b) => {
            let l = leaves(*a);
            let m = leaves(*b);
            let all = leaves(v);
            assert forall|k: int| 0 <= k < l.len() implies !placed.contains(#[trigger] l[k]) && (
            removed.contains(l[k]) <==> !valid.contains(l[k])) by {
                assert(all[k] == l[k]);
            }
            assert forall|i: int, j: int| 0 <= i < l.len() && 0 <= j < l.len() && i != j implies l[i]
                != l[j] by {
                assert(all[i] == l[i] && all[j] == l[j]);
            }
            lemma_settled_prunes(*a, valid, placed, removed);
            let then = settled(*a, valid, placed).1;
            law_prune_keeps_the_other_panes(*a, removed);
            assert forall|k: int| 0 <= k < m.len() implies !then.contains(#[trigger] m[k]) && (
            removed.contains(m[k]) <==> !valid.contains(m[k])) by {
                assert(all[k + l.len()] == m[k]);
                if then.contains(m[k]) {
                    let j = choose|j: int| 0 <= j < then.len() && then[j] == m[k];
                    if j < placed.len() {
                        assert(placed[j] == m[k]);
                    } else {
                        lemma_without_is_part(l, removed, j - placed.len());
                        let i = choose|i: int| 0 <= i < l.len() && l[i] == m[k];
                        assert(all[i] == l[i]);
                    }
                }
            }
            assert forall|i: int, j: int| 0 <= i < m.len() && 0 <= j < m.len() && i != j implies m[i]
                != m[j] by {
                assert(all[i + l.len()] == m[i] && all[j + l.len()] == m[j]);
            }
            lemma_settled_prunes(*b, valid, then, removed);
            assert(settled(v, valid, placed).1 =~= placed + opt_leaves(pruned(v, removed)));
        },
    }
}

/// Where panes of a session are gone, normalizing its layout takes them out and leaves the rest as
/// it was.
pub proof fn law_normalizing_to_fewer_panes_prunes(
    v: LayoutView,
    ids: Seq<Seq<char>>,
    removed: Seq<Seq<char>>,
)
    requires
        ratios_in_range(v),
        leaves(v).no_duplicates(),
        forall|k: int| 0 <= k < ids.len() ==> leaves(v).contains(#[trigger] ids[k]),
        forall|k: int|
            0 <= k < leaves(v).len() ==> (removed.contains(#[trigger] leaves(v)[k])
                <==> !ids.contains(leaves(v)[k])),
    ensures
        normalized(Some(v), ids) == pruned(v, removed),
{
    let none = Seq::<Seq<char>>::empty();
    lemma_in_range_is_clamped(v);
    lemma_settled_prunes(v, ids, none, removed);
    law_prune_keeps_the_other_panes(v, removed);
    let placed = settled(v, ids, none).1;
    assert(placed =~= without(leaves(v), removed));
    assert forall|k: int| 0 <= k < ids.len() implies placed.contains(#[trigger] ids[k]) by {
        assert(leaves(v).contains(ids[k]));
        assert(ids.contains(ids[k]));
        let j = choose|j: int| 0 <= j < leaves(v).len() && leaves(v)[j] == ids[k];
        lemma_without_holds(leaves(v), removed, j);
    }
    lemma_completed_all_placed(pruned(v, removed), placed, ids);
}

proof fn lemma_without_holds(ids: Seq<Seq<char>>, removed: Seq<Seq<char>>, j: int)
    requires
        0 <= j < ids.len(),
        !removed.contains(ids[j]),
    ensures
        without(ids, removed).contains(ids[j]),
    decreases ids.len(),
{
    let rest = without(ids.drop_last(), removed);
    let all = without(ids, removed);
    if j < ids.len() - 1 {
        assert(ids.drop_last()[j] == ids[j]);
        lemma_without_holds(ids.drop_last(), removed, j);
        let k = choose|k: int| 0 <= k < rest.len() && rest[k] == ids[j];
        assert(all[k] == ids[j]);
    } else {
        assert(all[all.len() - 1] == ids[j]);
    }
}

proof fn lemma_completed_with_one(
    layout: Option<LayoutView>,
    placed: Seq<Seq<char>>,
    ids: Seq<Seq<char>>,
    id: Seq<char>,
)
    requires
        forall|k: int| 0 <= k < ids.len() ==> placed.contains(#[trigger] ids[k]),
        !placed.contains(id),
    ensures
        completed(layout, placed, ids.push(id)) == Some(
            appended(
                layout,
                MuxSplitDirection::Horizontal,
                SplitRatio { bits: HALF_RATIO_BITS },
                id,
            ),
        ),
    decreases ids.len(),
{
    let all = ids.push(id);
    if ids.len() == 0 {
        assert(all[0] == id);
        reveal_with_fuel(completed, 2);
        assert(all.skip(1).len() == 0);
    } else {
        assert(all[0] == ids[0]);
        assert(placed.contains(ids[0]));
        assert(all.skip(1) =~= ids.skip(1).push(id));
        assert forall|k: int| 0 <= k < ids.skip(1).len() implies placed.contains(
            #[trigger] ids.skip(1)[k],
        ) by {
            assert(ids.skip(1)[k] == ids[k + 1]);
        }
        lemma_completed_with_one(layout, placed, ids.skip(1), id);
    }
}

/// A pane that a layout does not hold yet comes behind all that is there, side by side with it and
/// with as much room; nothing else changes.
pub proof fn law_a_missing_pane_comes_last(v: LayoutView, ids: Seq<Seq<char>>, id: Seq<char>)
    requires
        layout_valid(v, ids),
        !ids.contains(id),
    ensures
        normalized(Some(v), ids.push(id)) == Some(
            LayoutView::Split(
                MuxSplitDirection::Horizontal,
                SplitRatio { bits: HALF_RATIO_BITS },
                Box::new(v),
                Box::new(LayoutView::Pane(id)),
            ),
        ),
        normalized(None, seq![id]) == Some(LayoutView::Pane(id)),
{
    let none = Seq::<Seq<char>>::empty();
    let all = leaves(v);
    let more = ids.push(id);
    lemma_in_range_is_clamped(v);
    assert(none + all =~= all);
    assert forall|k: int| 0 <= k < all.len() implies more.contains(#[trigger] all[k]) by {
        assert(all.contains(all[k]));
        assert(ids.contains(all[k]));
        let j = choose|j: int| 0 <= j < ids.len() && ids[j] == all[k];
        assert(more[j] == all[k]);
    }
    lemma_settled_keeps_valid(v, more, none);
    assert forall|k: int| 0 <= k < ids.len() implies all.contains(#[trigger] ids[k]) by {
        assert(ids.contains(ids[k]));
    }
    assert(!all.contains(id));
    lemma_completed_with_one(Some(v), all, ids, id);
    lemma_completed_with_one(None, none, none, id);
    assert(none.push(id) =~= seq![id]);
}

/// The text stands at two places of the list.
pub open spec fn stands_twice(list: Seq<Seq<char>>, id: Seq<char>) -> bool {
    exists|i: int, j: int|
        0 <= i < j < list.len() && #[trigger] list[i] == id && #[trigger] list[j] == id
}

proof fn lemma_walked_fault(
    v: LayoutView,
    level: nat,
    valid: Seq<Seq<char>>,
    found: Seq<Seq<char>>,
)
    requires
        found.no_duplicates(),
    ensures
        match walked(v, level, valid, found) {
            Ok(_) => true,
            Err(LayoutFault::TooDeep) => level + depth(v) > MAX_LAYOUT_DEPTH,
            Err(LayoutFault::Foreign(id)) => leaves(v).contains(id) && !valid.contains(id),
            Err(LayoutFault::Repeated(id)) => leaves(v).contains(id) && stands_twice(
                found + leaves(v),
                id,
            ),
            Err(LayoutFault::Ratio) => !ratios_in_range(v),
            Err(LayoutFault::Incomplete) => false,
        },
    decreases v,
{
    let all = leaves(v);
    match v {
        LayoutView::Pane(id) => {
            assert(all[0] == id);
            if found.contains(id) {
                let k = choose|k: int| 0 <= k < found.len() && found[k] == id;
                assert((found + all)[k] == id && (found + all)[found.len() as int] == id);
            }
        },
        LayoutView::Split(_, _, a, b) => {
            let l = leaves(*a);
            let m = leaves(*b);
            lemma_walked_fault(*a, level + 1, valid, found);
            lemma_walked(*a, level + 1, valid, found);
            match walked(*a, level + 1, valid, found) {
                Ok(then) => {
                    lemma_walked_fault(*b, level + 1, valid, then);
                    assert(then + m =~= found + all);
                    assert forall|id: Seq<char>| #[trigger] m.contains(id) implies all.contains(
                        id,
                    ) by {
                        let k = choose|k: int| 0 <= k < m.len() && m[k] == id;
                        assert(all[k + l.len()] == id);
                    }
                },
                Err(fault) => {
                    assert forall|id: Seq<char>| #[trigger] l.contains(id) implies all.contains(
                        id,
                    ) by {
                        let k = choose|k: int| 0 <= k < l.len() && l[k] == id;
                        assert(all[k] == id);
                    }
                    if fault is Repeated {
                        let id = fault->Repeated_0;
                        let part = found + l;
                        let whole = found + all;
                        let (i, j) = choose|i: int, j: int|
                            0 <= i < j < part.len() && #[trigger] part[i] == id && #[trigger] part[j]
                                == id;
                        assert(whole[i] == part[i] && whole[j] == part[j]);
                    }
                },
            }
        },
    }
}

/// What is said against a layout is true of it: it is nested deeper than 32 levels, it holds the
/// pane that is named and the session does not, it holds the pane that is named twice, some ratio
/// is out of range, or some pane of the session is missing.
pub proof fn law_faults_are_true_of_the_layout(v: LayoutView, ids: Seq<Seq<char>>)
    ensures
        match layout_fault(Some(v), ids) {
            None => true,
            Some(LayoutFault::TooDeep) => depth(v) > 32,
            Some(LayoutFault::Foreign(id)) => leaves(v).contains(id) && !ids.contains(id),
            Some(LayoutFault::Repeated(id)) => stands_twice(leaves(v), id),
            Some(LayoutFault::Ratio) => !ratios_in_range(v),
            Some(LayoutFault::Incomplete) => exists|k: int|
                0 <= k < ids.len() && !leaves(v).contains(#[trigger] ids[k]),
        },
        layout_fault(None, ids) matches Some(fault) ==> fault is Incomplete,
{
    let none = Seq::<Seq<char>>::empty();
    lemma_walked_fault(v, 0, ids, none);
    lemma_walked(v, 0, ids, none);
    assert(none + leaves(v) =~= leaves(v));
}

/// Clamping gives a ratio between 0.1 and 0.9 for every number, and moves none that is there
/// already: smaller ones become 0.1, greater ones 0.9. What is not a number stays.
pub proof fn law_ratios_are_clamped(ratio: SplitRatio)
    ensures
        ratio.is_nan() ==> ratio.clamped() == ratio && !ratio.in_range(),
        !ratio.is_nan() ==> 0x3FB999999999999A <= ratio.clamped().bits <= 0x3FECCCCCCCCCCCCD,
        0x3FB999999999999A <= ratio.bits <= 0x3FECCCCCCCCCCCCD <==> ratio.in_range(),
        ratio.in_range() ==> ratio.clamped() == ratio,
        0x3FECCCCCCCCCCCCD < ratio.bits <= INFINITY_BITS ==> ratio.clamped().bits
            == 0x3FECCCCCCCCCCCCD,
        ratio.bits < 0x3FB999999999999A ==> ratio.clamped().bits == 0x3FB999999999999A,
        0x8000000000000000 <= ratio.bits <= 0xFFF0000000000000 ==> ratio.clamped().bits
            == 0x3FB999999999999A,
{
    assert(ratio.bits < 0x8000000000000000 ==> ratio.bits % 0x8000000000000000 == ratio.bits);
    assert(ratio.bits >= 0x8000000000000000 ==> ratio.bits % 0x8000000000000000 == ratio.bits
        - 0x8000000000000000);
}

/// A layout may be nested 32 levels deep and no deeper.
pub proof fn law_layouts_may_be_nested_so_deep(v: LayoutView, ids: Seq<Seq<char>>)
    requires
        ratios_in_range(v),
        leaves(v).no_duplicates(),
        forall|id: Seq<char>|
            #![trigger ids.contains(id)]
            leaves(v).contains(id) <==> ids.contains(id),
    ensures
        layout_fault(Some(v), ids) is None <==> depth(v) <= 32,
{
    law_check_accepts_exactly_the_valid_layouts(v, ids);
}

/// A message against a layout names what is wrong, and the pane where it is about one.
pub proof fn law_messages_name_the_pane(id: Seq<char>)
    ensures
        fault_text(LayoutFault::Foreign(id)) == "布局包含不属于当前 Session 的 Pane："@ + id,
        fault_text(LayoutFault::Repeated(id)) == "布局重复引用了 Pane："@ + id,
        fault_text(LayoutFault::TooDeep) == "布局嵌套不能超过 32 层"@,
        fault_text(LayoutFault::Ratio) == "布局 split ratio 必须在 0.1 到 0.9 之间"@,
        fault_text(LayoutFault::Incomplete) == "布局必须且只能包含当前 Session 的全部 Pane"@,
{
}

} // verus!
