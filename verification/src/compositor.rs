//! The compositor: its output settings, the order layers are painted in,
//! and the render plan that chains them into one output frame.

use vstd::prelude::*;

verus! {

/// Configuration for the compositor.
#[derive(Debug, Clone, Copy)]
pub struct CompositorConfig {
    pub width: u32,
    pub height: u32,
}

impl Default for CompositorConfig {
    fn default() -> (c: Self)
        ensures
            c.width == 1920,
            c.height == 1080,
    {
        CompositorConfig { width: 1920, height: 1080 }
    }
}

/// A black RGBA8 frame of the given size: every byte, alpha included, is
/// zero. The byte count is computed in 32 bits, so it must fit there.
pub fn render_black_frame(width: u32, height: u32) -> (f: Vec<u8>)
    requires
        width * height * 4 <= u32::MAX,
    ensures
        f@ == Seq::new((width * height * 4) as nat, |i: int| 0u8),
{
    assert(width * height <= u32::MAX) by (nonlinear_arith)
        requires
            width * height * 4 <= u32::MAX,
    ;
    let n = width * height * 4;
    let f = vec![0u8; n as usize];
    assert(f@ =~= Seq::new((width * height * 4) as nat, |i: int| 0u8));
    f
}


/// Layer `a` is painted before layer `b`: it lies on a higher track (further
/// back), or on the same track and comes first.
pub open spec fn paints_before(tracks: Seq<usize>, a: int, b: int) -> bool {
    tracks[a] > tracks[b] || (tracks[a] == tracks[b] && a < b)
}

/// `order` lists each of the `n` layers once, back to front.
pub open spec fn is_layer_order(tracks: Seq<usize>, order: Seq<usize>, n: nat) -> bool {
    &&& forall|i: int| 0 <= i < order.len() ==> (#[trigger] order[i]) < n
    &&& forall|k: usize| k < n ==> #[trigger] order.contains(k)
    &&& forall|i: int, j: int|
        0 <= i < j < order.len() ==> paints_before(tracks, order[i] as int, order[j] as int)
}

/// The order in which visible layers are painted, back to front: higher
/// tracks first, layers on one track in their given order. Every layer is
/// listed once.
pub fn layer_order(tracks: &Vec<usize>) -> (order: Vec<usize>)
    ensures
        is_layer_order(tracks@, order@, tracks.len() as nat),
{
    let n = tracks.len();
    let mut order: Vec<usize> = Vec::new();
    let mut k: usize = 0;
    while k < n
        invariant
            k <= n,
            n == tracks.len(),
            is_layer_order(tracks@, order@, k as nat),
        decreases n - k,
    {
        let t = tracks[k];
        let mut pos: usize = 0;
        while pos < order.len() && tracks[order[pos]] >= t
            invariant
                pos <= order.len(),
                n == tracks.len(),
                k < n,
                t == tracks[k as int],
                is_layer_order(tracks@, order@, k as nat),
                forall|i: int| 0 <= i < pos ==> tracks[#[trigger] order[i] as int] >= t,
            decreases order.len() - pos,
        {
            pos = pos + 1;
        }
        let ghost old_order = order@;
        proof {
            assert forall|i: int| pos <= i < old_order.len() implies tracks[#[trigger] old_order[i] as int] < t by {
                if pos < old_order.len() {
                    assert(tracks[old_order[pos as int] as int] < t);
                    if i > pos {
                        assert(paints_before(tracks@, old_order[pos as int] as int, old_order[i] as int));
                    }
                }
            }
        }
        order.insert(pos, k);
        proof {
            assert(order@ =~= old_order.insert(pos as int, k));
            assert forall|i: int| 0 <= i < order.len() implies (#[trigger] order@[i]) < k + 1 by {
                if i < pos {
                    assert(order@[i] == old_order[i]);
                } else if i > pos {
                    assert(order@[i] == old_order[i - 1]);
                }
            }
            assert forall|m: usize| m < k + 1 implies #[trigger] order@.contains(m) by {
                if m == k {
                    assert(order@[pos as int] == k);
                } else {
                    assert(old_order.contains(m));
                    let w = choose|w: int| 0 <= w < old_order.len() && old_order[w] == m;
                    if w < pos {
                        assert(order@[w] == m);
                    } else {
                        assert(order@[w + 1] == m);
                    }
                }
            }
            assert forall|i: int, j: int|
                0 <= i < j < order.len() implies paints_before(tracks@, order@[i] as int, order@[j] as int) by {
                if i < pos && j < pos {
                    assert(order@[i] == old_order[i] && order@[j] == old_order[j]);
                } else if i < pos && j == pos {
                    assert(order@[i] == old_order[i]);
                    assert(old_order[i] < k);
                } else if i < pos && j > pos {
                    assert(order@[i] == old_order[i] && order@[j] == old_order[j - 1]);
                } else if i == pos {
                    assert(order@[j] == old_order[j - 1]);
                    assert(tracks[old_order[j - 1] as int] < t);
                } else {
                    assert(order@[i] == old_order[i - 1] && order@[j] == old_order[j - 1]);
                }
            }
        }
        k = k + 1;
    }
    order
}

/// A node of a render plan; nodes refer to other nodes by their position.
#[derive(Debug, Clone, Copy, PartialEq, Eq, Structural)]
pub enum PlanNode {
    /// A source frame: layer `frame_id` of the painting order, or the black
    /// background when nothing is visible.
    Source { frame_id: u64 },
    /// Layer `above` painted over `below` (normal blending, full opacity).
    Composite { below: usize, above: usize },
    /// The output frame.
    Output { input: usize },
}

/// Node `k` of the render plan for `n` visible layers: one source per layer,
/// then each further layer composited over what is below it, then the
/// output. With no layer, a single black source feeds the output.
pub open spec fn plan_node(n: nat, k: nat) -> PlanNode {
    if n == 0 {
        if k == 0 {
            PlanNode::Source { frame_id: 0 }
        } else {
            PlanNode::Output { input: 0 }
        }
    } else if k < n {
        PlanNode::Source { frame_id: k as u64 }
    } else if k < 2 * n - 1 {
        let j = (k - n) as nat;
        PlanNode::Composite { below: if j == 0 { 0 } else { (n + j - 1) as usize }, above: (j + 1) as usize }
    } else {
        PlanNode::Output { input: if n == 1 { 0 } else { (2 * n - 2) as usize } }
    }
}

/// Number of nodes of the render plan for `n` visible layers.
pub open spec fn plan_len(n: nat) -> nat {
    if n == 0 { 2 } else { 2 * n }
}

/// The render plan for `n` visible layers, painted back to front.
pub fn render_plan(n: usize) -> (plan: Vec<PlanNode>)
    requires
        2 * n <= usize::MAX,
    ensures
        plan.len() == plan_len(n as nat),
        forall|k: int| 0 <= k < plan.len() ==> #[trigger] plan[k] == plan_node(n as nat, k as nat),
{
    let mut plan: Vec<PlanNode> = Vec::new();
    if n == 0 {
        plan.push(PlanNode::Source { frame_id: 0 });
        plan.push(PlanNode::Output { input: 0 });
        return plan;
    }
    let mut i: usize = 0;
    while i < n
        invariant
            i <= n,
            2 * n <= usize::MAX,
            plan.len() == i,
            forall|k: int| 0 <= k < plan.len() ==> #[trigger] plan[k] == plan_node(n as nat, k as nat),
        decreases n - i,
    {
        plan.push(PlanNode::Source { frame_id: i as u64 });
        i = i + 1;
    }
    let mut j: usize = 0;
    while j + 1 < n
        invariant
            n > 0,
            2 * n <= usize::MAX,
            j + 1 <= n,
            plan.len() == n + j,
            forall|k: int| 0 <= k < plan.len() ==> #[trigger] plan[k] == plan_node(n as nat, k as nat),
        decreases n - j,
    {
        let below = if j == 0 { 0 } else { n + j - 1 };
        plan.push(PlanNode::Composite { below, above: j + 1 });
        j = j + 1;
    }
    let last = if n == 1 { 0 } else { 2 * n - 2 };
    plan.push(PlanNode::Output { input: last });
    plan
}

/// The inputs of a plan node.
pub open spec fn node_inputs(node: PlanNode) -> Seq<usize> {
    match node {
        PlanNode::Source { .. } => Seq::empty(),
        PlanNode::Composite { below, above } => seq![below, above],
        PlanNode::Output { input } => seq![input],
    }
}

/// A render plan is already in dependency order: every node's inputs come
/// before it, so it can be executed front to back; it ends in the output.
pub proof fn lemma_plan_in_dependency_order(n: nat, k: nat)
    requires
        k < plan_len(n),
    ensures
        forall|i: int| 0 <= i < node_inputs(plan_node(n, k)).len() ==> (#[trigger] node_inputs(plan_node(n, k))[i]) < k,
        plan_node(n, (plan_len(n) - 1) as nat) is Output,
{
}

} // verus!
