//! Walking the tree of calls.

use vstd::prelude::*;
use vstd::string::*;

use crate::api_types::CallTreeNodeDto;
use crate::requests::GetCallTreeRequest;
use crate::scan::first_of;

verus! {

/// How many nodes one request shows at most.
pub const MAX_NODES: u32 = 500;

/// What the engine gives for a node: the node and behind it those it calls, or an error.
pub open spec fn given(r: Result<Vec<CallTreeNodeDto>, String>) -> Result<
    Seq<CallTreeNodeDto>,
    Seq<char>,
> {
    match r {
        Ok(nodes) => Ok(nodes@),
        Err(e) => Err(e@),
    }
}

/// `fetch` can be called with any node.
pub open spec fn takes_any_node<F: Fn(u32) -> Result<Vec<CallTreeNodeDto>, String>>(
    fetch: F,
) -> bool {
    forall|id: u32| #[trigger] call_requires(fetch, (id,))
}

/// Whenever `fetch` is called with a node, it gives what `children` says.
pub open spec fn gives<F: Fn(u32) -> Result<Vec<CallTreeNodeDto>, String>>(
    fetch: F,
    children: spec_fn(u32) -> Result<Seq<CallTreeNodeDto>, Seq<char>>,
) -> bool {
    forall|id: u32, r: Result<Vec<CallTreeNodeDto>, String>| #[trigger]
        call_ensures(fetch, (id,), r) ==> given(r) == children(id)
}

/// The nodes that the first of `nodes` calls.
pub open spec fn callees(nodes: Seq<CallTreeNodeDto>) -> Seq<u32> {
    Seq::new((nodes.len() - 1) as nat, |i: int| nodes[i + 1].id)
}

/// The number of nodes that are shown where `max_nodes` is the limit: the node asked for is shown
/// whatever the limit.
pub open spec fn node_limit(max_nodes: int) -> int {
    if max_nodes < 1 {
        1
    } else {
        max_nodes
    }
}

/// The tree below a node, `depth` levels of it, each node before those it calls, cut off behind
/// `max_nodes` nodes; or the first error on the way.
pub open spec fn collected(
    children: spec_fn(u32) -> Result<Seq<CallTreeNodeDto>, Seq<char>>,
    node_id: u32,
    depth: nat,
    max_nodes: int,
) -> Result<Seq<CallTreeNodeDto>, Seq<char>>
    decreases depth, 1nat, 0nat,
{
    match children(node_id) {
        Err(e) => Err(e),
        Ok(nodes) => if nodes.len() == 0 {
            Ok(Seq::empty())
        } else if depth <= 1 {
            Ok(first_of(nodes, node_limit(max_nodes)))
        } else {
            collected_below(children, nodes.take(1), callees(nodes), depth, max_nodes)
        },
    }
}

/// `so_far` and behind it the trees below the nodes `ids`, `depth - 1` levels of each, as far as
/// `max_nodes` nodes go.
pub open spec fn collected_below(
    children: spec_fn(u32) -> Result<Seq<CallTreeNodeDto>, Seq<char>>,
    so_far: Seq<CallTreeNodeDto>,
    ids: Seq<u32>,
    depth: nat,
    max_nodes: int,
) -> Result<Seq<CallTreeNodeDto>, Seq<char>>
    decreases depth, 0nat, ids.len(),
{
    if depth == 0 || ids.len() == 0 || so_far.len() >= max_nodes {
        Ok(so_far)
    } else {
        match collected(children, ids[0], (depth - 1) as nat, max_nodes - so_far.len()) {
            Err(e) => Err(e),
            Ok(sub) => collected_below(
                children,
                so_far + sub,
                ids.drop_first(),
                depth,
                max_nodes,
            ),
        }
    }
}

proof fn lemma_collected_len(
    children: spec_fn(u32) -> Result<Seq<CallTreeNodeDto>, Seq<char>>,
    node_id: u32,
    depth: nat,
    max_nodes: int,
)
    ensures
        collected(children, node_id, depth, max_nodes) matches Ok(nodes) ==> nodes.len()
            <= node_limit(max_nodes),
    decreases depth, 1nat, 0nat,
{
    if let Ok(nodes) = children(node_id) {
        if nodes.len() > 0 && depth > 1 {
            lemma_collected_below(children, nodes.take(1), callees(nodes), depth, max_nodes);
        }
    }
}

proof fn lemma_collected_below(
    children: spec_fn(u32) -> Result<Seq<CallTreeNodeDto>, Seq<char>>,
    so_far: Seq<CallTreeNodeDto>,
    ids: Seq<u32>,
    depth: nat,
    max_nodes: int,
)
    requires
        so_far.len() <= node_limit(max_nodes),
    ensures
        collected_below(children, so_far, ids, depth, max_nodes) matches Ok(nodes) ==> {
            &&& nodes.len() <= node_limit(max_nodes)
            &&& so_far.len() <= nodes.len()
            &&& nodes.take(so_far.len() as int) == so_far
        },
    decreases depth, 0nat, ids.len(),
{
    if depth == 0 || ids.len() == 0 || so_far.len() >= max_nodes {
        assert(so_far.take(so_far.len() as int) =~= so_far);
    } else {
        let rest = max_nodes - so_far.len();
        lemma_collected_len(children, ids[0], (depth - 1) as nat, rest);
        if let Ok(sub) = collected(children, ids[0], (depth - 1) as nat, rest) {
            lemma_collected_below(children, so_far + sub, ids.drop_first(), depth, max_nodes);
            if let Ok(nodes) = collected_below(
                children,
                so_far + sub,
                ids.drop_first(),
                depth,
                max_nodes,
            ) {
                assert(nodes.take(so_far.len() as int) =~= nodes.take(
                    (so_far + sub).len() as int,
                ).take(so_far.len() as int));
                assert((so_far + sub).take(so_far.len() as int) =~= so_far);
            }
        }
    }
}

fn callee_ids(nodes: &Vec<CallTreeNodeDto>) -> (r: Vec<u32>)
    requires
        nodes@.len() > 0,
    ensures
        r@ == callees(nodes@),
{
    let mut r: Vec<u32> = Vec::new();
    let mut i: usize = 1;
    while i < nodes.len()
        invariant
            1 <= i <= nodes@.len(),
            r@ == callees(nodes@.take(i as int)),
        decreases nodes@.len() - i,
    {
        r.push(nodes[i].id);
        assert(r@ =~= callees(nodes@.take(i + 1)));
        i = i + 1;
    }
    assert(nodes@.take(nodes@.len() as int) =~= nodes@);
    r
}

/// Collects the tree below a node, `depth` levels of it, cut off behind `max_nodes` nodes. `fetch`
/// gives a node and those it calls.
pub fn collect_tree_to_depth<F: Fn(u32) -> Result<Vec<CallTreeNodeDto>, String>>(
    fetch: &F,
    node_id: u32,
    depth: u32,
    max_nodes: u32,
) -> (r: Result<Vec<CallTreeNodeDto>, String>)
    requires
        takes_any_node(*fetch),
    ensures
        forall|children: spec_fn(u32) -> Result<Seq<CallTreeNodeDto>, Seq<char>>| #[trigger]
            gives(*fetch, children) ==> given(r) == collected(
                children,
                node_id,
                depth as nat,
                max_nodes as int,
            ),
        r matches Ok(nodes) ==> nodes@.len() <= node_limit(max_nodes as int),
    decreases depth,
{
    let fetched = fetch(node_id);
    let ghost first = given(fetched);
    assert forall|children: spec_fn(u32) -> Result<Seq<CallTreeNodeDto>, Seq<char>>| #[trigger]
        gives(*fetch, children) implies children(node_id) == first by {
        assert(call_ensures(*fetch, (node_id,), fetched));
    }
    let mut nodes = match fetched {
        Ok(nodes) => nodes,
        Err(e) => {
            return Err(e);
        },
    };
    if nodes.len() == 0 {
        assert(nodes@ =~= Seq::empty());
        return Ok(nodes);
    }
    if depth <= 1 {
        let limit: usize = if max_nodes < 1 {
            1
        } else {
            max_nodes as usize
        };
        if nodes.len() > limit {
            nodes.truncate(limit);
        }
        return Ok(nodes);
    }
    let ids = callee_ids(&nodes);
    nodes.truncate(1);
    let mut result = nodes;
    let mut i: usize = 0;
    assert(ids@.skip(0) =~= ids@);
    while i < ids.len() && result.len() < max_nodes as usize
        invariant
            takes_any_node(*fetch),
            depth > 1,
            i <= ids@.len(),
            result@.len() <= node_limit(max_nodes as int),
            forall|children: spec_fn(u32) -> Result<Seq<CallTreeNodeDto>, Seq<char>>| #[trigger]
                gives(*fetch, children) ==> collected(
                    children,
                    node_id,
                    depth as nat,
                    max_nodes as int,
                ) == collected_below(
                    children,
                    result@,
                    ids@.skip(i as int),
                    depth as nat,
                    max_nodes as int,
                ),
        decreases ids@.len() - i,
    {
        let remaining: u32 = max_nodes - result.len() as u32;
        let ghost rest = ids@.skip(i as int);
        assert(rest[0] == ids@[i as int]);
        assert(rest.drop_first() =~= ids@.skip(i + 1));
        let sub = collect_tree_to_depth(fetch, ids[i], depth - 1, remaining);
        match sub {
            Ok(sub) => {
                let mut sub = sub;
                result.append(&mut sub);
            },
            Err(e) => {
                return Err(e);
            },
        }
        i = i + 1;
    }
    Ok(result)
}

/// How many levels a request shows: from one to three.
pub open spec fn shown_depth(req: GetCallTreeRequest) -> int {
    if req.depth > 3 {
        3
    } else if req.depth < 1 {
        1
    } else {
        req.depth as int
    }
}

/// The answer to a request for a part of the tree.
pub struct CallTreeResponse {
    pub nodes: Vec<CallTreeNodeDto>,
    pub count: usize,
    pub total_node_count: u32,
    pub depth: u32,
    pub hint: String,
}

/// Shows the tree below a node. `total_node_count` is the size of the whole tree, where the engine
/// could tell.
pub fn get_call_tree<F: Fn(u32) -> Result<Vec<CallTreeNodeDto>, String>>(
    fetch: &F,
    req: &GetCallTreeRequest,
    total_node_count: Option<u32>,
) -> (r: Result<CallTreeResponse, String>)
    requires
        takes_any_node(*fetch),
    ensures
        forall|children: spec_fn(u32) -> Result<Seq<CallTreeNodeDto>, Seq<char>>| #[trigger]
            gives(*fetch, children) ==> match collected(
                children,
                req.node_id,
                shown_depth(*req) as nat,
                MAX_NODES as int,
            ) {
                Err(t) => r matches Err(e) && e@ == t,
                Ok(nodes) => r matches Ok(res) && res.nodes@ == nodes,
            },
        r matches Ok(res) ==> {
            &&& res.count == res.nodes@.len() <= MAX_NODES
            &&& res.total_node_count == match total_node_count {
                Some(n) => n,
                None => 0,
            }
            &&& res.depth == shown_depth(*req)
            &&& res.hint@
                == "Use analyze_function with node_id for detailed analysis including entry arguments."@
        },
{
    let depth: u32 = if req.depth > 3 {
        3
    } else if req.depth < 1 {
        1
    } else {
        req.depth
    };
    match collect_tree_to_depth(fetch, req.node_id, depth, MAX_NODES) {
        Err(e) => Err(e),
        Ok(nodes) => Ok(
            CallTreeResponse {
                count: nodes.len(),
                nodes,
                total_node_count: match total_node_count {
                    Some(n) => n,
                    None => 0,
                },
                depth,
                hint: "Use analyze_function with node_id for detailed analysis including entry arguments.".to_owned(),
            },
        ),
    }
}

/// The tree below a node starts with what the engine gives first for it, and has never more nodes
/// than the limit, or than one where the limit is less. It is empty only where the engine gives
/// nothing for the node.
pub proof fn law_tree_starts_at_its_node(
    children: spec_fn(u32) -> Result<Seq<CallTreeNodeDto>, Seq<char>>,
    node_id: u32,
    depth: nat,
    max_nodes: int,
)
    ensures
        collected(children, node_id, depth, max_nodes) matches Ok(nodes) ==> {
            &&& nodes.len() <= node_limit(max_nodes)
            &&& children(node_id) matches Ok(direct)
            &&& nodes.len() == 0 <==> direct.len() == 0
            &&& nodes.len() > 0 ==> nodes[0] == direct[0]
        },
{
    lemma_collected_len(children, node_id, depth, max_nodes);
    if let Ok(direct) = children(node_id) {
        if direct.len() > 0 && depth > 1 {
            lemma_collected_below(children, direct.take(1), callees(direct), depth, max_nodes);
            if let Ok(nodes) = collected(children, node_id, depth, max_nodes) {
                assert(nodes.take(1)[0] == direct.take(1)[0]);
            }
        }
    }
}

/// All of the tree below a node, `depth` levels of it, each node before those it calls, where the
/// engine answers for every node.
pub open spec fn preorder(
    children: spec_fn(u32) -> Result<Seq<CallTreeNodeDto>, Seq<char>>,
    node_id: u32,
    depth: nat,
) -> Seq<CallTreeNodeDto>
    decreases depth, 1nat, 0nat,
{
    let nodes = children(node_id)->Ok_0;
    if nodes.len() == 0 || depth <= 1 {
        nodes
    } else {
        nodes.take(1) + preorder_of(children, callees(nodes), (depth - 1) as nat)
    }
}

/// The trees below nodes, one behind the other.
pub open spec fn preorder_of(
    children: spec_fn(u32) -> Result<Seq<CallTreeNodeDto>, Seq<char>>,
    ids: Seq<u32>,
    depth: nat,
) -> Seq<CallTreeNodeDto>
    decreases depth, 2nat, ids.len(),
{
    if ids.len() == 0 {
        Seq::empty()
    } else {
        preorder(children, ids[0], depth) + preorder_of(children, ids.drop_first(), depth)
    }
}

/// Where the engine answers for every node, what is collected is the tree below the node in
/// preorder, cut off at the limit.
pub proof fn law_tree_is_a_cut_preorder(
    children: spec_fn(u32) -> Result<Seq<CallTreeNodeDto>, Seq<char>>,
    node_id: u32,
    depth: nat,
    max_nodes: int,
)
    requires
        forall|id: u32| (#[trigger] children(id)) is Ok,
    ensures
        collected(children, node_id, depth, max_nodes) == Ok::<Seq<CallTreeNodeDto>, Seq<char>>(
            first_of(preorder(children, node_id, depth), node_limit(max_nodes)),
        ),
    decreases depth, 1nat, 0nat,
{
    let nodes = children(node_id)->Ok_0;
    assert(children(node_id) is Ok);
    if nodes.len() == 0 {
        assert(nodes =~= Seq::<CallTreeNodeDto>::empty());
    } else if depth > 1 {
        lemma_below_is_a_cut_preorder(
            children,
            nodes.take(1),
            callees(nodes),
            depth,
            max_nodes,
        );
    }
}

proof fn lemma_below_is_a_cut_preorder(
    children: spec_fn(u32) -> Result<Seq<CallTreeNodeDto>, Seq<char>>,
    so_far: Seq<CallTreeNodeDto>,
    ids: Seq<u32>,
    depth: nat,
    max_nodes: int,
)
    requires
        forall|id: u32| (#[trigger] children(id)) is Ok,
        depth > 0,
        0 < so_far.len() <= node_limit(max_nodes),
    ensures
        collected_below(children, so_far, ids, depth, max_nodes) == Ok::<
            Seq<CallTreeNodeDto>,
            Seq<char>,
        >(
            first_of(
                so_far + preorder_of(children, ids, (depth - 1) as nat),
                node_limit(max_nodes),
            ),
        ),
    decreases depth, 0nat, ids.len(),
{
    let below = (depth - 1) as nat;
    let limit = node_limit(max_nodes);
    if ids.len() == 0 {
        assert(so_far + preorder_of(children, ids, below) =~= so_far);
    } else if so_far.len() >= max_nodes {
        assert(first_of(so_far + preorder_of(children, ids, below), limit) =~= so_far);
    } else {
        let rest = max_nodes - so_far.len();
        law_tree_is_a_cut_preorder(children, ids[0], below, rest);
        let tree = preorder(children, ids[0], below);
        let others = preorder_of(children, ids.drop_first(), below);
        let next = so_far + first_of(tree, rest);
        lemma_below_is_a_cut_preorder(children, next, ids.drop_first(), depth, max_nodes);
        assert(preorder_of(children, ids, below) == tree + others);
        assert(first_of(next + others, limit) =~= first_of(so_far + (tree + others), limit));
    }
}

/// All that a walk of the tree below a node meets, `depth` levels of it: a node before those it
/// calls, each of these in the order in which the engine gives them; and the error of a node that
/// the engine does not answer for.
pub open spec fn met(
    children: spec_fn(u32) -> Result<Seq<CallTreeNodeDto>, Seq<char>>,
    node_id: u32,
    depth: nat,
) -> Seq<Result<CallTreeNodeDto, Seq<char>>>
    decreases depth, 1nat, 0int,
{
    match children(node_id) {
        Err(e) => seq![Err(e)],
        Ok(nodes) => if nodes.len() == 0 || depth <= 1 {
            Seq::new(nodes.len(), |i: int| Ok(nodes[i]))
        } else {
            seq![Ok(nodes[0])] + met_from(children, nodes, 1, (depth - 1) as nat)
        },
    }
}

/// What the walks of the trees below the nodes from the `i`-th on meet, one walk behind the other.
pub open spec fn met_from(
    children: spec_fn(u32) -> Result<Seq<CallTreeNodeDto>, Seq<char>>,
    nodes: Seq<CallTreeNodeDto>,
    i: int,
    depth: nat,
) -> Seq<Result<CallTreeNodeDto, Seq<char>>>
    decreases depth, 2nat, nodes.len() - i,
{
    if i >= nodes.len() {
        Seq::empty()
    } else {
        met(children, nodes[i].id, depth) + met_from(children, nodes, i + 1, depth)
    }
}

/// The first `limit` things that a walk meets: the nodes, or the first error among them.
pub open spec fn up_to(walk: Seq<Result<CallTreeNodeDto, Seq<char>>>, limit: int) -> Result<
    Seq<CallTreeNodeDto>,
    Seq<char>,
>
    decreases walk.len(),
{
    if limit <= 0 || walk.len() == 0 {
        Ok(Seq::empty())
    } else {
        match (walk[0], up_to(walk.drop_first(), limit - 1)) {
            (Err(e), _) => Err(e),
            (Ok(_), Err(e)) => Err(e),
            (Ok(node), Ok(rest)) => Ok(seq![node] + rest),
        }
    }
}

proof fn lemma_up_to_both(
    a: Seq<Result<CallTreeNodeDto, Seq<char>>>,
    b: Seq<Result<CallTreeNodeDto, Seq<char>>>,
    limit: int,
)
    requires
        limit >= 0,
    ensures
        match up_to(a, limit) {
            Err(e) => up_to(a + b, limit) == Err::<Seq<CallTreeNodeDto>, Seq<char>>(e),
            Ok(x) => {
                &&& x.len() == if a.len() < limit {
                    a.len() as int
                } else {
                    limit
                }
                &&& match up_to(b, limit - x.len()) {
                    Err(e) => up_to(a + b, limit) == Err::<Seq<CallTreeNodeDto>, Seq<char>>(e),
                    Ok(y) => up_to(a + b, limit) == Ok::<Seq<CallTreeNodeDto>, Seq<char>>(x + y),
                }
            },
        },
    decreases a.len(),
{
    if a.len() == 0 {
        assert(a + b =~= b);
        if let Ok(y) = up_to(b, limit) {
            assert(Seq::<CallTreeNodeDto>::empty() + y =~= y);
        }
    } else if limit > 0 {
        lemma_up_to_both(a.drop_first(), b, limit - 1);
        assert((a + b).drop_first() =~= a.drop_first() + b);
        if let Ok(x) = up_to(a, limit) {
            let rest = up_to(a.drop_first(), limit - 1)->Ok_0;
            assert(x == seq![a[0]->Ok_0] + rest);
            if let Ok(y) = up_to(b, limit - x.len()) {
                assert(x + y =~= seq![a[0]->Ok_0] + (rest + y));
            }
        }
    } else {
        assert(up_to(b, 0) == Ok::<Seq<CallTreeNodeDto>, Seq<char>>(Seq::empty()));
        assert(Seq::<CallTreeNodeDto>::empty() + Seq::<CallTreeNodeDto>::empty() =~= Seq::<
            CallTreeNodeDto,
        >::empty());
    }
}

proof fn lemma_up_to_nodes(nodes: Seq<CallTreeNodeDto>, limit: int)
    requires
        limit >= 0,
    ensures
        up_to(Seq::new(nodes.len(), |i: int| Ok(nodes[i])), limit) == Ok::<
            Seq<CallTreeNodeDto>,
            Seq<char>,
        >(first_of(nodes, limit)),
    decreases nodes.len(),
{
    let walk = Seq::new(
        nodes.len(),
        |i: int| Ok::<CallTreeNodeDto, Seq<char>>(nodes[i]),
    );
    if nodes.len() == 0 || limit == 0 {
        assert(first_of(nodes, limit) =~= Seq::<CallTreeNodeDto>::empty());
    } else {
        let rest = nodes.drop_first();
        lemma_up_to_nodes(rest, limit - 1);
        assert(walk.drop_first() =~= Seq::new(
            rest.len(),
            |i: int| Ok::<CallTreeNodeDto, Seq<char>>(rest[i]),
        ));
        assert(seq![nodes[0]] + first_of(rest, limit - 1) =~= first_of(nodes, limit));
    }
}

/// What is collected below a node is what a walk of the tree meets, up to the limit: the node that
/// the engine gives first and behind it, for every other node that it gives and in their order, the
/// tree below that node, one level less of it; none is left out, however many there are, and the
/// first error that is met before the limit is told. The first node is collected whatever the
/// limit.
pub proof fn law_every_call_is_walked(
    children: spec_fn(u32) -> Result<Seq<CallTreeNodeDto>, Seq<char>>,
    node_id: u32,
    depth: nat,
    max_nodes: int,
)
    ensures
        collected(children, node_id, depth, max_nodes) == up_to(
            met(children, node_id, depth),
            if max_nodes < 1 {
                1
            } else {
                max_nodes
            },
        ),
    decreases depth, 1nat, 0int,
{
    let limit = if max_nodes < 1 {
        1
    } else {
        max_nodes
    };
    match children(node_id) {
        Err(e) => {
            assert(met(children, node_id, depth)[0] == Err::<CallTreeNodeDto, Seq<char>>(e));
        },
        Ok(nodes) => {
            if nodes.len() == 0 {
                assert(met(children, node_id, depth) =~= Seq::empty());
            } else if depth <= 1 {
                lemma_up_to_nodes(nodes, limit);
            } else {
                let head = seq![Ok::<CallTreeNodeDto, Seq<char>>(nodes[0])];
                let behind = met_from(children, nodes, 1, (depth - 1) as nat);
                assert(callees(nodes).skip(0) =~= callees(nodes));
                lemma_walk_below(children, nodes.take(1), nodes, 1, depth, max_nodes);
                assert(head + behind == met(children, node_id, depth));
                assert((head + behind).drop_first() =~= behind);
                assert((head + behind)[0] == head[0]);
                assert(nodes.take(1) =~= seq![nodes[0]]);
                assert(up_to(behind, max_nodes - 1) == up_to(behind, limit - 1));
                assert(up_to(head + behind, limit) == match up_to(behind, limit - 1) {
                    Err(e) => Err::<Seq<CallTreeNodeDto>, Seq<char>>(e),
                    Ok(rest) => Ok::<Seq<CallTreeNodeDto>, Seq<char>>(seq![nodes[0]] + rest),
                });
            }
        },
    }
}

proof fn lemma_walk_below(
    children: spec_fn(u32) -> Result<Seq<CallTreeNodeDto>, Seq<char>>,
    so_far: Seq<CallTreeNodeDto>,
    nodes: Seq<CallTreeNodeDto>,
    i: int,
    depth: nat,
    max_nodes: int,
)
    requires
        depth > 1,
        1 <= i <= nodes.len(),
        so_far.len() > 0,
    ensures
        collected_below(children, so_far, callees(nodes).skip(i - 1), depth, max_nodes)
            == match up_to(
            met_from(children, nodes, i, (depth - 1) as nat),
            max_nodes - so_far.len(),
        ) {
            Err(e) => Err::<Seq<CallTreeNodeDto>, Seq<char>>(e),
            Ok(found) => Ok::<Seq<CallTreeNodeDto>, Seq<char>>(so_far + found),
        },
    decreases depth, 0nat, nodes.len() - i,
{
    let ids = callees(nodes).skip(i - 1);
    let below = (depth - 1) as nat;
    let walk = met_from(children, nodes, i, below);
    let rest = max_nodes - so_far.len();
    if i == nodes.len() || rest <= 0 {
        assert(so_far + Seq::<CallTreeNodeDto>::empty() =~= so_far);
    } else {
        let first = met(children, nodes[i].id, below);
        let others = met_from(children, nodes, i + 1, below);
        assert(ids[0] == nodes[i].id);
        assert(ids.drop_first() =~= callees(nodes).skip(i));
        law_every_call_is_walked(children, nodes[i].id, below, rest);
        lemma_up_to_both(first, others, rest);
        if let Ok(sub) = up_to(first, rest) {
            lemma_walk_below(children, so_far + sub, nodes, i + 1, depth, max_nodes);
            if let Ok(found) = up_to(others, rest - sub.len()) {
                assert(so_far + sub + found =~= so_far + (sub + found));
            }
        }
    }
}

/// A request is shown as many levels as it asks for, but one at least and three at most.
pub proof fn law_one_to_three_levels_are_shown(req: GetCallTreeRequest)
    ensures
        1 <= shown_depth(req) <= 3,
        1 <= req.depth <= 3 ==> shown_depth(req) == req.depth,
        req.depth < 1 ==> shown_depth(req) == 1,
        req.depth > 3 ==> shown_depth(req) == 3,
        MAX_NODES == 500,
{
}

/// What the engine gives is taken as it is, and an engine that always gives what `children` says
/// is one that `children` describes.
pub proof fn law_nodes_are_taken_as_they_are<F: Fn(u32) -> Result<Vec<CallTreeNodeDto>, String>>(
    fetch: F,
    children: spec_fn(u32) -> Result<Seq<CallTreeNodeDto>, Seq<char>>,
    r: Result<Vec<CallTreeNodeDto>, String>,
)
    ensures
        r matches Ok(nodes) ==> given(r) == Ok::<Seq<CallTreeNodeDto>, Seq<char>>(nodes@),
        r matches Err(e) ==> given(r) == Err::<Seq<CallTreeNodeDto>, Seq<char>>(e@),
        (forall|id: u32, r: Result<Vec<CallTreeNodeDto>, String>| #[trigger]
            call_ensures(fetch, (id,), r) ==> given(r) == children(id)) ==> gives(fetch, children),
        (forall|id: u32| #[trigger] call_requires(fetch, (id,))) ==> takes_any_node(fetch),
{
}

} // verus!
