//! Reachability along the edges of a control-flow graph.
use vstd::prelude::*;
use crate::cfg::{CFGEdge, EdgeV};

verus! {

/// Some edge goes from `x` to `y`.
pub open spec fn has_edge(edges: Seq<EdgeV>, x: usize, y: usize) -> bool {
    exists|k: int| 0 <= k < edges.len() && edges[k].from == x && edges[k].to == y
}

/// `p` is a walk: consecutive nodes are joined by edges.
pub open spec fn is_walk(edges: Seq<EdgeV>, p: Seq<usize>) -> bool {
    p.len() >= 1 && forall|i: int| 0 <= i < p.len() - 1 ==> #[trigger] has_edge(edges, p[i], p[i + 1])
}

/// `p` never enters `avoid`.
pub open spec fn avoids(p: Seq<usize>, avoid: Option<usize>) -> bool {
    forall|i: int| 0 <= i < p.len() ==> Some(#[trigger] p[i]) != avoid
}

/// Some walk from `a` to `b` never enters `avoid` (the walk of one node
/// when `a == b`).
pub open spec fn reaches(edges: Seq<EdgeV>, a: usize, b: usize, avoid: Option<usize>) -> bool {
    exists|p: Seq<usize>| is_walk(edges, p) && p[0] == a && p.last() == b && avoids(p, avoid)
}

/// Candidate nodes: `start` and every edge target.
pub open spec fn candidates(edges: Seq<EdgeV>, start: usize) -> Seq<usize> {
    seq![start] + Seq::new(edges.len(), |k: int| edges[k].to)
}

/// A set closed under the edges that do not enter `avoid` holds every node
/// a walk from one of its members reaches.
proof fn lemma_closed_walk(edges: Seq<EdgeV>, c: Seq<usize>, p: Seq<usize>, avoid: Option<usize>, i: int)
    requires
        is_walk(edges, p),
        avoids(p, avoid),
        c.contains(p[0]),
        forall|k: int| 0 <= k < edges.len() && c.contains(#[trigger] edges[k].from) && Some(edges[k].to) != avoid
            ==> c.contains(edges[k].to),
        0 <= i < p.len(),
    ensures
        c.contains(p[i]),
    decreases i,
{
    if i > 0 {
        lemma_closed_walk(edges, c, p, avoid, i - 1);
        let j = i - 1;
        assert(has_edge(edges, p[j], p[j + 1]));
        let k = choose|k: int| 0 <= k < edges.len() && edges[k].from == p[j] && edges[k].to == p[j + 1];
        assert(Some(p[i]) != avoid);
        assert(edges[k].from == p[j]);
    }
}

/// Whether some walk from `start` to `target` never enters `avoid`.
pub fn reaches_exec(edges: &Vec<CFGEdge>, start: usize, target: usize, avoid: Option<usize>) -> (r: bool)
    ensures
        r == reaches(crate::cfg::edges_view(edges@), start, target, avoid),
{
    let ghost es = crate::cfg::edges_view(edges@);
    if avoid == Some(start) {
        assert(!reaches(es, start, target, avoid)) by {
            if reaches(es, start, target, avoid) {
                let p = choose|p: Seq<usize>| is_walk(es, p) && p[0] == start && p.last() == target && avoids(p, avoid);
                assert(Some(p[0]) != avoid);
            }
        }
        return false;
    }
    let ghost cands = candidates(es, start);
    let mut visited: Vec<usize> = Vec::new();
    let mut stack: Vec<usize> = Vec::new();
    visited.push(start);
    stack.push(start);
    proof {
        let p = seq![start];
        assert(is_walk(es, p) && p[0] == start && p.last() == start && avoids(p, avoid));
        assert(cands[0] == start);
    }
    while stack.len() > 0
        invariant
            es == crate::cfg::edges_view(edges@),
            es.len() == edges@.len(),
            cands == candidates(es, start),
            Some(start) != avoid,
            visited@.no_duplicates(),
            stack@.no_duplicates(),
            visited@.contains(start),
            forall|v: usize| visited@.contains(v) ==> cands.contains(v),
            forall|v: usize| visited@.contains(v) ==> Some(v) != avoid,
            forall|v: usize| visited@.contains(v) ==> reaches(es, start, v, avoid),
            forall|v: usize| stack@.contains(v) ==> visited@.contains(v),
            forall|k: int| 0 <= k < es.len() && visited@.contains(#[trigger] es[k].from) && !stack@.contains(es[k].from)
                && Some(es[k].to) != avoid ==> visited@.contains(es[k].to),
            forall|v: usize| visited@.contains(v) && !stack@.contains(v) ==> v != target,
        decreases es.len() + 1 - visited@.len(), stack@.len(),
    {
        let ghost stack0 = stack@;
        let ghost vis_start = visited@;
        let cur = stack.pop().unwrap();
        assert(stack0 == stack@.push(cur));
        assert(stack0.contains(cur));
        assert(!stack@.contains(cur)) by {
            if stack@.contains(cur) {
                let k = choose|k: int| 0 <= k < stack@.len() && stack@[k] == cur;
                assert(stack0[k] == stack0[stack0.len() - 1]);
            }
        }
        assert(forall|v: usize| stack@.contains(v) ==> stack0.contains(v)) by {
            assert forall|v: usize| stack@.contains(v) implies stack0.contains(v) by {
                let k = choose|k: int| 0 <= k < stack@.len() && stack@[k] == v;
                assert(stack0[k] == v);
            }
        }
        if cur == target {
            return true;
        }
        let mut j: usize = 0;
        while j < edges.len()
            invariant
                es == crate::cfg::edges_view(edges@),
                es.len() == edges@.len(),
                cands == candidates(es, start),
                Some(start) != avoid,
                j <= es.len(),
                visited@.no_duplicates(),
                stack@.no_duplicates(),
                visited@.contains(start),
                visited@.contains(cur),
                cur != target,
                !stack@.contains(cur),
                forall|v: usize| visited@.contains(v) ==> cands.contains(v),
                forall|v: usize| visited@.contains(v) ==> Some(v) != avoid,
                forall|v: usize| visited@.contains(v) ==> reaches(es, start, v, avoid),
                forall|v: usize| stack@.contains(v) ==> visited@.contains(v),
                forall|k: int| 0 <= k < es.len() && visited@.contains(#[trigger] es[k].from) && !stack@.contains(es[k].from)
                    && es[k].from != cur && Some(es[k].to) != avoid ==> visited@.contains(es[k].to),
                forall|k: int| 0 <= k < j && es[k].from == cur && Some(es[k].to) != avoid ==> visited@.contains(#[trigger] es[k].to),
                forall|v: usize| visited@.contains(v) && !stack@.contains(v) && v != cur ==> v != target,
                visited@.len() >= vis_start.len(),
                visited@.len() == vis_start.len() ==> stack@.len() < stack0.len(),
            decreases es.len() - j,
        {
            let e = &edges[j];
            assert(es[j as int] == e@);
            let not_avoided = match avoid {
                Some(a) => a != e.to,
                None => true,
            };
            if e.from == cur && not_avoided && !crate::cfg::contains_id(&visited, e.to) {
                let w = e.to;
                proof {
                    let p = choose|p: Seq<usize>| is_walk(es, p) && p[0] == start && p.last() == cur && avoids(p, avoid);
                    let q = p.push(w);
                    assert(has_edge(es, cur, w));
                    assert forall|i: int| 0 <= i < q.len() - 1 implies #[trigger] has_edge(es, q[i], q[i + 1]) by {
                        if i < p.len() - 1 {
                            assert(q[i] == p[i] && q[i + 1] == p[i + 1]);
                        } else {
                            assert(q[i] == cur && q[i + 1] == w);
                        }
                    }
                    assert(avoids(q, avoid));
                    assert(is_walk(es, q) && q[0] == start && q.last() == w);
                    assert(reaches(es, start, w, avoid));
                    assert(cands[j + 1] == w);
                }
                let ghost vis0 = visited@;
                let ghost st0 = stack@;
                visited.push(w);
                stack.push(w);
                assert forall|v: usize| visited@.contains(v) implies vis0.contains(v) || v == w by {
                    let k = choose|k: int| 0 <= k < visited@.len() && visited@[k] == v;
                    if k < vis0.len() {
                        assert(vis0[k] == v);
                    }
                }
                assert forall|v: usize| stack@.contains(v) implies st0.contains(v) || v == w by {
                    let k = choose|k: int| 0 <= k < stack@.len() && stack@[k] == v;
                    if k < st0.len() {
                        assert(st0[k] == v);
                    }
                }
                assert forall|v: usize| vis0.contains(v) implies visited@.contains(v) by {
                    let k = choose|k: int| 0 <= k < vis0.len() && vis0[k] == v;
                    assert(visited@[k] == v);
                }
                assert forall|v: usize| st0.contains(v) implies stack@.contains(v) by {
                    let k = choose|k: int| 0 <= k < st0.len() && st0[k] == v;
                    assert(stack@[k] == v);
                }
                assert(visited@[visited@.len() - 1] == w);
                assert(stack@[stack@.len() - 1] == w);
                assert(!st0.contains(w));
                assert(Some(w) != avoid);
                assert forall|v: usize| #[trigger] visited@.contains(v) && !stack@.contains(v) && v != cur implies v != target by {
                    if v != w {
                        assert(vis0.contains(v));
                        assert(!st0.contains(v));
                    }
                }
                assert forall|v: usize| #[trigger] visited@.contains(v) implies Some(v) != avoid && reaches(es, start, v, avoid) && cands.contains(v) by {
                    if v != w {
                        assert(vis0.contains(v));
                    }
                }
                assert forall|v: usize| stack@.contains(v) implies visited@.contains(v) by {
                    if v != w {
                        assert(st0.contains(v));
                        assert(vis0.contains(v));
                    }
                }
            }
            j += 1;
        }
        proof {
            visited@.unique_seq_to_set();
            cands.lemma_cardinality_of_set();
            assert(visited@.to_set().subset_of(cands.to_set()));
            vstd::set_lib::lemma_len_subset(visited@.to_set(), cands.to_set());
        }
    }
    proof {
        assert forall|k: int| 0 <= k < es.len() && visited@.contains(#[trigger] es[k].from) && Some(es[k].to) != avoid
            implies visited@.contains(es[k].to) by {
            assert(!stack@.contains(es[k].from));
        }
        if reaches(es, start, target, avoid) {
            let p = choose|p: Seq<usize>| is_walk(es, p) && p[0] == start && p.last() == target && avoids(p, avoid);
            lemma_closed_walk(es, visited@, p, avoid, p.len() - 1);
            assert(!stack@.contains(target));
        }
    }
    false
}

} // verus!
