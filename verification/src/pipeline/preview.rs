//! Dry-run preview of a pipeline: execution order and predicted outputs.
use vstd::prelude::*;
use crate::pipeline::model::{Pipeline, PipelineEdge, PipelineNode, ParamMap, param_text, param_unsigned};
use crate::paths::{std_extension, std_file_stem, std_parent, extension, file_stem, parent};
use crate::text::{push_str, push_decimal, string_of, decimal, str_eq, count_char, count_occurrences};

verus! {

// ============================================================
// Execution order
// ============================================================

/// The views of a sequence of strings.
pub open spec fn views(v: Seq<String>) -> Seq<Seq<char>> {
    v.map_values(|s: String| s@)
}

/// The edges of a pipeline as (source, target) pairs.
pub open spec fn edge_pairs(p: Pipeline) -> Seq<(Seq<char>, Seq<char>)> {
    p.edges@.map_values(|e: PipelineEdge| (e.source@, e.target@))
}

/// The node ids of a pipeline, in order.
pub open spec fn node_ids(p: Pipeline) -> Seq<Seq<char>> {
    p.nodes@.map_values(|n: PipelineNode| n.id@)
}

/// The ids the scheduler knows: node ids and edge targets.
pub open spec fn is_key(p: Pipeline, x: Seq<char>) -> bool {
    node_ids(p).contains(x) || exists|j: int| 0 <= j < edge_pairs(p).len() && #[trigger] edge_pairs(p)[j].1 == x
}

/// Every edge into an entry of `o` has its source earlier in `o`.
pub open spec fn respects_edges(es: Seq<(Seq<char>, Seq<char>)>, o: Seq<Seq<char>>) -> bool {
    forall|j: int, k: int|
        0 <= j < es.len() && 0 <= k < o.len() && #[trigger] o[k] == #[trigger] es[j].1 ==> exists|i: int|
            0 <= i < k && #[trigger] o[i] == es[j].0
}

/// A schedule: distinct known ids, each after the sources of all its incoming edges.
pub open spec fn is_schedule(p: Pipeline, o: Seq<Seq<char>>) -> bool {
    &&& o.no_duplicates()
    &&& forall|k: int| 0 <= k < o.len() ==> is_key(p, #[trigger] o[k])
    &&& respects_edges(edge_pairs(p), o)
}

/// A schedule that holds every id that any schedule holds.
pub open spec fn is_maximal_schedule(p: Pipeline, o: Seq<Seq<char>>) -> bool {
    &&& is_schedule(p, o)
    &&& forall|o2: Seq<Seq<char>>, x: Seq<char>| #[trigger] is_schedule(p, o2) && #[trigger] o2.contains(x) ==> o.contains(x)
}

/// The number of edges into `v` whose source is not yet in `done`.
pub open spec fn pending_in(es: Seq<(Seq<char>, Seq<char>)>, v: Seq<char>, done: Seq<Seq<char>>) -> nat
    decreases es.len(),
{
    if es.len() == 0 {
        0
    } else {
        pending_in(es.drop_last(), v, done) + if es.last().1 == v && !done.contains(es.last().0) {
            1nat
        } else {
            0nat
        }
    }
}

proof fn lemma_pending_split(a: Seq<(Seq<char>, Seq<char>)>, b: Seq<(Seq<char>, Seq<char>)>, v: Seq<char>, done: Seq<Seq<char>>)
    ensures
        pending_in(a + b, v, done) == pending_in(a, v, done) + pending_in(b, v, done),
    decreases b.len(),
{
    if b.len() == 0 {
        assert(a + b =~= a);
    } else {
        assert((a + b).drop_last() =~= a + b.drop_last());
        lemma_pending_split(a, b.drop_last(), v, done);
    }
}

proof fn lemma_pending_bound(es: Seq<(Seq<char>, Seq<char>)>, v: Seq<char>, done: Seq<Seq<char>>)
    ensures
        pending_in(es, v, done) <= es.len(),
    decreases es.len(),
{
    if es.len() > 0 {
        lemma_pending_bound(es.drop_last(), v, done);
    }
}

proof fn lemma_pending_zero(es: Seq<(Seq<char>, Seq<char>)>, v: Seq<char>, done: Seq<Seq<char>>)
    requires
        pending_in(es, v, done) == 0,
    ensures
        forall|j: int| 0 <= j < es.len() && #[trigger] es[j].1 == v ==> done.contains(es[j].0),
    decreases es.len(),
{
    if es.len() > 0 {
        lemma_pending_zero(es.drop_last(), v, done);
        assert forall|j: int| 0 <= j < es.len() && #[trigger] es[j].1 == v implies done.contains(es[j].0) by {
            if j < es.len() - 1 {
                assert(es.drop_last()[j] == es[j]);
            }
        }
    }
}

proof fn lemma_pending_witness(es: Seq<(Seq<char>, Seq<char>)>, v: Seq<char>, done: Seq<Seq<char>>) -> (j: int)
    requires
        pending_in(es, v, done) > 0,
    ensures
        0 <= j < es.len(),
        es[j].1 == v,
        !done.contains(es[j].0),
    decreases es.len(),
{
    if es.last().1 == v && !done.contains(es.last().0) {
        es.len() - 1
    } else {
        let j = lemma_pending_witness(es.drop_last(), v, done);
        assert(es.drop_last()[j] == es[j]);
        j
    }
}

proof fn lemma_nodup_subset_len<T>(a: Seq<T>, b: Seq<T>)
    requires
        a.no_duplicates(),
        forall|x: T| a.contains(x) ==> b.contains(x),
    ensures
        a.len() <= b.len(),
{
    a.unique_seq_to_set();
    b.lemma_cardinality_of_set();
    assert(a.to_set().subset_of(b.to_set()));
    vstd::set_lib::lemma_len_subset(a.to_set(), b.to_set());
}

/// When every known id outside `done` still waits on an edge from outside `done`,
/// every schedule lies within `done`.
proof fn lemma_schedules_within(p: Pipeline, done: Seq<Seq<char>>, o2: Seq<Seq<char>>)
    requires
        is_schedule(p, o2),
        forall|x: Seq<char>| is_key(p, x) && !done.contains(x) ==> #[trigger] pending_in(edge_pairs(p), x, done) > 0,
    ensures
        forall|x: Seq<char>| o2.contains(x) ==> done.contains(x),
{
    assert forall|k: int| 0 <= k < o2.len() implies done.contains(#[trigger] o2[k]) by {
        lemma_schedule_prefix_done(p, done, o2, k);
    }
}

proof fn lemma_schedule_prefix_done(p: Pipeline, done: Seq<Seq<char>>, o2: Seq<Seq<char>>, k: int)
    requires
        is_schedule(p, o2),
        forall|x: Seq<char>| is_key(p, x) && !done.contains(x) ==> #[trigger] pending_in(edge_pairs(p), x, done) > 0,
        0 <= k < o2.len(),
    ensures
        done.contains(o2[k]),
    decreases k,
{
    let x = o2[k];
    assert(is_key(p, o2[k]));
    if !done.contains(x) {
        assert(pending_in(edge_pairs(p), x, done) > 0);
        let j = lemma_pending_witness(edge_pairs(p), x, done);
        let es = edge_pairs(p);
        assert(o2[k] == es[j].1);
        let i = choose|i: int| 0 <= i < k && #[trigger] o2[i] == es[j].0;
        lemma_schedule_prefix_done(p, done, o2, i);
    }
}

/// Index of `s` in `v`, if present.
fn find_index(v: &Vec<String>, s: &String) -> (r: Option<usize>)
    ensures
        match r {
            Some(i) => i < v.len() && v@[i as int]@ == s@,
            None => forall|i: int| 0 <= i < v.len() ==> v@[i]@ != s@,
        },
{
    let mut i: usize = 0;
    while i < v.len()
        invariant
            i <= v.len(),
            forall|k: int| 0 <= k < i ==> v@[k]@ != s@,
        decreases v.len() - i,
    {
        if v[i] == *s {
            return Some(i);
        }
        i = i + 1;
    }
    None
}


/// The ids the scheduler knows, each once: node ids in node order, then the
/// targets of edges that are not node ids, in edge order.
fn collect_keys(p: &Pipeline) -> (keys: Vec<String>)
    ensures
        views(keys@).no_duplicates(),
        forall|x: Seq<char>| #[trigger] views(keys@).contains(x) <==> is_key(*p, x),
{
    let mut keys: Vec<String> = Vec::new();
    let mut i: usize = 0;
    while i < p.nodes.len()
        invariant
            i <= p.nodes.len(),
            views(keys@).no_duplicates(),
            forall|x: Seq<char>| #[trigger] views(keys@).contains(x) <==> exists|k: int| 0 <= k < i && node_ids(*p)[k] == x,
        decreases p.nodes.len() - i,
    {
        let ghost old_keys = views(keys@);
        let found = find_index(&keys, &p.nodes[i].id);
        if found.is_none() {
            keys.push(p.nodes[i].id.clone());
        }
        assert(found is None ==> views(keys@) =~= old_keys.push(p.nodes@[i as int].id@));
        assert(found is Some ==> views(keys@) == old_keys);
        assert forall|x: Seq<char>| #[trigger] views(keys@).contains(x) <==> exists|k: int| 0 <= k < i + 1 && node_ids(*p)[k] == x by {
            if views(keys@).contains(x) {
                if x != p.nodes@[i as int].id@ {
                    let k = choose|k: int| 0 <= k < views(keys@).len() && views(keys@)[k] == x;
                    assert(old_keys.contains(x));
                    let k2 = choose|k2: int| 0 <= k2 < i && node_ids(*p)[k2] == x;
                    assert(node_ids(*p)[k2] == x);
                } else {
                    assert(node_ids(*p)[i as int] == x);
                }
            }
            if exists|k: int| 0 <= k < i + 1 && node_ids(*p)[k] == x {
                let k = choose|k: int| 0 <= k < i + 1 && node_ids(*p)[k] == x;
                if k == i {
                    match found {
                        Some(m) => {
                            assert(views(keys@)[m as int] == x);
                        },
                        None => {
                            assert(views(keys@)[views(keys@).len() - 1] == x);
                        },
                    }
                    assert(views(keys@).contains(x));
                } else {
                    assert(old_keys.contains(x));
                    let m = choose|m: int| 0 <= m < old_keys.len() && old_keys[m] == x;
                    assert(views(keys@)[m] == x);
                }
            }
        }
        i = i + 1;
    }
    assert forall|x: Seq<char>| #[trigger] views(keys@).contains(x) <==> node_ids(*p).contains(x) by {
        if node_ids(*p).contains(x) {
            let k = choose|k: int| 0 <= k < node_ids(*p).len() && node_ids(*p)[k] == x;
        }
    }
    let mut j: usize = 0;
    while j < p.edges.len()
        invariant
            j <= p.edges.len(),
            views(keys@).no_duplicates(),
            forall|x: Seq<char>| #[trigger] views(keys@).contains(x) <==>
                (node_ids(*p).contains(x) || exists|k: int| 0 <= k < j && edge_pairs(*p)[k].1 == x),
        decreases p.edges.len() - j,
    {
        let ghost old_keys = views(keys@);
        let found = find_index(&keys, &p.edges[j].target);
        if found.is_none() {
            keys.push(p.edges[j].target.clone());
        }
        assert(found is None ==> views(keys@) =~= old_keys.push(p.edges@[j as int].target@));
        assert(found is Some ==> views(keys@) == old_keys);
        assert forall|x: Seq<char>| #[trigger] views(keys@).contains(x) <==>
            (node_ids(*p).contains(x) || exists|k: int| 0 <= k < j + 1 && edge_pairs(*p)[k].1 == x) by {
            if views(keys@).contains(x) {
                if x != p.edges@[j as int].target@ {
                    let k = choose|k: int| 0 <= k < views(keys@).len() && views(keys@)[k] == x;
                    assert(old_keys.contains(x));
                } else {
                    assert(edge_pairs(*p)[j as int].1 == x);
                }
            }
            if node_ids(*p).contains(x) || exists|k: int| 0 <= k < j + 1 && edge_pairs(*p)[k].1 == x {
                if old_keys.contains(x) {
                    let m = choose|m: int| 0 <= m < old_keys.len() && old_keys[m] == x;
                    assert(views(keys@)[m] == x);
                } else {
                    if node_ids(*p).contains(x) {
                    } else {
                        let k = choose|k: int| 0 <= k < j + 1 && edge_pairs(*p)[k].1 == x;
                        assert(k == j);
                        match found {
                            Some(m) => {
                                assert(views(keys@)[m as int] == x);
                            },
                            None => {
                                assert(views(keys@)[views(keys@).len() - 1] == x);
                            },
                        }
                    }
                }
            }
        }
        j = j + 1;
    }
    keys
}


/// The number of incoming edges of each known id.
fn count_incoming(p: &Pipeline, keys: &Vec<String>) -> (deg: Vec<usize>)
    requires
        views(keys@).no_duplicates(),
        forall|x: Seq<char>| #[trigger] views(keys@).contains(x) <==> is_key(*p, x),
    ensures
        deg.len() == keys.len(),
        forall|i: int| 0 <= i < keys.len() ==> deg@[i] == pending_in(edge_pairs(*p), keys@[i]@, Seq::empty()),
{
    let ghost es = edge_pairs(*p);
    let mut deg: Vec<usize> = Vec::new();
    let mut i: usize = 0;
    while i < keys.len()
        invariant
            i <= keys.len(),
            deg.len() == i,
            forall|k: int| 0 <= k < i ==> deg@[k] == 0,
        decreases keys.len() - i,
    {
        deg.push(0);
        i = i + 1;
    }
    assert(es.subrange(0, 0) =~= Seq::<(Seq<char>, Seq<char>)>::empty());
    let mut j: usize = 0;
    while j < p.edges.len()
        invariant
            es == edge_pairs(*p),
            j <= p.edges.len(),
            deg.len() == keys.len(),
            views(keys@).no_duplicates(),
            forall|x: Seq<char>| #[trigger] views(keys@).contains(x) <==> is_key(*p, x),
            forall|k: int| 0 <= k < keys.len() ==> deg@[k] == pending_in(es.subrange(0, j as int), keys@[k]@, Seq::empty()),
        decreases p.edges.len() - j,
    {
        let ghost tgt = p.edges@[j as int].target@;
        assert(es[j as int].1 == tgt);
        assert(is_key(*p, tgt));
        let found = find_index(keys, &p.edges[j].target);
        let idx = match found {
            Some(idx) => idx,
            None => {
                proof {
                    assert(views(keys@).contains(tgt));
                    let m = choose|m: int| 0 <= m < views(keys@).len() && views(keys@)[m] == tgt;
                    assert(keys@[m]@ == tgt);
                }
                return deg;
            },
        };
        proof {
            assert forall|k: int| 0 <= k < keys.len() implies
                #[trigger] pending_in(es.subrange(0, j + 1), keys@[k]@, Seq::empty()) ==
                    pending_in(es.subrange(0, j as int), keys@[k]@, Seq::empty()) + (if k == idx { 1nat } else { 0nat }) by {
                assert(es.subrange(0, j + 1).drop_last() =~= es.subrange(0, j as int));
                if k != idx {
                    assert(views(keys@)[k] != views(keys@)[idx as int]);
                }
            }
            lemma_pending_bound(es.subrange(0, j as int), keys@[idx as int]@, Seq::empty());
        }
        let d = deg[idx];
        deg.set(idx, d + 1);
        j = j + 1;
    }
    assert(es.subrange(0, p.edges.len() as int) =~= es);
    deg
}


proof fn lemma_push_contains<T>(s: Seq<T>, a: T, x: T)
    ensures
        s.push(a).contains(x) <==> (s.contains(x) || x == a),
{
    if s.push(a).contains(x) {
        let k = choose|k: int| 0 <= k < s.push(a).len() && s.push(a)[k] == x;
        if k < s.len() {
            assert(s[k] == x);
        }
    }
    if s.contains(x) {
        let k = choose|k: int| 0 <= k < s.len() && s[k] == x;
        assert(s.push(a)[k] == x);
    }
    if x == a {
        assert(s.push(a)[s.len() as int] == x);
    }
}

proof fn lemma_pending_step(es: Seq<(Seq<char>, Seq<char>)>, j: int, v: Seq<char>, r0: Seq<Seq<char>>, u: Seq<char>)
    requires
        0 <= j < es.len(),
        !r0.contains(u),
    ensures
        pending_in(es.subrange(0, j + 1), v, r0.push(u)) + pending_in(es.subrange(j + 1, es.len() as int), v, r0) + (
        if es[j].0 == u && es[j].1 == v {
            1int
        } else {
            0int
        }) == pending_in(es.subrange(0, j), v, r0.push(u)) + pending_in(es.subrange(j, es.len() as int), v, r0),
{
    let r1 = r0.push(u);
    let e = es[j];
    assert(es.subrange(0, j + 1).drop_last() =~= es.subrange(0, j));
    assert(es.subrange(j, es.len() as int) =~= seq![e] + es.subrange(j + 1, es.len() as int));
    lemma_pending_split(seq![e], es.subrange(j + 1, es.len() as int), v, r0);
    assert(seq![e].drop_last() =~= Seq::<(Seq<char>, Seq<char>)>::empty());
    assert(seq![e].last() == e);
    assert(pending_in(Seq::<(Seq<char>, Seq<char>)>::empty(), v, r0) == 0);
    assert(pending_in(seq![e], v, r0) == if e.1 == v && !r0.contains(e.0) { 1nat } else { 0nat });
    assert(es.subrange(0, j + 1).last() == e);
    assert(pending_in(es.subrange(0, j + 1), v, r1) == pending_in(es.subrange(0, j), v, r1) + if e.1 == v && !r1.contains(e.0) { 1nat } else { 0nat });
    lemma_push_contains(r0, u, e.0);
}

/// An execution order by Kahn's algorithm: every id that can be scheduled is,
/// each after the sources of all its incoming edges.
pub fn schedule_order(p: &Pipeline) -> (order: Vec<String>)
    ensures
        is_maximal_schedule(*p, views(order@)),
{
    let keys = collect_keys(p);
    let mut deg = count_incoming(p, &keys);
    let ghost es = edge_pairs(*p);
    let mut queue: Vec<usize> = Vec::new();
    let mut i: usize = 0;
    while i < keys.len()
        invariant
            i <= keys.len(),
            deg.len() == keys.len(),
            queue@.no_duplicates(),
            forall|k: int| 0 <= k < queue.len() ==> #[trigger] queue@[k] < i,
            forall|k: int| 0 <= k < i ==> (deg@[k] == 0 <==> queue@.contains(k as usize)),
        decreases keys.len() - i,
    {
        let ghost qb = queue@;
        if deg[i] == 0 {
            queue.push(i);
        }
        proof {
            assert forall|k: int| 0 <= k < i + 1 implies (deg@[k] == 0 <==> queue@.contains(k as usize)) by {
                lemma_push_contains(qb, i, k as usize);
                if qb.contains(k as usize) {
                    let m = choose|m: int| 0 <= m < qb.len() && qb[m] == k as usize;
                    assert(qb[m] < i);
                }
                if k == i && qb.contains(i) {
                    let m = choose|m: int| 0 <= m < qb.len() && qb[m] == i;
                    assert(qb[m] < i);
                }
            }
        }
        i = i + 1;
    }
    let mut result: Vec<String> = Vec::new();
    assert(views(result@) =~= Seq::<Seq<char>>::empty());
    while queue.len() > 0
        invariant
            es == edge_pairs(*p),
            views(keys@).no_duplicates(),
            forall|x: Seq<char>| #[trigger] views(keys@).contains(x) <==> is_key(*p, x),
            deg.len() == keys.len(),
            forall|k: int| 0 <= k < keys.len() ==> deg@[k] == pending_in(es, keys@[k]@, views(result@)),
            forall|k: int| 0 <= k < keys.len() ==> (deg@[k] == 0 <==> (views(result@).contains(keys@[k]@) || queue@.contains(k as usize))),
            queue@.no_duplicates(),
            forall|k: int| 0 <= k < queue.len() ==> #[trigger] queue@[k] < keys.len() && !views(result@).contains(keys@[queue@[k] as int]@),
            is_schedule(*p, views(result@)),
        decreases keys.len() - result.len(),
    {
        let ghost q0 = queue@;
        let u = queue.pop().unwrap();
        assert(queue@ =~= q0.drop_last());
        assert(q0[q0.len() - 1] == u);
        let uname = keys[u].clone();
        let ghost r0 = views(result@);
        assert(!r0.contains(uname@));
        assert(deg@[u as int] == 0);
        proof {
            let r1 = r0.push(uname@);
            assert forall|x: Seq<char>| #[trigger] r1.contains(x) implies views(keys@).contains(x) by {
                let k = choose|k: int| 0 <= k < r1.len() && r1[k] == x;
                if k < r0.len() {
                    assert(r0[k] == x);
                    assert(is_key(*p, r0[k]));
                } else {
                    assert(views(keys@)[u as int] == x);
                }
            }
            assert(r1.no_duplicates());
            lemma_nodup_subset_len(r1, views(keys@));
        }
        result.push(uname.clone());
        let ghost r1 = views(result@);
        assert(r1 =~= r0.push(uname@));
        proof {
            // the new order is still a schedule
            lemma_pending_zero(es, uname@, r0);
            assert(is_key(*p, uname@)) by {
                assert(views(keys@)[u as int] == uname@);
                assert(views(keys@).contains(uname@));
            }
            assert forall|k: int| 0 <= k < keys.len() implies (deg@[k] == 0 <==> (r1.contains(keys@[k]@) || queue@.contains(k as usize))) by {
                lemma_push_contains(r0, uname@, keys@[k]@);
                lemma_push_contains(q0.drop_last(), u, k as usize);
                assert(q0.drop_last().push(u) =~= q0);
                if k != u {
                    assert(views(keys@)[k] != views(keys@)[u as int]);
                }
            }
            assert forall|k: int| 0 <= k < queue.len() implies #[trigger] queue@[k] < keys.len() && !r1.contains(keys@[queue@[k] as int]@) by {
                assert(queue@[k] == q0[k]);
                lemma_push_contains(r0, uname@, keys@[queue@[k] as int]@);
                assert(q0[k] != q0[q0.len() - 1]);
                assert(views(keys@)[queue@[k] as int] != views(keys@)[u as int]);
            }
            assert forall|j: int, k: int|
                0 <= j < es.len() && 0 <= k < r1.len() && #[trigger] r1[k] == #[trigger] es[j].1 implies exists|i: int|
                    0 <= i < k && #[trigger] r1[i] == es[j].0 by {
                if k < r0.len() {
                    assert(r0[k] == es[j].1);
                    let i = choose|i: int| 0 <= i < k && #[trigger] r0[i] == es[j].0;
                    assert(r1[i] == es[j].0);
                } else {
                    assert(r0.contains(es[j].0));
                    let i = choose|i: int| 0 <= i < r0.len() && r0[i] == es[j].0;
                    assert(r1[i] == es[j].0);
                }
            }
            assert forall|k: int| 0 <= k < r1.len() implies is_key(*p, #[trigger] r1[k]) by {
                if k < r0.len() {
                    assert(r0[k] == r1[k]);
                }
            }
            assert(es.subrange(0, 0) =~= Seq::<(Seq<char>, Seq<char>)>::empty());
            assert(es.subrange(0, es.len() as int) =~= es);
            assert forall|y: Seq<char>| #[trigger] r1.contains(y) <==> (r0.contains(y) || y == uname@) by {
                if r1.contains(y) {
                    let k = choose|k: int| 0 <= k < r1.len() && r1[k] == y;
                    if k < r0.len() {
                        assert(r0[k] == y);
                    }
                }
                if r0.contains(y) {
                    let k = choose|k: int| 0 <= k < r0.len() && r0[k] == y;
                    assert(r1[k] == y);
                }
                if y == uname@ {
                    assert(r1[r0.len() as int] == y);
                }
            }
        }
        let mut j: usize = 0;
        while j < p.edges.len()
            invariant
                es == edge_pairs(*p),
                j <= p.edges.len(),
                views(keys@).no_duplicates(),
                forall|x: Seq<char>| #[trigger] views(keys@).contains(x) <==> is_key(*p, x),
                deg.len() == keys.len(),
                r1 == views(result@),
                r1 == r0.push(uname@),
                !r0.contains(uname@),
                forall|y: Seq<char>| #[trigger] r1.contains(y) <==> (r0.contains(y) || y == uname@),
                forall|k: int| 0 <= k < keys.len() ==> deg@[k] == pending_in(es.subrange(0, j as int), keys@[k]@, r1)
                    + pending_in(es.subrange(j as int, es.len() as int), keys@[k]@, r0),
                forall|k: int| 0 <= k < keys.len() ==> (deg@[k] == 0 <==> (r1.contains(keys@[k]@) || queue@.contains(k as usize))),
                queue@.no_duplicates(),
                forall|k: int| 0 <= k < queue.len() ==> #[trigger] queue@[k] < keys.len() && !r1.contains(keys@[queue@[k] as int]@),
            decreases p.edges.len() - j,
        {
            proof {
                assert forall|k: int| 0 <= k < keys.len() implies
                    pending_in(es.subrange(0, j + 1), keys@[k]@, r1) + pending_in(es.subrange(j + 1, es.len() as int), keys@[k]@, r0) + (
                    if es[j as int].0 == uname@ && es[j as int].1 == keys@[k]@ { 1int } else { 0int })
                    == pending_in(es.subrange(0, j as int), keys@[k]@, r1) + pending_in(es.subrange(j as int, es.len() as int), keys@[k]@, r0) by {
                    lemma_pending_step(es, j as int, keys@[k]@, r0, uname@);
                }
            }
            if p.edges[j].source == uname {
                let ghost tgt = p.edges@[j as int].target@;
                assert(es[j as int].1 == tgt);
                assert(es[j as int].0 == uname@);
                assert(is_key(*p, tgt));
                let found = find_index(&keys, &p.edges[j].target);
                let t = match found {
                    Some(t) => t,
                    None => {
                        proof {
                            assert(views(keys@).contains(tgt));
                            let m = choose|m: int| 0 <= m < views(keys@).len() && views(keys@)[m] == tgt;
                            assert(keys@[m]@ == tgt);
                        }
                        return result;
                    },
                };
                proof {
                    lemma_pending_bound(es.subrange(0, j as int), tgt, r1);
                    assert(deg@[t as int] >= 1);
                    assert forall|k: int| 0 <= k < keys.len() && k != t implies keys@[k]@ != tgt by {
                        assert(views(keys@)[k] != views(keys@)[t as int]);
                    }
                    assert(!r1.contains(keys@[t as int]@));
                    assert(!queue@.contains(t));
                }
                let d = deg[t];
                deg.set(t, d - 1);
                if d - 1 == 0 {
                    let ghost qb = queue@;
                    queue.push(t);
                    proof {
                        assert forall|k: int| 0 <= k < queue.len() implies #[trigger] queue@[k] < keys.len() && !r1.contains(keys@[queue@[k] as int]@) by {
                            if k < qb.len() {
                                assert(qb[k] == queue@[k]);
                            }
                        }
                        assert forall|k: usize| #[trigger] queue@.contains(k) <==> (qb.contains(k) || k == t) by {
                            if queue@.contains(k) {
                                let m = choose|m: int| 0 <= m < queue@.len() && queue@[m] == k;
                                if m < qb.len() {
                                    assert(qb[m] == k);
                                }
                            }
                            if qb.contains(k) {
                                let m = choose|m: int| 0 <= m < qb.len() && qb[m] == k;
                                assert(queue@[m] == k);
                            }
                            if k == t {
                                assert(queue@[qb.len() as int] == k);
                            }
                        }
                    }
                }
            } else {
                proof {
                    assert(es[j as int].0 != uname@);
                }
            }
            j = j + 1;
        }
        proof {
            assert(es.subrange(0, es.len() as int) =~= es);
            assert(es.subrange(es.len() as int, es.len() as int) =~= Seq::<(Seq<char>, Seq<char>)>::empty());
        }
    }
    proof {
        let done = views(result@);
        assert forall|x: Seq<char>| is_key(*p, x) && !done.contains(x) implies #[trigger] pending_in(edge_pairs(*p), x, done) > 0 by {
            assert(views(keys@).contains(x));
            let m = choose|m: int| 0 <= m < views(keys@).len() && views(keys@)[m] == x;
            assert(keys@[m]@ == x);
            assert(!queue@.contains(m as usize));
            assert(deg@[m] != 0);
            assert(deg@[m] == pending_in(es, keys@[m]@, done));
        }
        assert forall|o2: Seq<Seq<char>>, x: Seq<char>| #[trigger] is_schedule(*p, o2) && #[trigger] o2.contains(x) implies done.contains(x) by {
            lemma_schedules_within(*p, done, o2);
        }
    }
    result
}


/// The message of a pipeline whose nodes cannot all be ordered.
pub open spec fn cycle_message() -> Seq<char> {
    "流水线中存在环路,请检查连线"@
}

/// Two maximal schedules hold the same ids, hence have the same length.
pub proof fn lemma_maximal_schedules_same_len(p: Pipeline, o1: Seq<Seq<char>>, o2: Seq<Seq<char>>)
    requires
        is_maximal_schedule(p, o1),
        is_maximal_schedule(p, o2),
    ensures
        o1.len() == o2.len(),
{
    assert forall|x: Seq<char>| o1.contains(x) implies o2.contains(x) by {
        assert(is_schedule(p, o1));
    }
    assert forall|x: Seq<char>| o2.contains(x) implies o1.contains(x) by {
        assert(is_schedule(p, o2));
    }
    lemma_nodup_subset_len(o1, o2);
    lemma_nodup_subset_len(o2, o1);
}

/// Orders the nodes so that every node comes after the sources of its incoming
/// edges (Kahn's algorithm). Fails when not every node can be ordered, which
/// is the case when the edges form a cycle.
pub fn topological_sort(p: &Pipeline) -> (r: Result<Vec<String>, String>)
    ensures
        match r {
            Ok(o) => is_maximal_schedule(*p, views(o@)) && o.len() == p.nodes.len(),
            Err(m) => m@ == cycle_message() && forall|o: Seq<Seq<char>>| #[trigger] is_maximal_schedule(*p, o) ==> o.len() != p.nodes.len(),
        },
{
    let order = schedule_order(p);
    if order.len() != p.nodes.len() {
        proof {
            assert forall|o: Seq<Seq<char>>| #[trigger] is_maximal_schedule(*p, o) implies o.len() != p.nodes.len() by {
                lemma_maximal_schedules_same_len(*p, o, views(order@));
            }
        }
        Err(String::from_str("流水线中存在环路,请检查连线"))
    } else {
        Ok(order)
    }
}


// ============================================================
// Path helpers
// ============================================================

/// The extension of a path, or nothing.
pub open spec fn ext_of(path: Seq<char>) -> Seq<char> {
    match std_extension(path) {
        Some(e) => e,
        None => Seq::empty(),
    }
}

/// A path without its extension: its parent (when not empty), a '/', and its stem
/// (the whole path when it has no stem).
pub open spec fn strip_ext_spec(path: Seq<char>) -> Seq<char> {
    let stem = match std_file_stem(path) {
        Some(s) => s,
        None => path,
    };
    match std_parent(path) {
        Some(par) => if par.len() > 0 {
            par + seq!['/'] + stem
        } else {
            stem
        },
        None => stem,
    }
}

/// A path with its extension replaced.
pub open spec fn change_ext_spec(path: Seq<char>, new_ext: Seq<char>) -> Seq<char> {
    strip_ext_spec(path) + seq!['.'] + new_ext
}

/// A path with a suffix inserted before its extension.
pub open spec fn add_suffix_spec(path: Seq<char>, suffix: Seq<char>) -> Seq<char> {
    let ext = ext_of(path);
    if ext.len() == 0 {
        strip_ext_spec(path) + suffix
    } else {
        strip_ext_spec(path) + suffix + seq!['.'] + ext
    }
}

/// The extension of a path ("" when it has none).
pub fn get_ext(path: &str) -> (r: String)
    ensures
        r@ == ext_of(path@),
{
    match extension(path) {
        Some(e) => e,
        None => String::new(),
    }
}

fn push_strip_ext(out: &mut Vec<char>, path: &str)
    ensures
        final(out)@ == old(out)@ + strip_ext_spec(path@),
{
    let stem = match file_stem(path) {
        Some(s) => s,
        None => String::from_str(path),
    };
    match parent(path) {
        Some(par) => {
            let pc = crate::text::chars_of(par.as_str());
            if pc.len() > 0 {
                push_str(out, par.as_str());
                out.push('/');
                push_str(out, stem.as_str());
                assert(final(out)@ =~= old(out)@ + strip_ext_spec(path@));
                return;
            }
            push_str(out, stem.as_str());
        },
        None => {
            push_str(out, stem.as_str());
        },
    }
}

/// A path without its extension, keeping its directory.
pub fn strip_ext(path: &str) -> (r: String)
    ensures
        r@ == strip_ext_spec(path@),
{
    let mut out: Vec<char> = Vec::new();
    push_strip_ext(&mut out, path);
    assert(out@ =~= strip_ext_spec(path@));
    string_of(out.as_slice())
}

/// A path with its extension replaced by `new_ext`.
pub fn change_ext(path: &str, new_ext: &str) -> (r: String)
    ensures
        r@ == change_ext_spec(path@, new_ext@),
{
    let mut out: Vec<char> = Vec::new();
    push_strip_ext(&mut out, path);
    out.push('.');
    push_str(&mut out, new_ext);
    assert(out@ =~= change_ext_spec(path@, new_ext@));
    string_of(out.as_slice())
}

/// A path with `suffix` inserted before its extension.
pub fn add_suffix(path: &str, suffix: &str) -> (r: String)
    ensures
        r@ == add_suffix_spec(path@, suffix@),
{
    let ext = get_ext(path);
    let mut out: Vec<char> = Vec::new();
    push_strip_ext(&mut out, path);
    push_str(&mut out, suffix);
    let ec = crate::text::chars_of(ext.as_str());
    if ec.len() > 0 {
        out.push('.');
        push_str(&mut out, ext.as_str());
    }
    assert(out@ =~= add_suffix_spec(path@, suffix@));
    string_of(out.as_slice())
}


// ============================================================
// Output prediction
// ============================================================

/// The string parameter `key`, or `default` when absent or not a string.
pub open spec fn text_or(params: ParamMap, key: Seq<char>, default: Seq<char>) -> Seq<char> {
    match param_text(params, key) {
        Some(s) => s,
        None => default,
    }
}

/// The extension an image takes when compressed to format `fmt`.
pub open spec fn image_ext(fmt: Seq<char>) -> Seq<char> {
    if fmt == "jpg"@ || fmt == "jpeg"@ {
        "jpg"@
    } else if fmt == "png"@ {
        "png"@
    } else if fmt == "webp"@ {
        "webp"@
    } else if fmt == "avif"@ {
        "avif"@
    } else {
        "jpg"@
    }
}

/// The first number a rename node gives out.
pub open spec fn rename_start(params: ParamMap) -> nat {
    let n: u64 = match param_unsigned(params, "startNum"@) {
        Some(n) => n,
        None => 1,
    };
    (n as usize) as nat
}

/// The predicted name of the file that rename gives number `num`.
pub open spec fn rename_prediction(prefix: Seq<char>, num: nat, suffix: Seq<char>, file: Seq<char>) -> Seq<char> {
    prefix + decimal(num) + suffix + seq!['.'] + ext_of(file)
}

/// The predicted name of the `i`-th part of a split.
pub open spec fn split_prediction(base: Seq<char>, i: nat) -> Seq<char> {
    base + "_split_"@ + decimal(i + 1) + seq!['-'] + decimal(i + 1) + ".pdf"@
}

/// Whether a node of this type with these inputs can be predicted without
/// exhausting the machine's numbers or reading a missing first input.
pub open spec fn predictable(node_type: Seq<char>, inputs: Seq<Seq<char>>, params: ParamMap) -> bool {
    &&& (node_type == "pdf_split"@ || node_type == "video_cut"@) ==> inputs.len() > 0
    &&& (node_type == "rename"@ && inputs.len() > 0) ==> rename_start(params) + inputs.len() - 1 <= usize::MAX
}

/// The files a node of type `node_type` is predicted to produce from `inputs`.
pub open spec fn predict_spec(node_type: Seq<char>, inputs: Seq<Seq<char>>, params: ParamMap) -> Seq<Seq<char>> {
    if node_type == "image_compress"@ {
        let e = image_ext(text_or(params, "format"@, "jpg"@));
        Seq::new(inputs.len(), |i: int| change_ext_spec(inputs[i], e))
    } else if node_type == "pdf_merge"@ {
        seq![text_or(params, "outputName"@, "merged"@) + ".pdf"@]
    } else if node_type == "pdf_split"@ {
        let count = count_char(text_or(params, "ranges"@, "1"@), ',') + 1;
        let base = strip_ext_spec(inputs[0]);
        Seq::new(count, |i: int| split_prediction(base, i as nat))
    } else if node_type == "pdf_compress"@ {
        inputs
    } else if node_type == "rename"@ {
        let prefix = text_or(params, "prefix"@, Seq::empty());
        let suffix = text_or(params, "suffix"@, Seq::empty());
        let start = rename_start(params);
        Seq::new(inputs.len(), |i: int| rename_prediction(prefix, (start + i) as nat, suffix, inputs[i]))
    } else if node_type == "video_cut"@ {
        let e = ext_of(inputs[0]);
        seq!["cut_output."@ + if e.len() == 0 { "mp4"@ } else { e }]
    } else if node_type == "video_transcode"@ {
        seq!["transcode_output.mp4"@]
    } else if node_type == "video_to_gif"@ {
        seq!["output.gif"@]
    } else if node_type == "extract_audio"@ || node_type == "audio_convert"@ {
        seq!["audio_output."@ + text_or(params, "format"@, "mp3"@)]
    } else if node_type == "office_convert"@ {
        let target = text_or(params, "targetFormat"@, "pdf"@);
        Seq::new(inputs.len(), |i: int| change_ext_spec(inputs[i], target))
    } else if node_type == "archive_extract"@ {
        Seq::new(inputs.len(), |i: int| strip_ext_spec(inputs[i]) + seq!['/'])
    } else if node_type == "archive_compress"@ {
        seq!["archive.zip"@]
    } else {
        inputs
    }
}

fn param_text_or(params: &ParamMap, key: &str, default: &str) -> (r: String)
    ensures
        r@ == text_or(*params, key@, default@),
{
    match params.get_text(key) {
        Some(s) => s,
        None => String::from_str(default),
    }
}

/// A copy of a list of strings.
pub fn copy_strings(v: &Vec<String>) -> (r: Vec<String>)
    ensures
        views(r@) == views(v@),
{
    let mut r: Vec<String> = Vec::new();
    let mut i: usize = 0;
    while i < v.len()
        invariant
            i <= v.len(),
            r.len() == i,
            forall|k: int| 0 <= k < i ==> r@[k]@ == v@[k]@,
        decreases v.len() - i,
    {
        r.push(v[i].clone());
        i = i + 1;
    }
    assert(views(r@) =~= views(v@));
    r
}

fn one_string(chars: Vec<char>) -> (r: Vec<String>)
    ensures
        views(r@) == seq![chars@],
{
    let mut r: Vec<String> = Vec::new();
    r.push(string_of(chars.as_slice()));
    assert(views(r@) =~= seq![chars@]);
    r
}

fn literal_list(s: &str) -> (r: Vec<String>)
    ensures
        views(r@) == seq![s@],
{
    let mut r: Vec<String> = Vec::new();
    r.push(String::from_str(s));
    assert(views(r@) =~= seq![s@]);
    r
}

/// Predicts the files a node produces from its input files, without touching any file.
pub fn predict_outputs(node_type: &str, inputs: &Vec<String>, params: &ParamMap) -> (r: Vec<String>)
    requires
        predictable(node_type@, views(inputs@), *params),
    ensures
        views(r@) == predict_spec(node_type@, views(inputs@), *params),
{
    let ghost ins = views(inputs@);
    if str_eq(node_type, "image_compress") {
        let fmt = param_text_or(params, "format", "jpg");
        let f = fmt.as_str();
        let e = if str_eq(f, "jpg") || str_eq(f, "jpeg") {
            "jpg"
        } else if str_eq(f, "png") {
            "png"
        } else if str_eq(f, "webp") {
            "webp"
        } else if str_eq(f, "avif") {
            "avif"
        } else {
            "jpg"
        };
        assert(e@ == image_ext(fmt@));
        let mut r: Vec<String> = Vec::new();
        let mut i: usize = 0;
        while i < inputs.len()
            invariant
                i <= inputs.len(),
                r.len() == i,
                forall|k: int| 0 <= k < i ==> r@[k]@ == change_ext_spec(inputs@[k]@, e@),
            decreases inputs.len() - i,
        {
            r.push(change_ext(inputs[i].as_str(), e));
            i = i + 1;
        }
        assert(views(r@) =~= predict_spec(node_type@, ins, *params));
        r
    } else if str_eq(node_type, "pdf_merge") {
        let name = param_text_or(params, "outputName", "merged");
        let mut cs: Vec<char> = Vec::new();
        push_str(&mut cs, name.as_str());
        push_str(&mut cs, ".pdf");
        one_string(cs)
    } else if str_eq(node_type, "pdf_split") {
        let ranges = param_text_or(params, "ranges", "1");
        let commas = count_occurrences(ranges.as_str(), ',');
        let base = strip_ext(inputs[0].as_str());
        let mut r: Vec<String> = Vec::new();
        let mut i: usize = 0;
        loop
            invariant_except_break
                i <= commas,
                r.len() == i,
                forall|k: int| 0 <= k < i ==> r@[k]@ == split_prediction(base@, k as nat),
            ensures
                i == commas,
                r.len() == i + 1,
                forall|k: int| 0 <= k <= i ==> r@[k]@ == split_prediction(base@, k as nat),
            decreases commas - i,
        {
            let mut cs: Vec<char> = Vec::new();
            push_str(&mut cs, base.as_str());
            push_str(&mut cs, "_split_");
            push_decimal(&mut cs, (i as u128) + 1);
            cs.push('-');
            push_decimal(&mut cs, (i as u128) + 1);
            push_str(&mut cs, ".pdf");
            assert(cs@ =~= split_prediction(base@, i as nat));
            r.push(string_of(cs.as_slice()));
            if i == commas {
                break;
            }
            i = i + 1;
        }
        assert(views(r@) =~= predict_spec(node_type@, ins, *params));
        r
    } else if str_eq(node_type, "pdf_compress") {
        copy_strings(inputs)
    } else if str_eq(node_type, "rename") {
        proof {
            reveal_strlit("");
        }
        let prefix = param_text_or(params, "prefix", "");
        let suffix = param_text_or(params, "suffix", "");
        let start: usize = match params.get_unsigned("startNum") {
            Some(n) => #[verifier::truncate] (n as usize),
            None => 1,
        };
        assert(start as nat == rename_start(*params));
        let mut r: Vec<String> = Vec::new();
        let mut i: usize = 0;
        while i < inputs.len()
            invariant
                i <= inputs.len(),
                r.len() == i,
                start as nat == rename_start(*params),
                inputs.len() > 0 ==> start + inputs.len() - 1 <= usize::MAX,
                forall|k: int| 0 <= k < i ==> r@[k]@ == rename_prediction(prefix@, (start + k) as nat, suffix@, inputs@[k]@),
            decreases inputs.len() - i,
        {
            let num = start + i;
            let ext = get_ext(inputs[i].as_str());
            let mut cs: Vec<char> = Vec::new();
            push_str(&mut cs, prefix.as_str());
            push_decimal(&mut cs, num as u128);
            push_str(&mut cs, suffix.as_str());
            cs.push('.');
            push_str(&mut cs, ext.as_str());
            assert(cs@ =~= rename_prediction(prefix@, (start + i) as nat, suffix@, inputs@[i as int]@));
            r.push(string_of(cs.as_slice()));
            i = i + 1;
        }
        assert(views(r@) =~= predict_spec(node_type@, ins, *params));
        r
    } else if str_eq(node_type, "video_cut") {
        let e = get_ext(inputs[0].as_str());
        let mut cs: Vec<char> = Vec::new();
        push_str(&mut cs, "cut_output.");
        let ec = crate::text::chars_of(e.as_str());
        if ec.len() == 0 {
            push_str(&mut cs, "mp4");
        } else {
            push_str(&mut cs, e.as_str());
        }
        one_string(cs)
    } else if str_eq(node_type, "video_transcode") {
        literal_list("transcode_output.mp4")
    } else if str_eq(node_type, "video_to_gif") {
        literal_list("output.gif")
    } else if str_eq(node_type, "extract_audio") || str_eq(node_type, "audio_convert") {
        let fmt = param_text_or(params, "format", "mp3");
        let mut cs: Vec<char> = Vec::new();
        push_str(&mut cs, "audio_output.");
        push_str(&mut cs, fmt.as_str());
        one_string(cs)
    } else if str_eq(node_type, "office_convert") {
        let target = param_text_or(params, "targetFormat", "pdf");
        let mut r: Vec<String> = Vec::new();
        let mut i: usize = 0;
        while i < inputs.len()
            invariant
                i <= inputs.len(),
                r.len() == i,
                forall|k: int| 0 <= k < i ==> r@[k]@ == change_ext_spec(inputs@[k]@, target@),
            decreases inputs.len() - i,
        {
            r.push(change_ext(inputs[i].as_str(), target.as_str()));
            i = i + 1;
        }
        assert(views(r@) =~= predict_spec(node_type@, ins, *params));
        r
    } else if str_eq(node_type, "archive_extract") {
        let mut r: Vec<String> = Vec::new();
        let mut i: usize = 0;
        while i < inputs.len()
            invariant
                i <= inputs.len(),
                r.len() == i,
                forall|k: int| 0 <= k < i ==> r@[k]@ == strip_ext_spec(inputs@[k]@) + seq!['/'],
            decreases inputs.len() - i,
        {
            let mut cs: Vec<char> = Vec::new();
            push_strip_ext(&mut cs, inputs[i].as_str());
            cs.push('/');
            assert(cs@ =~= strip_ext_spec(inputs@[i as int]@) + seq!['/']);
            r.push(string_of(cs.as_slice()));
            i = i + 1;
        }
        assert(views(r@) =~= predict_spec(node_type@, ins, *params));
        r
    } else if str_eq(node_type, "archive_compress") {
        literal_list("archive.zip")
    } else {
        copy_strings(inputs)
    }
}


// ============================================================
// Dry run
// ============================================================

/// The preview of one step of a pipeline.
pub struct StepPreview {
    pub node_id: String,
    pub node_type: String,
    pub node_label: String,
    pub input_files: Vec<String>,
    pub output_files: Vec<String>,
    /// The upstream node the input comes from, if any.
    pub input_from: Option<String>,
}

/// The result of a dry run.
pub struct PreviewResult {
    pub pipeline_name: String,
    /// Node order after sorting.
    pub execution_order: Vec<String>,
    pub steps: Vec<StepPreview>,
    /// Whether the pipeline cannot be ordered (it has a cycle).
    pub has_cycle: bool,
    pub error: Option<String>,
}

/// A step preview as plain values.
pub struct StepView {
    pub node_id: Seq<char>,
    pub node_type: Seq<char>,
    pub node_label: Seq<char>,
    pub input_files: Seq<Seq<char>>,
    pub output_files: Seq<Seq<char>>,
    pub input_from: Option<Seq<char>>,
}

/// The plain values of a step preview.
pub open spec fn step_view(s: StepPreview) -> StepView {
    StepView {
        node_id: s.node_id@,
        node_type: s.node_type@,
        node_label: s.node_label@,
        input_files: views(s.input_files@),
        output_files: views(s.output_files@),
        input_from: match s.input_from {
            Some(f) => Some(f@),
            None => None,
        },
    }
}

/// The plain values of a list of step previews.
pub open spec fn step_views(v: Seq<StepPreview>) -> Seq<StepView> {
    v.map_values(|s: StepPreview| step_view(s))
}

/// The state of a dry run: the steps so far and the predicted outputs of each
/// node, the latest entry for an id being the one that counts.
pub struct PreviewState {
    pub steps: Seq<StepView>,
    pub outputs: Seq<(Seq<char>, Seq<Seq<char>>)>,
}

/// The latest value stored under `k`.
pub open spec fn assoc_get(a: Seq<(Seq<char>, Seq<Seq<char>>)>, k: Seq<char>) -> Option<Seq<Seq<char>>>
    decreases a.len(),
{
    if a.len() == 0 {
        None
    } else if a.last().0 == k {
        Some(a.last().1)
    } else {
        assoc_get(a.drop_last(), k)
    }
}

/// The index of the last node with id `id`.
pub open spec fn last_node_index(nodes: Seq<PipelineNode>, id: Seq<char>) -> Option<int>
    decreases nodes.len(),
{
    if nodes.len() == 0 {
        None
    } else if nodes.last().id@ == id {
        Some(nodes.len() - 1)
    } else {
        last_node_index(nodes.drop_last(), id)
    }
}

/// The source of the first edge into `id`.
pub open spec fn first_source_into(es: Seq<(Seq<char>, Seq<char>)>, id: Seq<char>) -> Option<Seq<char>>
    decreases es.len(),
{
    if es.len() == 0 {
        None
    } else if es[0].1 == id {
        Some(es[0].0)
    } else {
        first_source_into(es.drop_first(), id)
    }
}

/// The input files of node `id`: the outputs of the source of its first
/// incoming edge (none if that source has none yet), or the pipeline's inputs
/// when no edge leads into it.
pub open spec fn step_inputs(p: Pipeline, inputs0: Seq<Seq<char>>, outputs: Seq<(Seq<char>, Seq<Seq<char>>)>, id: Seq<char>) -> Seq<Seq<char>> {
    match first_source_into(edge_pairs(p), id) {
        Some(up) => match assoc_get(outputs, up) {
            Some(v) => v,
            None => Seq::empty(),
        },
        None => inputs0,
    }
}

/// One step of a dry run, for the id `id` of the execution order.
pub open spec fn preview_step(p: Pipeline, inputs0: Seq<Seq<char>>, st: PreviewState, id: Seq<char>) -> PreviewState {
    match last_node_index(p.nodes@, id) {
        None => st,
        Some(ni) => {
            let node = p.nodes@[ni];
            let from = first_source_into(edge_pairs(p), id);
            let ins = step_inputs(p, inputs0, st.outputs, id);
            if ins.len() == 0 {
                PreviewState {
                    steps: st.steps.push(StepView {
                        node_id: node.id@,
                        node_type: node.node_type@,
                        node_label: node.label@,
                        input_files: Seq::empty(),
                        output_files: Seq::empty(),
                        input_from: from,
                    }),
                    outputs: st.outputs,
                }
            } else {
                let out = predict_spec(node.node_type@, ins, node.params);
                PreviewState {
                    steps: st.steps.push(StepView {
                        node_id: node.id@,
                        node_type: node.node_type@,
                        node_label: node.label@,
                        input_files: ins,
                        output_files: out,
                        input_from: from,
                    }),
                    outputs: st.outputs.push((node.id@, out)),
                }
            }
        },
    }
}

/// A dry run along an execution order.
pub open spec fn preview_run(p: Pipeline, inputs0: Seq<Seq<char>>, order: Seq<Seq<char>>) -> PreviewState
    decreases order.len(),
{
    if order.len() == 0 {
        PreviewState { steps: Seq::empty(), outputs: Seq::empty() }
    } else {
        preview_step(p, inputs0, preview_run(p, inputs0, order.drop_last()), order.last())
    }
}

/// Whether the step for `id` can be predicted.
pub open spec fn step_fits(p: Pipeline, inputs0: Seq<Seq<char>>, st: PreviewState, id: Seq<char>) -> bool {
    match last_node_index(p.nodes@, id) {
        None => true,
        Some(ni) => {
            let ins = step_inputs(p, inputs0, st.outputs, id);
            ins.len() == 0 || predictable(p.nodes@[ni].node_type@, ins, p.nodes@[ni].params)
        },
    }
}

/// Whether every step of a dry run along `order` can be predicted.
pub open spec fn preview_fits(p: Pipeline, inputs0: Seq<Seq<char>>, order: Seq<Seq<char>>) -> bool
    decreases order.len(),
{
    if order.len() == 0 {
        true
    } else {
        preview_fits(p, inputs0, order.drop_last()) && step_fits(p, inputs0, preview_run(p, inputs0, order.drop_last()), order.last())
    }
}

/// The plain values of stored outputs.
pub open spec fn outputs_view(v: Seq<(String, Vec<String>)>) -> Seq<(Seq<char>, Seq<Seq<char>>)> {
    v.map_values(|e: (String, Vec<String>)| (e.0@, views(e.1@)))
}

proof fn lemma_fits_prefix(p: Pipeline, inputs0: Seq<Seq<char>>, order: Seq<Seq<char>>, k: int)
    requires
        preview_fits(p, inputs0, order),
        0 <= k <= order.len(),
    ensures
        preview_fits(p, inputs0, order.take(k)),
    decreases order.len() - k,
{
    if k < order.len() {
        lemma_fits_prefix(p, inputs0, order, k + 1);
        assert(order.take(k + 1).drop_last() =~= order.take(k));
    } else {
        assert(order.take(k) =~= order);
    }
}

/// The node found by id has that id.
pub proof fn lemma_last_node_index(nodes: Seq<PipelineNode>, id: Seq<char>)
    ensures
        last_node_index(nodes, id) matches Some(i) ==> 0 <= i < nodes.len() && nodes[i].id@ == id,
    decreases nodes.len(),
{
    if nodes.len() > 0 && nodes.last().id@ != id {
        lemma_last_node_index(nodes.drop_last(), id);
    }
}

pub fn find_last_node(nodes: &Vec<PipelineNode>, id: &String) -> (r: Option<usize>)
    ensures
        match r {
            Some(i) => last_node_index(nodes@, id@) == Some(i as int) && i < nodes.len(),
            None => last_node_index(nodes@, id@) is None,
        },
{
    let mut i: usize = nodes.len();
    assert(nodes@.take(nodes.len() as int) =~= nodes@);
    while i > 0
        invariant
            i <= nodes.len(),
            last_node_index(nodes@, id@) == last_node_index(nodes@.take(i as int), id@),
        decreases i,
    {
        assert(nodes@.take(i as int).last() == nodes@[i - 1]);
        assert(nodes@.take(i as int).drop_last() =~= nodes@.take(i - 1));
        if nodes[i - 1].id == *id {
            return Some(i - 1);
        }
        i = i - 1;
    }
    None
}

pub fn find_first_source(p: &Pipeline, id: &String) -> (r: Option<String>)
    ensures
        match r {
            Some(s) => first_source_into(edge_pairs(*p), id@) == Some(s@),
            None => first_source_into(edge_pairs(*p), id@) is None,
        },
{
    let ghost es = edge_pairs(*p);
    let mut j: usize = 0;
    assert(es.skip(0) =~= es);
    while j < p.edges.len()
        invariant
            es == edge_pairs(*p),
            j <= p.edges.len(),
            first_source_into(es, id@) == first_source_into(es.skip(j as int), id@),
        decreases p.edges.len() - j,
    {
        assert(es.skip(j as int)[0] == es[j as int]);
        assert(es.skip(j as int).drop_first() =~= es.skip(j + 1));
        if p.edges[j].target == *id {
            return Some(p.edges[j].source.clone());
        }
        j = j + 1;
    }
    None
}

pub fn find_outputs(outputs: &Vec<(String, Vec<String>)>, key: &String) -> (r: Option<Vec<String>>)
    ensures
        match r {
            Some(v) => assoc_get(outputs_view(outputs@), key@) == Some(views(v@)),
            None => assoc_get(outputs_view(outputs@), key@) is None,
        },
{
    let ghost ov = outputs_view(outputs@);
    let mut i: usize = outputs.len();
    assert(ov.take(outputs.len() as int) =~= ov);
    while i > 0
        invariant
            ov == outputs_view(outputs@),
            i <= outputs.len(),
            assoc_get(ov, key@) == assoc_get(ov.take(i as int), key@),
        decreases i,
    {
        assert(ov.take(i as int).last() == ov[i - 1]);
        assert(ov.take(i as int).drop_last() =~= ov.take(i - 1));
        if outputs[i - 1].0 == *key {
            return Some(copy_strings(&outputs[i - 1].1));
        }
        i = i - 1;
    }
    None
}

/// Whether the prediction for a node of type `node_type` can be made.
fn is_predictable(node_type: &str, inputs: &Vec<String>, params: &ParamMap) -> (r: bool)
    ensures
        r == predictable(node_type@, views(inputs@), *params),
{
    if (str_eq(node_type, "pdf_split") || str_eq(node_type, "video_cut")) && inputs.len() == 0 {
        return false;
    }
    if str_eq(node_type, "rename") && inputs.len() > 0 {
        let n: u64 = match params.get_unsigned("startNum") {
            Some(n) => n,
            None => 1,
        };
        let start = n as usize;
        return start <= usize::MAX - (inputs.len() - 1);
    }
    true
}

/// Simulates a pipeline on `input_files` as `dry_run` does, or gives nothing
/// when a step along the execution order cannot be predicted: a renaming
/// whose numbers would pass the largest `usize`.
pub fn try_dry_run(p: &Pipeline, input_files: Vec<String>) -> (res: Option<PreviewResult>)
    ensures
        res is None ==> exists|o: Seq<Seq<char>>|
            #[trigger] is_maximal_schedule(*p, o) && o.len() == p.nodes.len() && !preview_fits(*p, views(input_files@), o),
        res matches Some(r) ==> {
            &&& r.pipeline_name@ == p.name@
            &&& r.has_cycle == (forall|o: Seq<Seq<char>>| #[trigger] is_maximal_schedule(*p, o) ==> o.len() != p.nodes.len())
            &&& r.has_cycle ==> {
                &&& r.execution_order.len() == 0
                &&& r.steps.len() == 0
                &&& r.error matches Some(e) && e@ == cycle_message()
            }
            &&& !r.has_cycle ==> {
                &&& is_maximal_schedule(*p, views(r.execution_order@))
                &&& r.execution_order.len() == p.nodes.len()
                &&& r.error is None
                &&& preview_fits(*p, views(input_files@), views(r.execution_order@))
                &&& step_views(r.steps@) == preview_run(*p, views(input_files@), views(r.execution_order@)).steps
            }
        },
{
    let order = match topological_sort(p) {
        Err(e) => {
            return Some(PreviewResult {
                pipeline_name: p.name.clone(),
                execution_order: Vec::new(),
                steps: Vec::new(),
                has_cycle: true,
                error: Some(e),
            });
        },
        Ok(o) => o,
    };
    let ghost ins0 = views(input_files@);
    let ghost ord = views(order@);
    let mut steps: Vec<StepPreview> = Vec::new();
    let mut outputs: Vec<(String, Vec<String>)> = Vec::new();
    let mut k: usize = 0;
    assert(ord.take(0) =~= Seq::<Seq<char>>::empty());
    assert(step_views(steps@) =~= Seq::<StepView>::empty());
    assert(outputs_view(outputs@) =~= Seq::<(Seq<char>, Seq<Seq<char>>)>::empty());
    while k < order.len()
        invariant
            k <= order.len(),
            ins0 == views(input_files@),
            ord == views(order@),
            is_maximal_schedule(*p, ord),
            ord.len() == p.nodes.len(),
            preview_fits(*p, ins0, ord.take(k as int)),
            step_views(steps@) == preview_run(*p, ins0, ord.take(k as int)).steps,
            outputs_view(outputs@) == preview_run(*p, ins0, ord.take(k as int)).outputs,
        decreases order.len() - k,
    {
        let ghost st = preview_run(*p, ins0, ord.take(k as int));
        let ghost id = ord[k as int];
        proof {
            assert(ord.take(k + 1).drop_last() =~= ord.take(k as int));
            assert(ord.take(k + 1).last() == id);
        }
        let node_id = &order[k];
        match find_last_node(&p.nodes, node_id) {
            None => {},
            Some(ni) => {
                let node = &p.nodes[ni];
                let input_from = find_first_source(p, node_id);
                let ins: Vec<String> = match &input_from {
                    Some(up) => match find_outputs(&outputs, up) {
                        Some(v) => v,
                        None => Vec::new(),
                    },
                    None => copy_strings(&input_files),
                };
                assert(views(ins@) =~= step_inputs(*p, ins0, st.outputs, id));
                if ins.len() == 0 {
                    let ghost sv = steps@;
                    steps.push(StepPreview {
                        node_id: node.id.clone(),
                        node_type: node.node_type.clone(),
                        node_label: node.label.clone(),
                        input_files: Vec::new(),
                        output_files: Vec::new(),
                        input_from: input_from,
                    });
                    proof {
                        assert(step_views(steps@) =~= step_views(sv).push(step_view(steps@.last())));
                        assert(views(Seq::<String>::empty()) =~= Seq::<Seq<char>>::empty());
                    }
                } else {
                    if !is_predictable(node.node_type.as_str(), &ins, &node.params) {
                        proof {
                            assert(!preview_fits(*p, ins0, ord.take(k + 1)));
                            if preview_fits(*p, ins0, ord) {
                                lemma_fits_prefix(*p, ins0, ord, k + 1);
                            }
                            assert(!preview_fits(*p, ins0, ord));
                        }
                        return None;
                    }
                    let predicted = predict_outputs(node.node_type.as_str(), &ins, &node.params);
                    let ghost sv = steps@;
                    let ghost ov = outputs@;
                    steps.push(StepPreview {
                        node_id: node.id.clone(),
                        node_type: node.node_type.clone(),
                        node_label: node.label.clone(),
                        input_files: ins,
                        output_files: copy_strings(&predicted),
                        input_from: input_from,
                    });
                    outputs.push((node.id.clone(), predicted));
                    proof {
                        assert(step_views(steps@) =~= step_views(sv).push(step_view(steps@.last())));
                        assert(outputs_view(outputs@) =~= outputs_view(ov).push((node.id@, views(outputs@.last().1@))));
                    }
                }
            },
        }
        k = k + 1;
    }
    assert(ord.take(order.len() as int) =~= ord);
    proof {
        assert(!(forall|o: Seq<Seq<char>>| #[trigger] is_maximal_schedule(*p, o) ==> o.len() != p.nodes.len()));
    }
    Some(PreviewResult {
        pipeline_name: p.name.clone(),
        execution_order: order,
        steps,
        has_cycle: false,
        error: None,
    })
}

/// Simulates a pipeline on `input_files`: orders the nodes and predicts what
/// each node receives and produces, without touching any file.
pub fn dry_run(p: &Pipeline, input_files: Vec<String>) -> (r: PreviewResult)
    requires
        forall|o: Seq<Seq<char>>| #[trigger] is_maximal_schedule(*p, o) && o.len() == p.nodes.len() ==> preview_fits(*p, views(input_files@), o),
    ensures
        r.pipeline_name@ == p.name@,
        r.has_cycle == (forall|o: Seq<Seq<char>>| #[trigger] is_maximal_schedule(*p, o) ==> o.len() != p.nodes.len()),
        r.has_cycle ==> {
            &&& r.execution_order.len() == 0
            &&& r.steps.len() == 0
            &&& r.error matches Some(e) && e@ == cycle_message()
        },
        !r.has_cycle ==> {
            &&& is_maximal_schedule(*p, views(r.execution_order@))
            &&& r.execution_order.len() == p.nodes.len()
            &&& r.error is None
            &&& step_views(r.steps@) == preview_run(*p, views(input_files@), views(r.execution_order@)).steps
        },
{
    let ghost ins0 = views(input_files@);
    match try_dry_run(p, input_files) {
        Some(r) => r,
        None => {
            proof {
                let o = choose|o: Seq<Seq<char>>| #[trigger] is_maximal_schedule(*p, o) && o.len() == p.nodes.len() && !preview_fits(*p, ins0, o);
                assert(preview_fits(*p, ins0, o));
            }
            vstd::pervasive::unreached()
        },
    }
}


/// Whether some execution order holds every node.
pub open spec fn orderable(p: Pipeline) -> bool {
    exists|o: Seq<Seq<char>>| #[trigger] is_maximal_schedule(p, o) && o.len() == p.nodes.len()
}

/// `topological_sort` fails (with `cycle_message`) and `dry_run` reports a
/// cycle (with the same message and no order or steps) under one and the same
/// condition, stated in both contracts: no execution order holds every node.
/// Otherwise both give a full order that respects every edge.
pub proof fn cycle_reported_iff_not_orderable(p: Pipeline)
    ensures
        (forall|o: Seq<Seq<char>>| #[trigger] is_maximal_schedule(p, o) ==> o.len() != p.nodes.len()) <==> !orderable(p),
        forall|o: Seq<Seq<char>>| #[trigger] is_maximal_schedule(p, o) && o.len() == p.nodes.len()
            ==> o.no_duplicates() && respects_edges(edge_pairs(p), o),
{
}

// ============================================================
// How the steps of a dry run follow the edges
// ============================================================

/// What the steps so far have produced for `x`: the outputs of the latest step
/// of node `x`, or nothing.
pub open spec fn produced(steps: Seq<StepView>, x: Seq<char>) -> Seq<Seq<char>>
    decreases steps.len(),
{
    if steps.len() == 0 {
        Seq::empty()
    } else if steps.last().node_id == x {
        steps.last().output_files
    } else {
        produced(steps.drop_last(), x)
    }
}

/// The stored outputs of `x`, or nothing.
pub open spec fn stored(outputs: Seq<(Seq<char>, Seq<Seq<char>>)>, x: Seq<char>) -> Seq<Seq<char>> {
    match assoc_get(outputs, x) {
        Some(v) => v,
        None => Seq::empty(),
    }
}

/// The rule each step of a dry run along `o` follows: step `i` is node `o[i]`,
/// fed from the source of its first incoming edge (what the earlier steps
/// produced for it) or from the run's inputs, and predicting its outputs from
/// those inputs (none when it has none).
pub open spec fn step_rule(p: Pipeline, inputs0: Seq<Seq<char>>, o: Seq<Seq<char>>, steps: Seq<StepView>, i: int) -> bool {
    let s = steps[i];
    &&& s.node_id == o[i]
    &&& s.input_from == first_source_into(edge_pairs(p), o[i])
    &&& s.input_files == match s.input_from {
        Some(u) => produced(steps.take(i), u),
        None => inputs0,
    }
    &&& last_node_index(p.nodes@, o[i]) matches Some(n) && {
        &&& s.node_type == p.nodes@[n].node_type@
        &&& s.node_label == p.nodes@[n].label@
        &&& s.output_files == if s.input_files.len() == 0 {
            Seq::<Seq<char>>::empty()
        } else {
            predict_spec(p.nodes@[n].node_type@, s.input_files, p.nodes@[n].params)
        }
    }
}

proof fn lemma_produced_absent(steps: Seq<StepView>, x: Seq<char>)
    requires
        forall|k: int| 0 <= k < steps.len() ==> (#[trigger] steps[k]).node_id != x,
    ensures
        produced(steps, x) == Seq::<Seq<char>>::empty(),
    decreases steps.len(),
{
    if steps.len() > 0 {
        assert(steps.last() == steps[steps.len() - 1]);
        assert forall|k: int| 0 <= k < steps.drop_last().len() implies (#[trigger] steps.drop_last()[k]).node_id != x by {
            assert(steps.drop_last()[k] == steps[k]);
        }
        lemma_produced_absent(steps.drop_last(), x);
    }
}

/// Along an order of distinct ids that all name nodes, a dry run has one step
/// per id, each following `step_rule`, and what it stores for each id is what
/// its steps produced.
proof fn lemma_preview_run_rule(p: Pipeline, inputs0: Seq<Seq<char>>, o: Seq<Seq<char>>)
    requires
        o.no_duplicates(),
        forall|k: int| 0 <= k < o.len() ==> (#[trigger] last_node_index(p.nodes@, o[k])) is Some,
    ensures
        preview_run(p, inputs0, o).steps.len() == o.len(),
        forall|i: int| 0 <= i < o.len() ==> #[trigger] step_rule(p, inputs0, o, preview_run(p, inputs0, o).steps, i),
        forall|x: Seq<char>| #[trigger] stored(preview_run(p, inputs0, o).outputs, x) == produced(preview_run(p, inputs0, o).steps, x),
    decreases o.len(),
{
    if o.len() == 0 {
        assert forall|x: Seq<char>| #[trigger] stored(preview_run(p, inputs0, o).outputs, x) == produced(preview_run(p, inputs0, o).steps, x) by {}
    } else {
        let o1 = o.drop_last();
        let id = o.last();
        assert forall|k: int| 0 <= k < o1.len() implies (#[trigger] last_node_index(p.nodes@, o1[k])) is Some by {
            assert(o1[k] == o[k]);
        }
        assert(o1.no_duplicates()) by {
            assert forall|a: int, b: int| 0 <= a < o1.len() && 0 <= b < o1.len() && a != b implies o1[a] != o1[b] by {
                assert(o1[a] == o[a] && o1[b] == o[b]);
            }
        }
        lemma_preview_run_rule(p, inputs0, o1);
        let st1 = preview_run(p, inputs0, o1);
        let st = preview_run(p, inputs0, o);
        assert(last_node_index(p.nodes@, o[o.len() - 1]) is Some);
        let ni = last_node_index(p.nodes@, id).unwrap();
        lemma_last_node_index(p.nodes@, id);
        let node = p.nodes@[ni];
        let from = first_source_into(edge_pairs(p), id);
        let ins = step_inputs(p, inputs0, st1.outputs, id);
        assert(st.steps.len() == o.len());
        assert(st.steps.drop_last() =~= st1.steps);
        assert(st.steps.take(o.len() - 1) =~= st1.steps);
        // the new step's inputs are what the earlier steps produced
        match from {
            Some(u) => {
                assert(stored(st1.outputs, u) == produced(st1.steps, u));
            },
            None => {},
        }
        assert(st == preview_step(p, inputs0, st1, id));
        let last = o.len() - 1;
        assert(o[last] == id);
        let sl = st.steps[last];
        assert(sl == st.steps.last());
        assert(sl.node_id == node.id@);
        assert(sl.input_from == from);
        assert(ins == match from {
            Some(u) => produced(st1.steps, u),
            None => inputs0,
        });
        if ins.len() == 0 {
            assert(sl.input_files =~= ins);
        } else {
            assert(sl.input_files == ins);
        }
        assert(step_rule(p, inputs0, o, st.steps, last));
        assert forall|i: int| 0 <= i < o.len() implies #[trigger] step_rule(p, inputs0, o, st.steps, i) by {
            if i < o.len() - 1 {
                assert(step_rule(p, inputs0, o1, st1.steps, i));
                assert(st.steps[i] == st1.steps[i]);
                assert(st.steps.take(i) =~= st1.steps.take(i));
                assert(o[i] == o1[i]);
            }
        }
        // id has not been produced before: no earlier step is of node id
        assert forall|k: int| 0 <= k < st1.steps.len() implies (#[trigger] st1.steps[k]).node_id != id by {
            assert(step_rule(p, inputs0, o1, st1.steps, k));
            assert(o1[k] == o[k]);
            assert(o[k] != o[o.len() - 1]);
        }
        lemma_produced_absent(st1.steps, id);
        assert forall|x: Seq<char>| #[trigger] stored(st.outputs, x) == produced(st.steps, x) by {
            assert(st.steps.last().node_id == id);
            assert(stored(st1.outputs, x) == produced(st1.steps, x));
            if x != id {
                if ins.len() != 0 {
                    assert(st.outputs.drop_last() =~= st1.outputs);
                }
            }
        }
    }
}

proof fn lemma_first_source_is_an_edge(es: Seq<(Seq<char>, Seq<char>)>, id: Seq<char>)
    ensures
        first_source_into(es, id) matches Some(u) ==> exists|j: int| 0 <= j < es.len() && #[trigger] es[j] == (u, id),
    decreases es.len(),
{
    if es.len() > 0 && es[0].1 != id {
        lemma_first_source_is_an_edge(es.drop_first(), id);
        if first_source_into(es, id) is Some {
            let u = first_source_into(es, id).unwrap();
            let j = choose|j: int| 0 <= j < es.drop_first().len() && #[trigger] es.drop_first()[j] == (u, id);
            assert(es[j + 1] == (u, id));
        }
    } else if es.len() > 0 {
        assert(es[0] == (es[0].0, id));
    }
}

proof fn lemma_produced_at(p: Pipeline, inputs0: Seq<Seq<char>>, o: Seq<Seq<char>>, steps: Seq<StepView>, i: int, j: int)
    requires
        o.no_duplicates(),
        steps.len() == o.len(),
        forall|k: int| 0 <= k < o.len() ==> #[trigger] step_rule(p, inputs0, o, steps, k),
        0 <= j < i <= o.len(),
    ensures
        produced(steps.take(i), o[j]) == steps[j].output_files,
    decreases i - j,
{
    let t = steps.take(i);
    assert(t.last() == steps[i - 1]);
    assert(step_rule(p, inputs0, o, steps, i - 1));
    if i - 1 != j {
        assert(o[i - 1] != o[j]);
        assert(t.drop_last() =~= steps.take(i - 1));
        lemma_produced_at(p, inputs0, o, steps, i - 1, j);
    }
}

/// The steps of a dry run along a full execution order (`dry_run` gives one
/// when the pipeline has no cycle) follow the edges: there is one step per
/// node, the `i`-th for the `i`-th node of the order; a step fed by an edge
/// gets exactly what the step of that edge's source (an earlier one)
/// produced, a step with no incoming edge gets the run's input files, and
/// each step predicts its outputs from its inputs (none when it has none).
pub proof fn dry_run_steps_follow_edges(p: Pipeline, inputs0: Seq<Seq<char>>, o: Seq<Seq<char>>)
    requires
        is_maximal_schedule(p, o),
        o.len() == p.nodes.len(),
        forall|j: int| 0 <= j < edge_pairs(p).len() ==> node_ids(p).contains((#[trigger] edge_pairs(p)[j]).0) && node_ids(p).contains(edge_pairs(p)[j].1),
    ensures
        preview_run(p, inputs0, o).steps.len() == p.nodes.len(),
        forall|i: int| 0 <= i < o.len() ==> #[trigger] step_rule(p, inputs0, o, preview_run(p, inputs0, o).steps, i),
        forall|i: int| 0 <= i < o.len() ==> (#[trigger] preview_run(p, inputs0, o).steps[i]).input_from is None
            ==> preview_run(p, inputs0, o).steps[i].input_files == inputs0,
        forall|i: int, j: int| 0 <= i < o.len() && 0 <= j < o.len()
            && (#[trigger] preview_run(p, inputs0, o).steps[i]).input_from == Some(o[j])
            ==> j < i && preview_run(p, inputs0, o).steps[i].input_files == (#[trigger] preview_run(p, inputs0, o).steps[j]).output_files,
{
    assert forall|k: int| 0 <= k < o.len() implies (#[trigger] last_node_index(p.nodes@, o[k])) is Some by {
        assert(is_key(p, o[k]));
        if !node_ids(p).contains(o[k]) {
            let j = choose|j: int| 0 <= j < edge_pairs(p).len() && #[trigger] edge_pairs(p)[j].1 == o[k];
            assert(node_ids(p).contains(edge_pairs(p)[j].1));
        }
        let n = choose|n: int| 0 <= n < node_ids(p).len() && node_ids(p)[n] == o[k];
        lemma_last_node_found(p.nodes@, o[k], n);
    }
    lemma_preview_run_rule(p, inputs0, o);
    let steps = preview_run(p, inputs0, o).steps;
    assert forall|i: int, j: int| 0 <= i < o.len() && 0 <= j < o.len()
        && (#[trigger] steps[i]).input_from == Some(o[j])
        implies j < i && steps[i].input_files == (#[trigger] steps[j]).output_files by {
        assert(step_rule(p, inputs0, o, steps, i));
        lemma_first_source_is_an_edge(edge_pairs(p), o[i]);
        let e = choose|e: int| 0 <= e < edge_pairs(p).len() && #[trigger] edge_pairs(p)[e] == (o[j], o[i]);
        assert(o[i] == edge_pairs(p)[e].1);
        let m = choose|m: int| 0 <= m < i && #[trigger] o[m] == edge_pairs(p)[e].0;
        assert(o[m] == o[j]);
        assert(m == j);
        lemma_produced_at(p, inputs0, o, steps, i, j);
    }
    assert forall|i: int| 0 <= i < o.len() && (#[trigger] steps[i]).input_from is None implies steps[i].input_files == inputs0 by {
        assert(step_rule(p, inputs0, o, steps, i));
    }
}

proof fn lemma_last_node_found(nodes: Seq<PipelineNode>, id: Seq<char>, n: int)
    requires
        0 <= n < nodes.len(),
        nodes[n].id@ == id,
    ensures
        last_node_index(nodes, id) is Some,
    decreases nodes.len(),
{
    if nodes.last().id@ != id {
        assert(n < nodes.len() - 1);
        assert(nodes.drop_last()[n] == nodes[n]);
        lemma_last_node_found(nodes.drop_last(), id, n);
    }
}

/// The dry run of an image compression changes each input's extension to the
/// requested format: "jpg" or "jpeg" to ".jpg", "png" to ".png", "webp" to
/// ".webp" and "avif" to ".avif"; one output per input, in order.
pub proof fn image_prediction_takes_the_format(inputs: Seq<Seq<char>>, params: ParamMap)
    ensures
        ({
            let out = predict_spec("image_compress"@, inputs, params);
            let fmt = param_text(params, "format"@);
            &&& out.len() == inputs.len()
            &&& (fmt == Some("jpg"@) || fmt == Some("jpeg"@)) ==> forall|i: int| 0 <= i < inputs.len()
                ==> #[trigger] out[i] == strip_ext_spec(inputs[i]) + seq!['.'] + "jpg"@
            &&& fmt == Some("png"@) ==> forall|i: int| 0 <= i < inputs.len()
                ==> #[trigger] out[i] == strip_ext_spec(inputs[i]) + seq!['.'] + "png"@
            &&& fmt == Some("webp"@) ==> forall|i: int| 0 <= i < inputs.len()
                ==> #[trigger] out[i] == strip_ext_spec(inputs[i]) + seq!['.'] + "webp"@
            &&& fmt == Some("avif"@) ==> forall|i: int| 0 <= i < inputs.len()
                ==> #[trigger] out[i] == strip_ext_spec(inputs[i]) + seq!['.'] + "avif"@
        }),
{
    reveal_strlit("jpg");
    reveal_strlit("jpeg");
    reveal_strlit("png");
    reveal_strlit("webp");
    reveal_strlit("avif");
    assert("jpeg"@.len() != "jpg"@.len());
    assert("png"@[0] != "jpg"@[0] && "png"@.len() != "jpeg"@.len());
    assert("webp"@[0] != "jpeg"@[0] && "webp"@.len() != "jpg"@.len() && "webp"@.len() != "png"@.len());
    assert("avif"@[0] != "jpeg"@[0] && "avif"@.len() != "jpg"@.len() && "avif"@.len() != "png"@.len() && "avif"@[0] != "webp"@[0]);
}

} // verus!
