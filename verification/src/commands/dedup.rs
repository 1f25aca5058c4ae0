//! Finding duplicate files. Files are grouped first by size; the files of a
//! size shared by two or more are then grouped by content hash, and each hash
//! shared by two or more files is a group of duplicates.
use vstd::prelude::*;
use std::collections::HashMap;
use crate::text::{push_str, push_decimal, string_of, decimal, str_eq};
use crate::pipeline::preview::views;

verus! {

/// How many entries of `keys` equal `k`.
pub open spec fn key_count<K>(keys: Seq<K>, k: K) -> nat
    decreases keys.len(),
{
    if keys.len() == 0 {
        0
    } else {
        key_count(keys.drop_last(), k) + if keys.last() == k {
            1nat
        } else {
            0nat
        }
    }
}

/// Index lists as integers.
pub open spec fn idx_view(gs: Seq<Vec<usize>>) -> Seq<Seq<int>> {
    gs.map_values(|g: Vec<usize>| g@.map_values(|x: usize| x as int))
}

/// `gs` holds, as lists of indices into `keys`, the classes of equal keys that
/// have at least `min` members: each such class once and whole, its indices
/// in increasing order, the classes in the order of their first index.
pub open spec fn classes_of<K>(keys: Seq<K>, gs: Seq<Seq<int>>, min: nat) -> bool {
    &&& forall|g: int| 0 <= g < gs.len() ==> #[trigger] gs[g].len() > 0 && key_count(keys, keys[gs[g][0]]) >= min
    &&& forall|g: int, a: int|
        0 <= g < gs.len() && 0 <= a < gs[g].len() ==> 0 <= #[trigger] gs[g][a] < keys.len() && keys[gs[g][a]] == keys[gs[g][0]]
    &&& forall|g: int, a: int, b: int|
        0 <= g < gs.len() && 0 <= a < b < gs[g].len() ==> #[trigger] gs[g][a] < #[trigger] gs[g][b]
    &&& forall|g: int, j: int|
        0 <= g < gs.len() && 0 <= j < keys.len() && keys[j] == keys[gs[g][0]] ==> #[trigger] gs[g].contains(j)
    &&& forall|g1: int, g2: int| 0 <= g1 < g2 < gs.len() ==> #[trigger] gs[g1][0] < #[trigger] gs[g2][0]
    &&& forall|j: int|
        0 <= j < keys.len() && key_count(keys, #[trigger] keys[j]) >= min ==> exists|g: int|
            0 <= g < gs.len() && #[trigger] gs[g].contains(j)
}

/// What grouping the first `i` keys has built: the classes of equal keys
/// among them, each whole and counted, in order of first index.
spec fn building<K>(keys: Seq<K>, all: Seq<Seq<int>>, i: int) -> bool {
    &&& 0 <= i <= keys.len()
    &&& forall|g: int|
        0 <= g < all.len() ==> #[trigger] all[g].len() > 0 && all[g].len() == key_count(keys.take(i), keys[all[g][0]])
    &&& forall|g: int, a: int|
        0 <= g < all.len() && 0 <= a < all[g].len() ==> 0 <= #[trigger] all[g][a] < i && keys[all[g][a]] == keys[all[g][0]]
    &&& forall|g: int, a: int, b: int|
        0 <= g < all.len() && 0 <= a < b < all[g].len() ==> #[trigger] all[g][a] < #[trigger] all[g][b]
    &&& forall|g: int, j: int|
        0 <= g < all.len() && 0 <= j < i && keys[j] == keys[all[g][0]] ==> #[trigger] all[g].contains(j)
    &&& forall|g1: int, g2: int| 0 <= g1 < g2 < all.len() ==> #[trigger] all[g1][0] < #[trigger] all[g2][0]
    &&& forall|g1: int, g2: int|
        0 <= g1 < all.len() && 0 <= g2 < all.len() && g1 != g2 ==> keys[#[trigger] all[g1][0]] != keys[#[trigger] all[g2][0]]
    &&& forall|j: int| 0 <= j < i ==> #[trigger] in_some(all, j)
}

/// Whether some group holds index `j`.
spec fn in_some(all: Seq<Seq<int>>, j: int) -> bool {
    exists|g: int| 0 <= g < all.len() && #[trigger] all[g].contains(j)
}

proof fn lemma_count_step<K>(keys: Seq<K>, i: int, k: K)
    requires
        0 <= i < keys.len(),
    ensures
        key_count(keys.take(i + 1), k) == key_count(keys.take(i), k) + if keys[i] == k {
            1nat
        } else {
            0nat
        },
{
    assert(keys.take(i + 1).drop_last() =~= keys.take(i));
}

proof fn lemma_count_absent<K>(s: Seq<K>, k: K)
    requires
        forall|j: int| 0 <= j < s.len() ==> s[j] != k,
    ensures
        key_count(s, k) == 0,
    decreases s.len(),
{
    if s.len() > 0 {
        lemma_count_absent(s.drop_last(), k);
    }
}

proof fn lemma_push_existing<K>(keys: Seq<K>, all: Seq<Seq<int>>, i: int, g: int)
    requires
        building(keys, all, i),
        i < keys.len(),
        0 <= g < all.len(),
        keys[all[g][0]] == keys[i],
    ensures
        building(keys, all.update(g, all[g].push(i)), i + 1),
{
    let nall = all.update(g, all[g].push(i));
    assert forall|h: int| 0 <= h < nall.len() implies #[trigger] nall[h].len() > 0 && nall[h].len() == key_count(keys.take(i + 1), keys[nall[h][0]]) by {
        lemma_count_step(keys, i, keys[all[h][0]]);
        assert(nall[h][0] == all[h][0]);
    }
    assert forall|h: int, a: int| 0 <= h < nall.len() && 0 <= a < nall[h].len() implies 0 <= #[trigger] nall[h][a] < i + 1 && keys[nall[h][a]] == keys[nall[h][0]] by {
        if h == g && a == all[g].len() {
        } else {
            assert(nall[h][a] == all[h][a]);
        }
    }
    assert forall|h: int, a: int, b: int| 0 <= h < nall.len() && 0 <= a < b < nall[h].len() implies #[trigger] nall[h][a] < #[trigger] nall[h][b] by {
        if h == g && b == all[g].len() {
            assert(nall[h][a] == all[h][a]);
        } else {
            assert(nall[h][a] == all[h][a]);
            assert(nall[h][b] == all[h][b]);
        }
    }
    assert forall|h: int, j: int| 0 <= h < nall.len() && 0 <= j < i + 1 && keys[j] == keys[nall[h][0]] implies #[trigger] nall[h].contains(j) by {
        assert(nall[h][0] == all[h][0]);
        if j < i {
            assert(all[h].contains(j));
            let a = choose|a: int| 0 <= a < all[h].len() && all[h][a] == j;
            assert(nall[h][a] == j);
        } else {
            if h != g {
                assert(keys[all[h][0]] != keys[all[g][0]]);
            }
            assert(nall[h][all[g].len() as int] == j);
        }
    }
    assert forall|h1: int, h2: int| 0 <= h1 < h2 < nall.len() implies #[trigger] nall[h1][0] < #[trigger] nall[h2][0] by {
        assert(nall[h1][0] == all[h1][0]);
        assert(nall[h2][0] == all[h2][0]);
    }
    assert forall|h1: int, h2: int| 0 <= h1 < nall.len() && 0 <= h2 < nall.len() && h1 != h2 implies keys[#[trigger] nall[h1][0]] != keys[#[trigger] nall[h2][0]] by {
        assert(nall[h1][0] == all[h1][0]);
        assert(nall[h2][0] == all[h2][0]);
    }
    assert forall|j: int| 0 <= j < i + 1 implies #[trigger] in_some(nall, j) by {
        if j < i {
            assert(in_some(all, j));
        let h = choose|h: int| 0 <= h < all.len() && #[trigger] all[h].contains(j);
            let a = choose|a: int| 0 <= a < all[h].len() && all[h][a] == j;
            assert(nall[h][a] == j);
            assert(nall[h].contains(j));
        } else {
            assert(nall[g][all[g].len() as int] == j);
            assert(nall[g].contains(j));
        }
    }
}

proof fn lemma_push_new<K>(keys: Seq<K>, all: Seq<Seq<int>>, i: int)
    requires
        building(keys, all, i),
        i < keys.len(),
        forall|g: int| 0 <= g < all.len() ==> keys[all[g][0]] != keys[i],
    ensures
        building(keys, all.push(seq![i]), i + 1),
{
    let nall = all.push(seq![i]);
    assert forall|j: int| 0 <= j < i implies keys.take(i)[j] != keys[i] by {
        assert(in_some(all, j));
        let h = choose|h: int| 0 <= h < all.len() && #[trigger] all[h].contains(j);
        let a = choose|a: int| 0 <= a < all[h].len() && all[h][a] == j;
        assert(keys[all[h][a]] == keys[all[h][0]]);
    }
    lemma_count_absent(keys.take(i), keys[i]);
    assert forall|h: int| 0 <= h < nall.len() implies #[trigger] nall[h].len() > 0 && nall[h].len() == key_count(keys.take(i + 1), keys[nall[h][0]]) by {
        lemma_count_step(keys, i, keys[nall[h][0]]);
    }
    assert forall|h: int, a: int| 0 <= h < nall.len() && 0 <= a < nall[h].len() implies 0 <= #[trigger] nall[h][a] < i + 1 && keys[nall[h][a]] == keys[nall[h][0]] by {
    }
    assert forall|h: int, a: int, b: int| 0 <= h < nall.len() && 0 <= a < b < nall[h].len() implies #[trigger] nall[h][a] < #[trigger] nall[h][b] by {
    }
    assert forall|h: int, j: int| 0 <= h < nall.len() && 0 <= j < i + 1 && keys[j] == keys[nall[h][0]] implies #[trigger] nall[h].contains(j) by {
        if h < all.len() && j == i {
            assert(false);
        } else if h == all.len() && j < i {
            assert(keys.take(i)[j] == keys[j]);
        } else if h == all.len() {
            assert(nall[h][0] == j);
        }
    }
    assert forall|h1: int, h2: int| 0 <= h1 < h2 < nall.len() implies #[trigger] nall[h1][0] < #[trigger] nall[h2][0] by {
        if h2 == all.len() {
            assert(0 <= all[h1][0] < i);
        }
    }
    assert forall|j: int| 0 <= j < i + 1 implies #[trigger] in_some(nall, j) by {
        if j < i {
            assert(in_some(all, j));
        let h = choose|h: int| 0 <= h < all.len() && #[trigger] all[h].contains(j);
            assert(nall[h] == all[h]);
            assert(nall[h].contains(j));
        } else {
            assert(nall[all.len() as int][0] == j);
            assert(nall[all.len() as int].contains(j));
        }
    }
}

/// The classes chosen out of a complete grouping by their size are the
/// classes of at least that size.
proof fn lemma_selected_classes<K>(keys: Seq<K>, all: Seq<Seq<int>>, sel: Seq<int>, out: Seq<Seq<int>>, min: nat)
    requires
        building(keys, all, keys.len() as int),
        out.len() == sel.len(),
        forall|a: int| 0 <= a < sel.len() ==> 0 <= #[trigger] sel[a] < all.len() && out[a] == all[sel[a]] && all[sel[a]].len() >= min,
        forall|a: int, b: int| 0 <= a < b < sel.len() ==> #[trigger] sel[a] < #[trigger] sel[b],
        forall|g: int| 0 <= g < all.len() && #[trigger] all[g].len() >= min ==> exists|a: int| 0 <= a < sel.len() && sel[a] == g,
    ensures
        classes_of(keys, out, min),
{
    assert(keys.take(keys.len() as int) =~= keys);
    assert forall|g: int| 0 <= g < out.len() implies #[trigger] out[g].len() > 0 && key_count(keys, keys[out[g][0]]) >= min by {
        assert(all[sel[g]].len() > 0);
    }
    assert forall|g: int, a: int| 0 <= g < out.len() && 0 <= a < out[g].len() implies 0 <= #[trigger] out[g][a] < keys.len() && keys[out[g][a]] == keys[out[g][0]] by {
        assert(all[sel[g]][a] == out[g][a]);
    }
    assert forall|g: int, a: int, b: int| 0 <= g < out.len() && 0 <= a < b < out[g].len() implies #[trigger] out[g][a] < #[trigger] out[g][b] by {
        assert(all[sel[g]][a] < all[sel[g]][b]);
    }
    assert forall|g: int, j: int| 0 <= g < out.len() && 0 <= j < keys.len() && keys[j] == keys[out[g][0]] implies #[trigger] out[g].contains(j) by {
        assert(all[sel[g]].contains(j));
    }
    assert forall|g1: int, g2: int| 0 <= g1 < g2 < out.len() implies #[trigger] out[g1][0] < #[trigger] out[g2][0] by {
        assert(sel[g1] < sel[g2]);
        assert(all[sel[g1]][0] < all[sel[g2]][0]);
    }
    assert forall|j: int| 0 <= j < keys.len() && key_count(keys, #[trigger] keys[j]) >= min implies exists|g: int| 0 <= g < out.len() && #[trigger] out[g].contains(j) by {
        assert(in_some(all, j));
        let h = choose|h: int| 0 <= h < all.len() && #[trigger] all[h].contains(j);
        let a0 = choose|a0: int| 0 <= a0 < all[h].len() && all[h][a0] == j;
        assert(keys[all[h][a0]] == keys[all[h][0]]);
        assert(all[h].len() >= min);
        let a = choose|a: int| 0 <= a < sel.len() && sel[a] == h;
        assert(out[a].contains(j));
    }
}

/// Keeps, in order, the groups with at least `min` members, and says which.
fn keep_large(all: &Vec<Vec<usize>>, min: usize) -> (res: (Vec<Vec<usize>>, Ghost<Seq<int>>))
    ensures
        res.0.len() == res.1@.len(),
        forall|a: int| 0 <= a < res.1@.len() ==> 0 <= #[trigger] res.1@[a] < all.len() && idx_view(res.0@)[a] == idx_view(all@)[res.1@[a]] && all@[res.1@[a]].len() >= min,
        forall|a: int, b: int| 0 <= a < b < res.1@.len() ==> #[trigger] res.1@[a] < #[trigger] res.1@[b],
        forall|g: int| 0 <= g < all.len() && #[trigger] all@[g].len() >= min ==> exists|a: int| 0 <= a < res.1@.len() && res.1@[a] == g,
{
    let mut out: Vec<Vec<usize>> = Vec::new();
    let ghost mut sel: Seq<int> = Seq::empty();
    let mut g: usize = 0;
    while g < all.len()
        invariant
            g <= all.len(),
            out.len() == sel.len(),
            forall|a: int| 0 <= a < sel.len() ==> 0 <= #[trigger] sel[a] < g && out@[a]@ == all@[sel[a]]@ && all@[sel[a]].len() >= min,
            forall|a: int, b: int| 0 <= a < b < sel.len() ==> #[trigger] sel[a] < #[trigger] sel[b],
            forall|h: int| 0 <= h < g && #[trigger] all@[h].len() >= min ==> exists|a: int| 0 <= a < sel.len() && sel[a] == h,
        decreases all.len() - g,
    {
        if all[g].len() >= min {
            out.push(all[g].clone());
            proof {
                let old_sel = sel;
                sel = sel.push(g as int);
                assert forall|h: int| 0 <= h < g + 1 && #[trigger] all@[h].len() >= min implies exists|a: int| 0 <= a < sel.len() && sel[a] == h by {
                    if h < g {
                        let a = choose|a: int| 0 <= a < old_sel.len() && old_sel[a] == h;
                        assert(sel[a] == h);
                    } else {
                        assert(sel[sel.len() - 1] == h);
                    }
                }
            }
        }
        g = g + 1;
    }
    proof {
        assert forall|a: int| 0 <= a < sel.len() implies idx_view(out@)[a] == idx_view(all@)[sel[a]] by {
            assert(out@[a]@ == all@[sel[a]]@);
        }
    }
    (out, Ghost(sel))
}

/// The classes of equal sizes with at least `min` members, as index lists.
pub fn size_classes(sizes: &Vec<u64>, min: usize) -> (gs: Vec<Vec<usize>>)
    ensures
        classes_of(sizes@, idx_view(gs@), min as nat),
{
    broadcast use vstd::std_specs::hash::group_hash_axioms;

    let mut index: HashMap<u64, usize> = HashMap::new();
    let mut all: Vec<Vec<usize>> = Vec::new();
    let mut i: usize = 0;
    assert(idx_view(all@) =~= Seq::<Seq<int>>::empty());
    while i < sizes.len()
        invariant
            i <= sizes.len(),
            building(sizes@, idx_view(all@), i as int),
            forall|k: u64| #[trigger] index@.contains_key(k) ==> index@[k] < all.len() && sizes@[idx_view(all@)[index@[k] as int][0]] == k,
            forall|g: int| 0 <= g < all.len() ==> #[trigger] index@.contains_key(sizes@[idx_view(all@)[g][0]]),
        decreases sizes.len() - i,
    {
        let k = sizes[i];
        let ghost av = idx_view(all@);
        match index.get(&k) {
            Some(gr) => {
                let g = *gr;
                proof {
                    lemma_push_existing(sizes@, av, i as int, g as int);
                }
                all[g].push(i);
                assert(idx_view(all@) =~~= av.update(g as int, av[g as int].push(i as int)));
            },
            None => {
                proof {
                    assert forall|g: int| 0 <= g < av.len() implies sizes@[av[g][0]] != sizes@[i as int] by {
                        assert(index@.contains_key(sizes@[av[g][0]]));
                    }
                    lemma_push_new(sizes@, av, i as int);
                }
                index.insert(k, all.len());
                let mut one: Vec<usize> = Vec::new();
                one.push(i);
                all.push(one);
                assert(idx_view(all@) =~~= av.push(seq![i as int]));
            },
        }
        i = i + 1;
    }
    let (out, sel) = keep_large(&all, min);
    proof {
        lemma_selected_classes(sizes@, idx_view(all@), sel@, idx_view(out@), min as nat);
    }
    out
}

/// The classes of equal texts with at least `min` members, as index lists.
pub fn text_classes(keys: &Vec<String>, min: usize) -> (gs: Vec<Vec<usize>>)
    ensures
        classes_of(views(keys@), idx_view(gs@), min as nat),
{
    let ghost ks = views(keys@);
    let mut all: Vec<Vec<usize>> = Vec::new();
    let mut i: usize = 0;
    assert(idx_view(all@) =~= Seq::<Seq<int>>::empty());
    while i < keys.len()
        invariant
            i <= keys.len(),
            ks == views(keys@),
            building(ks, idx_view(all@), i as int),
        decreases keys.len() - i,
    {
        let ghost av = idx_view(all@);
        let mut g: usize = 0;
        let mut found = false;
        while g < all.len() && !found
            invariant
                g <= all.len(),
                i < keys.len(),
                av == idx_view(all@),
                building(ks, av, i as int),
                ks == views(keys@),
                found ==> g < all.len() && ks[av[g as int][0]] == ks[i as int],
                forall|h: int| 0 <= h < g ==> ks[av[h][0]] != ks[i as int],
            decreases all.len() - g + if found { 0int } else { 1int },
        {
            assert(av[g as int].len() > 0);
            let first = all[g][0];
            assert(first as int == av[g as int][0]);
            if str_eq(keys[first].as_str(), keys[i].as_str()) {
                found = true;
            } else {
                g = g + 1;
            }
        }
        if found {
            proof {
                lemma_push_existing(ks, av, i as int, g as int);
            }
            all[g].push(i);
            assert(idx_view(all@) =~~= av.update(g as int, av[g as int].push(i as int)));
        } else {
            proof {
                lemma_push_new(ks, av, i as int);
            }
            let mut one: Vec<usize> = Vec::new();
            one.push(i);
            all.push(one);
            assert(idx_view(all@) =~~= av.push(seq![i as int]));
        }
        i = i + 1;
    }
    let (out, sel) = keep_large(&all, min);
    proof {
        lemma_selected_classes(ks, idx_view(all@), sel@, idx_view(out@), min as nat);
    }
    out
}

/// The texts of an index grouping.
pub open spec fn path_groups(paths: Seq<Seq<char>>, gs: Seq<Seq<int>>) -> Seq<Seq<Seq<char>>> {
    gs.map_values(|g: Seq<int>| g.map_values(|j: int| paths[j]))
}

/// Groups of strings as texts.
pub open spec fn group_views(v: Seq<Vec<String>>) -> Seq<Seq<Seq<char>>> {
    v.map_values(|g: Vec<String>| views(g@))
}

/// The paths at the indices of each group.
fn gather(paths: &Vec<String>, gs: &Vec<Vec<usize>>) -> (r: Vec<Vec<String>>)
    requires
        forall|g: int, a: int| 0 <= g < gs.len() && 0 <= a < gs@[g].len() ==> #[trigger] gs@[g]@[a] < paths.len(),
    ensures
        group_views(r@) == path_groups(views(paths@), idx_view(gs@)),
{
    let mut r: Vec<Vec<String>> = Vec::new();
    let mut g: usize = 0;
    while g < gs.len()
        invariant
            g <= gs.len(),
            forall|h: int, a: int| 0 <= h < gs.len() && 0 <= a < gs@[h].len() ==> #[trigger] gs@[h]@[a] < paths.len(),
            group_views(r@) =~~= path_groups(views(paths@), idx_view(gs@)).take(g as int),
        decreases gs.len() - g,
    {
        let mut one: Vec<String> = Vec::new();
        let mut a: usize = 0;
        while a < gs[g].len()
            invariant
                g < gs.len(),
                a <= gs@[g as int].len(),
                forall|h: int, b: int| 0 <= h < gs.len() && 0 <= b < gs@[h].len() ==> #[trigger] gs@[h]@[b] < paths.len(),
                views(one@) =~= path_groups(views(paths@), idx_view(gs@))[g as int].take(a as int),
            decreases gs@[g as int].len() - a,
        {
            let j = gs[g][a];
            assert(j < paths.len());
            assert(idx_view(gs@)[g as int][a as int] == j as int);
            assert(path_groups(views(paths@), idx_view(gs@))[g as int][a as int] == paths@[j as int]@);
            let ghost before = views(one@);
            one.push(paths[j].clone());
            assert(views(one@) =~= before.push(paths@[j as int]@));
            a = a + 1;
        }
        let ghost before = group_views(r@);
        r.push(one);
        assert(group_views(r@) =~~= before.push(views(one@)));
        g = g + 1;
    }
    r
}

/// The groups of paths that share a size, for the sizes shared by two or more
/// files: the only files that can have duplicates. `paths[i]` has size `sizes[i]`.
pub fn duplicate_candidates(paths: &Vec<String>, sizes: &Vec<u64>) -> (r: Vec<Vec<String>>)
    requires
        paths.len() == sizes.len(),
    ensures
        exists|gs: Seq<Seq<int>>| classes_of(sizes@, gs, 2) && group_views(r@) == path_groups(views(paths@), gs),
{
    let gs = size_classes(sizes, 2);
    proof {
        assert forall|g: int, a: int| 0 <= g < gs.len() && 0 <= a < gs@[g].len() implies #[trigger] gs@[g]@[a] < paths.len() by {
            assert(idx_view(gs@)[g][a] == gs@[g]@[a] as int);
        }
    }
    gather(paths, &gs)
}

/// Among files of one size, the groups of paths whose contents hash alike,
/// for the hashes shared by two or more files. `paths[i]` hashes to `hashes[i]`.
pub fn duplicate_groups(paths: &Vec<String>, hashes: &Vec<String>) -> (r: Vec<Vec<String>>)
    requires
        paths.len() == hashes.len(),
    ensures
        exists|gs: Seq<Seq<int>>| classes_of(views(hashes@), gs, 2) && group_views(r@) == path_groups(views(paths@), gs),
{
    let gs = text_classes(hashes, 2);
    proof {
        assert forall|g: int, a: int| 0 <= g < gs.len() && 0 <= a < gs@[g].len() implies #[trigger] gs@[g]@[a] < paths.len() by {
            assert(idx_view(gs@)[g][a] == gs@[g]@[a] as int);
        }
    }
    gather(paths, &gs)
}

/// What a scan for duplicates reports.
pub struct DuplicateResult {
    pub success: bool,
    pub msg: String,
    pub duplicate_groups: Vec<Vec<String>>,
}

/// What deleting files reports.
pub struct DeleteResult {
    pub success: bool,
    pub msg: String,
    pub delete_fail: Vec<String>,
}

/// The number of entries over all groups.
pub open spec fn total_len(gs: Seq<Vec<String>>) -> nat
    decreases gs.len(),
{
    if gs.len() == 0 {
        0
    } else {
        total_len(gs.drop_last()) + gs.last()@.len()
    }
}

/// The summary line of a scan that found `groups`.
pub open spec fn scan_message(groups: nat, files: nat) -> Seq<char> {
    "发现 "@ + decimal(groups) + " 组重复文件,共 "@ + decimal(files) + " 个文件"@
}

/// The report of a scan that found the given groups of duplicates.
pub fn scan_report(groups: Vec<Vec<String>>) -> (r: DuplicateResult)
    ensures
        r.success,
        r.msg@ == scan_message(groups@.len(), total_len(groups@)),
        r.duplicate_groups@ == groups@,
{
    let mut total: u128 = 0;
    let mut g: usize = 0;
    while g < groups.len()
        invariant
            g <= groups.len(),
            total == total_len(groups@.take(g as int)),
            total <= g * 0xFFFF_FFFF_FFFF_FFFFu128,
        decreases groups.len() - g,
    {
        assert(groups@.take(g + 1).drop_last() =~= groups@.take(g as int));
        let n = groups[g].len();
        proof {
            assert(n <= 0xFFFF_FFFF_FFFF_FFFFu128);
            assert(g < 0x1_0000_0000_0000_0000);
            assert(total + n <= (g + 1) * 0xFFFF_FFFF_FFFF_FFFFu128) by (nonlinear_arith)
                requires
                    total <= g * 0xFFFF_FFFF_FFFF_FFFFu128,
                    n <= 0xFFFF_FFFF_FFFF_FFFFu128,
            ;
            assert((g + 1) * 0xFFFF_FFFF_FFFF_FFFFu128 <= 0x1_0000_0000_0000_0000 * 0xFFFF_FFFF_FFFF_FFFFu128) by (nonlinear_arith)
                requires
                    g < 0x1_0000_0000_0000_0000,
            ;
        }
        total = total + n as u128;
        g = g + 1;
    }
    assert(groups@.take(groups.len() as int) =~= groups@);
    let mut m: Vec<char> = Vec::new();
    push_str(&mut m, "发现 ");
    push_decimal(&mut m, groups.len() as u128);
    push_str(&mut m, " 组重复文件,共 ");
    push_decimal(&mut m, total);
    push_str(&mut m, " 个文件");
    let msg = string_of(m.as_slice());
    DuplicateResult { success: true, msg, duplicate_groups: groups }
}

/// Why a scan cannot start: the path is not a folder.
pub fn folder_error(folder: &str) -> (r: String)
    ensures
        r@ == "不是有效的文件夹: "@ + folder@,
{
    let mut m: Vec<char> = Vec::new();
    push_str(&mut m, "不是有效的文件夹: ");
    push_str(&mut m, folder);
    string_of(m.as_slice())
}

/// The failures of a deletion, as "path: reason", in order.
pub open spec fn failures(paths: Seq<Seq<char>>, errs: Seq<Option<Seq<char>>>) -> Seq<Seq<char>>
    decreases errs.len(),
{
    if errs.len() == 0 {
        Seq::empty()
    } else {
        let rest = failures(paths, errs.drop_last());
        match errs.last() {
            Some(e) => rest.push(paths[errs.len() - 1] + ": "@ + e),
            None => rest,
        }
    }
}

/// The message of a deletion with `ok` files removed out of `total`.
pub open spec fn delete_message(ok: nat, total: nat, failed: nat) -> Seq<char> {
    if failed == 0 {
        "已删除 "@ + decimal(ok) + " 个文件"@
    } else {
        "删除 "@ + decimal(ok) + "/"@ + decimal(total) + " 个成功, "@ + decimal(failed) + " 个失败"@
    }
}

/// Errors as texts.
pub open spec fn err_views(v: Seq<Option<String>>) -> Seq<Option<Seq<char>>> {
    v.map_values(|e: Option<String>| match e {
        Some(s) => Some(s@),
        None => None,
    })
}

/// The report of deleting `paths`, where `errors[i]` tells why deleting
/// `paths[i]` failed, or nothing when it succeeded.
pub fn delete_report(paths: &Vec<String>, errors: &Vec<Option<String>>) -> (r: DeleteResult)
    requires
        paths.len() == errors.len(),
    ensures
        views(r.delete_fail@) == failures(views(paths@), err_views(errors@)),
        r.success == (r.delete_fail@.len() == 0),
        r.msg@ == delete_message(
            (errors@.len() - r.delete_fail@.len()) as nat,
            errors@.len(),
            r.delete_fail@.len(),
        ),
{
    let ghost pv = views(paths@);
    let ghost ev = err_views(errors@);
    let mut fail: Vec<String> = Vec::new();
    let mut ok: usize = 0;
    let mut i: usize = 0;
    assert(ev.take(0) =~= Seq::<Option<Seq<char>>>::empty());
    while i < errors.len()
        invariant
            i <= errors.len(),
            paths.len() == errors.len(),
            pv == views(paths@),
            ev == err_views(errors@),
            views(fail@) =~= failures(pv, ev.take(i as int)),
            ok + fail.len() == i,
        decreases errors.len() - i,
    {
        assert(ev.take(i + 1).drop_last() =~= ev.take(i as int));
        assert(ev.take(i + 1).last() == ev[i as int]);
        match &errors[i] {
            Some(e) => {
                let mut m: Vec<char> = Vec::new();
                push_str(&mut m, paths[i].as_str());
                push_str(&mut m, ": ");
                push_str(&mut m, e.as_str());
                let ghost before = views(fail@);
                fail.push(string_of(m.as_slice()));
                assert(views(fail@) =~= before.push(pv[i as int] + ": "@ + e@));
            },
            None => {
                ok = ok + 1;
            },
        }
        i = i + 1;
    }
    assert(ev.take(errors.len() as int) =~= ev);
    let mut m: Vec<char> = Vec::new();
    if fail.len() == 0 {
        push_str(&mut m, "已删除 ");
        push_decimal(&mut m, ok as u128);
        push_str(&mut m, " 个文件");
    } else {
        push_str(&mut m, "删除 ");
        push_decimal(&mut m, ok as u128);
        push_str(&mut m, "/");
        push_decimal(&mut m, paths.len() as u128);
        push_str(&mut m, " 个成功, ");
        push_decimal(&mut m, fail.len() as u128);
        push_str(&mut m, " 个失败");
    }
    let success = fail.len() == 0;
    DeleteResult { success, msg: string_of(m.as_slice()), delete_fail: fail }
}

} // verus!
