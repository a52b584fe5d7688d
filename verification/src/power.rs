//! Power networks: pylons (and the core) whose ranges overlap are joined into
//! one network with a union-find forest; each pylon then gets the number of
//! its network, networks numbered in order of their first pylon.

use vstd::prelude::*;

verus! {

/// `L` gives the same value to both ends of every link.
pub open spec fn respects(L: Seq<int>, links: Seq<(usize, usize)>) -> bool {
    forall|m: int| 0 <= m < links.len() ==> L[#[trigger] links[m].0 as int] == L[links[m].1 as int]
}

/// Every link of a node joins it to a node below `n`.
pub open spec fn links_in_range(links: Seq<(usize, usize)>, n: int) -> bool {
    forall|m: int| 0 <= m < links.len() ==> #[trigger] links[m].0 < n && links[m].1 < n
}

/// Labels agree exactly on nodes joined by a chain of links: every link joins
/// equal labels, and any labelling in which every link joins equal labels
/// agrees wherever these labels agree.
pub open spec fn is_component_labelling(label: Seq<usize>, links: Seq<(usize, usize)>) -> bool {
    &&& forall|m: int| 0 <= m < links.len() ==> label[#[trigger] links[m].0 as int] == label[links[m].1 as int]
    &&& forall|L: Seq<int>, i: int, j: int|
        #![trigger respects(L, links), label[i], label[j]]
        0 <= i < label.len() && 0 <= j < label.len() && L.len() == label.len() && respects(L, links)
            && label[i] == label[j] ==> L[i] == L[j]
}

/// Labels are handed out in order of first use: each label is 0 or follows
/// a label used earlier.
pub open spec fn numbered_by_first_use(label: Seq<usize>) -> bool {
    forall|p: int|
        0 <= p < label.len() ==> #[trigger] label[p] == 0 || exists|q: int|
            0 <= q < p && label[q] + 1 == label[p]
}

/// Some node carries label `l`.
pub open spec fn label_used(label: Seq<usize>, l: int) -> bool {
    exists|p: int| 0 <= p < label.len() && label[p] == l
}

/// The link from `i` to its parent climbs toward the same root and to a
/// higher rank.
pub open spec fn link_ok(parent: Seq<usize>, root: Seq<int>, rank: Seq<nat>, i: int) -> bool {
    parent[i] != i ==> root[parent[i] as int] == root[i] && rank[parent[i] as int] > rank[i]
}

/// The union-find forest `parent` has the roots `root`, with ranks that rise
/// toward the roots and stay below `maxrank`.
pub open spec fn uf_inv(parent: Seq<usize>, root: Seq<int>, rank: Seq<nat>, maxrank: nat, n: int) -> bool {
    &&& parent.len() == n
    &&& root.len() == n
    &&& rank.len() == n
    &&& forall|i: int| 0 <= i < n ==> #[trigger] parent[i] < n
    &&& forall|i: int| 0 <= i < n ==> 0 <= #[trigger] root[i] < n
    &&& forall|i: int| 0 <= i < n ==> #[trigger] rank[i] <= maxrank
    &&& forall|i: int| 0 <= i < n ==> parent[#[trigger] root[i] as int] == root[i]
    &&& forall|i: int| 0 <= i < n ==> (parent[i] == i ==> #[trigger] root[i] == i)
    &&& forall|i: int| 0 <= i < n ==> #[trigger] link_ok(parent, root, rank, i)
}

/// Nodes with the same root are joined in every labelling that respects
/// `links`.
pub open spec fn roots_joined(root: Seq<int>, links: Seq<(usize, usize)>) -> bool {
    forall|L: Seq<int>, i: int, j: int|
        #![trigger respects(L, links), root[i], root[j]]
        0 <= i < root.len() && 0 <= j < root.len() && L.len() == root.len() && respects(L, links) && root[i]
            == root[j] ==> L[i] == L[j]
}

/// Finds the root of `i`, halving the path on the way.
pub fn uf_find(
    parent: &mut Vec<usize>,
    i: usize,
    Ghost(root): Ghost<Seq<int>>,
    Ghost(rank): Ghost<Seq<nat>>,
    Ghost(maxrank): Ghost<nat>,
) -> (r: usize)
    requires
        uf_inv(old(parent)@, root, rank, maxrank, old(parent)@.len() as int),
        i < old(parent)@.len(),
    ensures
        final(parent)@.len() == old(parent)@.len(),
        uf_inv(final(parent)@, root, rank, maxrank, old(parent)@.len() as int),
        r as int == root[i as int],
{
    let ghost n = parent@.len() as int;
    let ghost i0 = i as int;
    let mut i = i;
    while parent[i] != i
        invariant
            parent@.len() == n,
            uf_inv(parent@, root, rank, maxrank, n),
            i < n,
            0 <= i0 < n,
            root[i as int] == root[i0],
        decreases maxrank - rank[i as int],
    {
        let p = parent[i];
        let g = parent[p];
        proof {
            assert(link_ok(parent@, root, rank, i as int));
            assert(link_ok(parent@, root, rank, p as int));
            assert(root[g as int] == root[i as int]);
            assert(rank[g as int] > rank[i as int]);
            assert(rank[g as int] <= maxrank);
        }
        let ghost before = parent@;
        parent.set(i, g);
        proof {
            let after = parent@;
            assert forall|j: int| 0 <= j < n implies #[trigger] link_ok(after, root, rank, j) by {
                assert(link_ok(before, root, rank, j));
            }
            assert forall|j: int| 0 <= j < n implies after[#[trigger] root[j] as int] == root[j] by {
                assert(before[root[j] as int] == root[j]);
                if root[j] == i as int {
                    assert(before[i as int] == i);
                }
            }
            assert forall|j: int| 0 <= j < n && after[j] == j implies #[trigger] root[j] == j by {
                if j != i as int {
                    assert(before[j] == after[j]);
                }
            }
        }
        i = g;
    }
    proof {
        assert(root[i as int] == i);
    }
    i
}

/// The power networks of `n` pylons joined by `links`.
pub struct PowerNets {
    /// Network number of each pylon.
    pub of_pylon: Vec<usize>,
    /// Number of networks.
    pub count: usize,
}

/// Joins the pylons of every link into one network and numbers the networks
/// in order of their first pylon.
pub fn power_nets(n: usize, links: &Vec<(usize, usize)>) -> (nets: PowerNets)
    requires
        links_in_range(links@, n as int),
    ensures
        nets.of_pylon@.len() == n,
        is_component_labelling(nets.of_pylon@, links@),
        numbered_by_first_use(nets.of_pylon@),
        forall|p: int| 0 <= p < n ==> #[trigger] nets.of_pylon@[p] < nets.count,
        forall|l: int| 0 <= l < nets.count ==> #[trigger] label_used(nets.of_pylon@, l),
{
    let mut parent: Vec<usize> = Vec::new();
    let mut k: usize = 0;
    while k < n
        invariant
            k <= n,
            parent@.len() == k,
            forall|i: int| 0 <= i < k ==> #[trigger] parent@[i] == i,
        decreases n - k,
    {
        parent.push(k);
        k = k + 1;
    }
    let ghost ni = n as int;
    let ghost mut root: Seq<int> = Seq::new(n as nat, |i: int| i);
    let ghost mut rank: Seq<nat> = Seq::new(n as nat, |i: int| 0nat);
    let ghost mut maxrank: nat = 0;
    proof {
        assert forall|i: int| 0 <= i < ni implies #[trigger] link_ok(parent@, root, rank, i) by {}
        assert forall|L: Seq<int>, i: int, j: int|
            #![trigger respects(L, links@.take(0)), root[i], root[j]]
            0 <= i < root.len() && 0 <= j < root.len() && L.len() == root.len() && respects(L, links@.take(0))
                && root[i] == root[j] implies L[i] == L[j] by {}
    }
    let mut m: usize = 0;
    while m < links.len()
        invariant
            links_in_range(links@, ni),
            ni == n,
            m <= links@.len(),
            uf_inv(parent@, root, rank, maxrank, ni),
            roots_joined(root, links@.take(m as int)),
            forall|q: int| 0 <= q < m ==> root[#[trigger] links@[q].0 as int] == root[links@[q].1 as int],
        decreases links@.len() - m,
    {
        let (a, b) = links[m];
        assert(a < n && b < n) by {
            assert(links@[m as int].0 < ni && links@[m as int].1 < ni);
        }
        let fa = uf_find(&mut parent, a, Ghost(root), Ghost(rank), Ghost(maxrank));
        let fb = uf_find(&mut parent, b, Ghost(root), Ghost(rank), Ghost(maxrank));
        let ghost old_root = root;
        let ghost pre = links@.take(m as int);
        let ghost post = links@.take(m as int + 1);
        proof {
            assert(post == pre.push((a, b)));
            assert forall|L: Seq<int>| #[trigger] respects(L, post) implies respects(L, pre) && L[a as int]
                == L[b as int] by {
                assert forall|q: int| 0 <= q < pre.len() implies L[#[trigger] pre[q].0 as int] == L[pre[q].1 as int] by {
                    assert(pre[q] == post[q]);
                }
                assert(post[m as int] == (a, b));
            }
        }
        if fa != fb {
            let ghost before = parent@;
            parent.set(fa, fb);
            proof {
                let fai = fa as int;
                let fbi = fb as int;
                root = Seq::new(n as nat, |j: int| if old_root[j] == fai { fbi } else { old_root[j] });
                let newrank: nat = if rank[fbi] > rank[fai] + 1 { rank[fbi] } else { rank[fai] + 1 };
                let old_rank = rank;
                rank = rank.update(fbi, newrank);
                if newrank > maxrank {
                    maxrank = newrank;
                }
                let after = parent@;
                assert(before[fai] == fai && before[fbi] == fbi) by {
                    assert(before[old_root[a as int] as int] == old_root[a as int]);
                    assert(before[old_root[b as int] as int] == old_root[b as int]);
                }
                assert forall|j: int| 0 <= j < ni implies #[trigger] rank[j] <= maxrank by {
                    assert(old_rank[j] <= maxrank || j == fbi);
                }
                assert forall|j: int| 0 <= j < ni implies #[trigger] root[j] < ni && 0 <= root[j] by {
                    assert(0 <= old_root[j] < ni);
                }
                assert forall|j: int| 0 <= j < ni implies after[#[trigger] root[j] as int] == root[j] by {
                    assert(before[old_root[j] as int] == old_root[j]);
                }
                assert forall|j: int| 0 <= j < ni && after[j] == j implies #[trigger] root[j] == j by {
                    if j != fai {
                        assert(before[j] == j);
                        assert(old_root[j] == j);
                    }
                }
                assert forall|j: int| 0 <= j < ni implies #[trigger] link_ok(after, root, rank, j) by {
                    assert(link_ok(before, old_root, old_rank, j));
                    if j != fai && before[j] != j {
                        let pj = before[j] as int;
                        assert(0 <= old_root[pj] < ni);
                        assert(j != fbi);
                    }
                }
                assert forall|L: Seq<int>, i: int, j: int|
                    #![trigger respects(L, post), root[i], root[j]]
                    0 <= i < root.len() && 0 <= j < root.len() && L.len() == root.len() && respects(L, post)
                        && root[i] == root[j] implies L[i] == L[j] by {
                    assert(respects(L, pre) && L[a as int] == L[b as int]);
                    assert(old_root[a as int] == fai && old_root[b as int] == fbi);
                    if old_root[i] == old_root[j] {
                    } else if old_root[i] == fai {
                        assert(old_root[j] == fbi);
                        assert(L[i] == L[a as int]);
                        assert(L[j] == L[b as int]);
                    } else {
                        assert(old_root[i] == fbi && old_root[j] == fai);
                        assert(L[i] == L[b as int]);
                        assert(L[j] == L[a as int]);
                    }
                }
                assert forall|q: int| 0 <= q < m + 1 implies root[#[trigger] links@[q].0 as int] == root[links@[q].1
                    as int] by {
                    if q < m {
                        assert(old_root[links@[q].0 as int] == old_root[links@[q].1 as int]);
                    }
                }
            }
        } else {
            proof {
                assert forall|L: Seq<int>, i: int, j: int|
                    #![trigger respects(L, post), root[i], root[j]]
                    0 <= i < root.len() && 0 <= j < root.len() && L.len() == root.len() && respects(L, post)
                        && root[i] == root[j] implies L[i] == L[j] by {
                    assert(respects(L, pre));
                }
            }
        }
        m = m + 1;
    }
    proof {
        assert(links@.take(links@.len() as int) == links@);
    }
    // number the networks in order of their first pylon
    let mut net_of_root: Vec<usize> = Vec::new();
    let mut k: usize = 0;
    while k < n
        invariant
            k <= n,
            net_of_root@.len() == k,
            forall|i: int| 0 <= i < k ==> #[trigger] net_of_root@[i] == n,
        decreases n - k,
    {
        net_of_root.push(n);
        k = k + 1;
    }
    let mut label: Vec<usize> = Vec::new();
    let mut count: usize = 0;
    let mut p: usize = 0;
    while p < n
        invariant
            ni == n,
            p <= n,
            uf_inv(parent@, root, rank, maxrank, ni),
            net_of_root@.len() == n,
            label@.len() == p,
            count <= p,
            forall|q: int| 0 <= q < p ==> #[trigger] label@[q] < count,
            forall|q: int| 0 <= q < p ==> net_of_root@[#[trigger] root[q] as int] == label@[q],
            forall|r: int|
                0 <= r < n && #[trigger] net_of_root@[r] != n ==> exists|q: int|
                    0 <= q < p && root[q] == r && label@[q] == net_of_root@[r],
            forall|q1: int, q2: int|
                0 <= q1 < p && 0 <= q2 < p ==> (#[trigger] label@[q1] == #[trigger] label@[q2] <==> root[q1]
                    == root[q2]),
            numbered_by_first_use(label@),
            count > 0 ==> exists|q: int| 0 <= q < p && label@[q] + 1 == count,
            forall|l: int| 0 <= l < count ==> #[trigger] label_used(label@, l),
        decreases n - p,
    {
        let r = uf_find(&mut parent, p, Ghost(root), Ghost(rank), Ghost(maxrank));
        let v = net_of_root[r];
        if v == n {
            proof {
                assert forall|q: int| 0 <= q < p implies root[q] != r as int by {
                    assert(net_of_root@[root[q] as int] == label@[q]);
                }
            }
            let ghost lab0 = label@;
            net_of_root.set(r, count);
            label.push(count);
            proof {
                let lab = label@;
                assert(lab[p as int] + 1 == count + 1);
                assert forall|l: int| 0 <= l < count + 1 implies #[trigger] label_used(lab, l) by {
                    if l < count {
                        assert(label_used(lab0, l));
                        let q = choose|q: int| 0 <= q < lab0.len() && lab0[q] == l;
                        assert(lab[q] == l);
                    } else {
                        assert(lab[p as int] == l);
                    }
                }
                assert forall|x: int| 0 <= x < lab.len() implies #[trigger] lab[x] == 0 || exists|q: int|
                    0 <= q < x && lab[q] + 1 == lab[x] by {
                    if x < p {
                        assert(lab0[x] == lab[x]);
                        if lab0[x] != 0 {
                            let q = choose|q: int| 0 <= q < x && lab0[q] + 1 == lab0[x];
                            assert(lab[q] == lab0[q]);
                        }
                    } else if count > 0 {
                        let q = choose|q: int| 0 <= q < p && lab0[q] + 1 == count;
                        assert(lab[q] == lab0[q]);
                    }
                }
            }
            count = count + 1;
        } else {
            let ghost lab0 = label@;
            let ghost q0 = choose|q: int| 0 <= q < p && root[q] == r as int && label@[q] == net_of_root@[r as int];
            proof {
                assert(label@[q0] == v);
            }
            label.push(v);
            proof {
                let lab = label@;
                if count > 0 {
                    let q = choose|q: int| 0 <= q < p && lab0[q] + 1 == count;
                    assert(lab[q] == lab0[q]);
                }
                assert forall|l: int| 0 <= l < count implies #[trigger] label_used(lab, l) by {
                    assert(label_used(lab0, l));
                    let q = choose|q: int| 0 <= q < lab0.len() && lab0[q] == l;
                    assert(lab[q] == l);
                }
                assert forall|x: int| 0 <= x < lab.len() implies #[trigger] lab[x] == 0 || exists|q: int|
                    0 <= q < x && lab[q] + 1 == lab[x] by {
                    let y = if x < p { x } else { q0 };
                    assert(lab0[y] == lab[x]);
                    assert(lab0[y] == 0 || exists|q: int| 0 <= q < y && lab0[q] + 1 == lab0[y]);
                    if lab0[y] != 0 {
                        let q = choose|q: int| 0 <= q < y && lab0[q] + 1 == lab0[y];
                        assert(lab[q] == lab0[q]);
                    }
                }
            }
        }
        p = p + 1;
    }
    proof {
        let lab = label@;
        assert forall|m: int| 0 <= m < links@.len() implies lab[#[trigger] links@[m].0 as int] == lab[links@[m].1
            as int] by {
            assert(root[links@[m].0 as int] == root[links@[m].1 as int]);
            assert(links@[m].0 < ni && links@[m].1 < ni);
        }
        assert forall|L: Seq<int>, i: int, j: int|
            #![trigger respects(L, links@), lab[i], lab[j]]
            0 <= i < lab.len() && 0 <= j < lab.len() && L.len() == lab.len() && respects(L, links@) && lab[i]
                == lab[j] implies L[i] == L[j] by {
            assert(root[i] == root[j]);
        }
    }
    PowerNets { of_pylon: label, count }
}

} // verus!
