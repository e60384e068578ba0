//! Live reload of the running TCP pools' backend lists from a new
//! configuration: wanted addresses are added, unwanted ones removed, and a
//! pool that does not run yet is reported as needing a restart.
use vstd::prelude::*;

use crate::config::TcpPool;
use crate::lb::{has_addr, valid_addrs, without_addr, Backend, TcpPoolState};
use crate::net::parse_socket_addr;
use crate::text::str_eq;

verus! {

broadcast use vstd::string::group_string_axioms;

pub open spec fn addrs_of(bs: Seq<Backend>) -> Seq<Seq<char>> {
    bs.map_values(|b: Backend| b.address()@)
}

pub open spec fn texts(v: Seq<String>) -> Seq<Seq<char>> {
    v.map_values(|s: String| s@)
}

/// The addresses a configured pool wants: those that parse.
pub open spec fn wanted(p: TcpPool) -> Seq<Seq<char>> {
    texts(valid_addrs(p.backends@))
}

/// Each wanted address not present yet is appended, in order.
pub open spec fn after_adds(m: Seq<Seq<char>>, w: Seq<Seq<char>>) -> Seq<Seq<char>>
    decreases w.len(),
{
    if w.len() == 0 {
        m
    } else {
        let r = after_adds(m, w.drop_last());
        if r.contains(w.last()) {
            r
        } else {
            r.push(w.last())
        }
    }
}

/// Every occurrence of `a` removed.
pub open spec fn drop_addr(m: Seq<Seq<char>>, a: Seq<char>) -> Seq<Seq<char>>
    decreases m.len(),
{
    if m.len() == 0 {
        m
    } else {
        let r = drop_addr(m.drop_last(), a);
        if m.last() == a {
            r
        } else {
            r.push(m.last())
        }
    }
}

/// For each address of `a0` that is not wanted, every occurrence removed.
pub open spec fn after_removes(m: Seq<Seq<char>>, a0: Seq<Seq<char>>, w: Seq<Seq<char>>) -> Seq<
    Seq<char>,
>
    decreases a0.len(),
{
    if a0.len() == 0 {
        m
    } else {
        let r = after_removes(m, a0.drop_last(), w);
        if w.contains(a0.last()) {
            r
        } else {
            drop_addr(r, a0.last())
        }
    }
}

/// A pool's addresses after the reload: `a0` brought to the wanted `w`.
pub open spec fn synced(a0: Seq<Seq<char>>, w: Seq<Seq<char>>) -> Seq<Seq<char>> {
    after_removes(after_adds(a0, w), a0, w)
}

/// The wanted addresses that were missing, in wanted order.
pub open spec fn added_records(a0: Seq<Seq<char>>, w: Seq<Seq<char>>) -> Seq<Seq<char>>
    decreases w.len(),
{
    if w.len() == 0 {
        Seq::empty()
    } else {
        let r = added_records(a0, w.drop_last());
        if a0.contains(w.last()) {
            r
        } else {
            r.push(w.last())
        }
    }
}

/// The present addresses that are not wanted, in present order.
pub open spec fn removed_records(a0: Seq<Seq<char>>, w: Seq<Seq<char>>) -> Seq<Seq<char>>
    decreases a0.len(),
{
    if a0.len() == 0 {
        Seq::empty()
    } else {
        let r = removed_records(a0.drop_last(), w);
        if w.contains(a0.last()) {
            r
        } else {
            r.push(a0.last())
        }
    }
}

/// What a reload did.
#[derive(Debug)]
pub enum ReloadChange {
    /// (pool, address)
    Added(String, String),
    /// (pool, address)
    Removed(String, String),
    /// A pool that does not run: it needs a restart.
    RestartRequired(String),
}

pub enum ChangeView {
    Added(Seq<char>, Seq<char>),
    Removed(Seq<char>, Seq<char>),
    RestartRequired(Seq<char>),
}

pub open spec fn change_view(c: ReloadChange) -> ChangeView {
    match c {
        ReloadChange::Added(p, a) => ChangeView::Added(p@, a@),
        ReloadChange::Removed(p, a) => ChangeView::Removed(p@, a@),
        ReloadChange::RestartRequired(p) => ChangeView::RestartRequired(p@),
    }
}

pub open spec fn change_views(s: Seq<ReloadChange>) -> Seq<ChangeView> {
    s.map_values(|c: ReloadChange| change_view(c))
}

/// Index of the first running pool with this name.
pub open spec fn pool_named(names: Seq<Seq<char>>, n: Seq<char>) -> Option<int>
    decreases names.len(),
{
    if names.len() == 0 {
        None
    } else {
        match pool_named(names.drop_last(), n) {
            Some(i) => Some(i),
            None => if names.last() == n {
                Some(names.len() - 1)
            } else {
                None
            },
        }
    }
}

pub proof fn lemma_pool_named(names: Seq<Seq<char>>, n: Seq<char>)
    ensures
        match pool_named(names, n) {
            Some(i) => 0 <= i < names.len() && names[i] == n && forall|j: int|
                0 <= j < i ==> names[j] != n,
            None => forall|j: int| 0 <= j < names.len() ==> names[j] != n,
        },
    decreases names.len(),
{
    if names.len() > 0 {
        lemma_pool_named(names.drop_last(), n);
        assert forall|j: int| 0 <= j < names.len() - 1 implies names[j] == names.drop_last()[j] by {}
    }
}

/// The running pools' addresses and the changes made, after the configured
/// pools were taken in order.
pub struct ReloadModel {
    pub addrs: Seq<Seq<Seq<char>>>,
    pub changes: Seq<ChangeView>,
}

pub open spec fn reload_model(
    names: Seq<Seq<char>>,
    addrs0: Seq<Seq<Seq<char>>>,
    desired: Seq<TcpPool>,
) -> ReloadModel
    decreases desired.len(),
{
    if desired.len() == 0 {
        ReloadModel { addrs: addrs0, changes: Seq::empty() }
    } else {
        let m = reload_model(names, addrs0, desired.drop_last());
        let p = desired.last();
        let w = wanted(p);
        match pool_named(names, p.name@) {
            Some(i) => {
                let a0 = m.addrs[i];
                ReloadModel {
                    addrs: m.addrs.update(i, synced(a0, w)),
                    changes: m.changes + added_records(a0, w).map_values(
                        |a: Seq<char>| ChangeView::Added(p.name@, a),
                    ) + removed_records(a0, w).map_values(
                        |a: Seq<char>| ChangeView::Removed(p.name@, a),
                    ),
                }
            },
            None => ReloadModel {
                addrs: m.addrs,
                changes: m.changes.push(ChangeView::RestartRequired(p.name@)),
            },
        }
    }
}

pub open spec fn pool_names(ps: Seq<TcpPoolState>) -> Seq<Seq<char>> {
    ps.map_values(|p: TcpPoolState| p.pool_name()@)
}

pub open spec fn pool_addrs(ps: Seq<TcpPoolState>) -> Seq<Seq<Seq<char>>> {
    ps.map_values(|p: TcpPoolState| addrs_of(p.members()))
}

// ---------------------------------------------------------------------------
// Lemmas
// ---------------------------------------------------------------------------

pub proof fn lemma_has_addr(bs: Seq<Backend>, a: Seq<char>)
    ensures
        has_addr(bs, a) == addrs_of(bs).contains(a),
{
    if has_addr(bs, a) {
        let i = choose|i: int| 0 <= i < bs.len() && #[trigger] bs[i].address()@ == a;
        assert(addrs_of(bs)[i] == a);
    }
    if addrs_of(bs).contains(a) {
        let i = choose|i: int| 0 <= i < addrs_of(bs).len() && addrs_of(bs)[i] == a;
        assert(bs[i].address()@ == a);
    }
}

pub proof fn lemma_without_addrs(bs: Seq<Backend>, a: Seq<char>)
    ensures
        addrs_of(without_addr(bs, a)) == drop_addr(addrs_of(bs), a),
    decreases bs.len(),
{
    if bs.len() > 0 {
        lemma_without_addrs(bs.drop_last(), a);
        assert(addrs_of(bs).drop_last() =~= addrs_of(bs.drop_last()));
        assert(addrs_of(bs).last() == bs.last().address()@);
        if bs.last().address()@ != a {
            assert(addrs_of(without_addr(bs.drop_last(), a).push(bs.last())) =~= addrs_of(
                without_addr(bs.drop_last(), a),
            ).push(bs.last().address()@));
        }
    }
}

/// Appending keeps what was there.
pub proof fn lemma_after_adds_keeps(m: Seq<Seq<char>>, w: Seq<Seq<char>>, x: Seq<char>)
    requires
        m.contains(x),
    ensures
        after_adds(m, w).contains(x),
    decreases w.len(),
{
    if w.len() > 0 {
        lemma_after_adds_keeps(m, w.drop_last(), x);
        let r = after_adds(m, w.drop_last());
        if !r.contains(w.last()) {
            let i = choose|i: int| 0 <= i < r.len() && r[i] == x;
            assert(r.push(w.last())[i] == x);
        }
    }
}

pub proof fn lemma_after_adds_contains(m: Seq<Seq<char>>, w: Seq<Seq<char>>, x: Seq<char>)
    ensures
        after_adds(m, w).contains(x) <==> m.contains(x) || w.contains(x),
    decreases w.len(),
{
    if w.len() > 0 {
        lemma_after_adds_contains(m, w.drop_last(), x);
        let r = after_adds(m, w.drop_last());
        if w.contains(x) && !w.drop_last().contains(x) {
            let i = choose|i: int| 0 <= i < w.len() && w[i] == x;
            if i < w.len() - 1 {
                assert(w.drop_last()[i] == x);
            }
            assert(x == w.last());
            if !r.contains(w.last()) {
                assert(r.push(w.last())[r.len() as int] == x);
            }
        }
        if w.drop_last().contains(x) {
            let i = choose|i: int| 0 <= i < w.drop_last().len() && w.drop_last()[i] == x;
            assert(w[i] == x);
        }
        if !r.contains(w.last()) {
            let p = r.push(w.last());
            if p.contains(x) {
                let i = choose|i: int| 0 <= i < p.len() && p[i] == x;
                if i < r.len() {
                    assert(r[i] == x);
                } else {
                    assert(w[w.len() - 1] == x);
                }
            }
            if r.contains(x) {
                let i = choose|i: int| 0 <= i < r.len() && r[i] == x;
                assert(p[i] == x);
            }
        }
    }
}

pub proof fn lemma_drop_addr_contains(m: Seq<Seq<char>>, a: Seq<char>, x: Seq<char>)
    ensures
        drop_addr(m, a).contains(x) <==> m.contains(x) && x != a,
    decreases m.len(),
{
    if m.len() > 0 {
        lemma_drop_addr_contains(m.drop_last(), a, x);
        let r = drop_addr(m.drop_last(), a);
        if m.contains(x) && x != a && !m.drop_last().contains(x) {
            let i = choose|i: int| 0 <= i < m.len() && m[i] == x;
            if i < m.len() - 1 {
                assert(m.drop_last()[i] == x);
            }
            assert(r.push(m.last())[r.len() as int] == x);
        }
        if m.drop_last().contains(x) {
            let i = choose|i: int| 0 <= i < m.drop_last().len() && m.drop_last()[i] == x;
            assert(m[i] == x);
        }
        if m.last() != a {
            let p = r.push(m.last());
            if p.contains(x) {
                let i = choose|i: int| 0 <= i < p.len() && p[i] == x;
                if i < r.len() {
                    assert(r[i] == x);
                } else {
                    assert(m[m.len() - 1] == x);
                }
            }
            if r.contains(x) {
                let i = choose|i: int| 0 <= i < r.len() && r[i] == x;
                assert(p[i] == x);
            }
        }
    }
}

pub proof fn lemma_after_removes_contains(
    m: Seq<Seq<char>>,
    a0: Seq<Seq<char>>,
    w: Seq<Seq<char>>,
    x: Seq<char>,
)
    ensures
        after_removes(m, a0, w).contains(x) <==> m.contains(x) && (w.contains(x) || !a0.contains(
            x,
        )),
    decreases a0.len(),
{
    if a0.len() > 0 {
        lemma_after_removes_contains(m, a0.drop_last(), w, x);
        let r = after_removes(m, a0.drop_last(), w);
        if !w.contains(a0.last()) {
            lemma_drop_addr_contains(r, a0.last(), x);
        }
        if a0.contains(x) && !a0.drop_last().contains(x) {
            let i = choose|i: int| 0 <= i < a0.len() && a0[i] == x;
            if i < a0.len() - 1 {
                assert(a0.drop_last()[i] == x);
            }
        }
        if a0.drop_last().contains(x) {
            let i = choose|i: int| 0 <= i < a0.drop_last().len() && a0.drop_last()[i] == x;
            assert(a0[i] == x);
        }
        if a0.last() == x {
            assert(a0[a0.len() - 1] == x);
        }
    }
}

/// After a reload a running pool holds exactly the wanted addresses.
pub proof fn law_reload_syncs_addresses(a0: Seq<Seq<char>>, w: Seq<Seq<char>>, x: Seq<char>)
    ensures
        synced(a0, w).contains(x) <==> w.contains(x),
{
    lemma_after_adds_contains(a0, w, x);
    lemma_after_removes_contains(after_adds(a0, w), a0, w, x);
}

// ---------------------------------------------------------------------------
// Execution
// ---------------------------------------------------------------------------

fn contains_text(v: &Vec<String>, a: &String) -> (r: bool)
    ensures
        r == texts(v@).contains(a@),
{
    let mut i: usize = 0;
    while i < v.len()
        invariant
            i <= v@.len(),
            forall|j: int| 0 <= j < i ==> v@[j]@ != a@,
        decreases v.len() - i,
    {
        if str_eq(v[i].as_str(), a.as_str()) {
            assert(texts(v@)[i as int] == a@);
            return true;
        }
        i += 1;
    }
    proof {
        if texts(v@).contains(a@) {
            let j = choose|j: int| 0 <= j < texts(v@).len() && texts(v@)[j] == a@;
            assert(v@[j]@ == a@);
        }
    }
    false
}

fn wanted_addrs(p: &TcpPool) -> (r: Vec<String>)
    ensures
        texts(r@) == wanted(*p),
{
    let mut out: Vec<String> = Vec::new();
    let mut i: usize = 0;
    while i < p.backends.len()
        invariant
            i <= p.backends@.len(),
            texts(out@) == texts(valid_addrs(p.backends@.take(i as int))),
        decreases p.backends.len() - i,
    {
        assert(p.backends@.take(i + 1).drop_last() =~= p.backends@.take(i as int));
        assert(p.backends@.take(i + 1).last() == p.backends@[i as int]);
        let ghost before = out@;
        if parse_socket_addr(p.backends[i].as_str()).is_some() {
            out.push(p.backends[i].clone());
            assert(texts(out@) =~= texts(before).push(p.backends@[i as int]@));
            assert(texts(valid_addrs(p.backends@.take(i + 1))) =~= texts(
                valid_addrs(p.backends@.take(i as int)),
            ).push(p.backends@[i as int]@));
        }
        i += 1;
    }
    assert(p.backends@.take(p.backends.len() as int) =~= p.backends@);
    out
}

fn current_addrs(p: &TcpPoolState) -> (r: Vec<String>)
    ensures
        texts(r@) == addrs_of(p.members()),
{
    let bs = p.backends();
    let mut out: Vec<String> = Vec::new();
    let mut i: usize = 0;
    while i < bs.len()
        invariant
            i <= bs@.len(),
            bs@ == p.members(),
            texts(out@) == addrs_of(bs@.take(i as int)),
        decreases bs.len() - i,
    {
        let ghost before = out@;
        out.push(bs[i].addr().clone());
        assert(texts(out@) =~= texts(before).push(bs@[i as int].address()@));
        assert(addrs_of(bs@.take(i + 1)) =~= addrs_of(bs@.take(i as int)).push(
            bs@[i as int].address()@,
        ));
        i += 1;
    }
    assert(bs@.take(bs.len() as int) =~= bs@);
    out
}

/// Brings one running pool to the wanted addresses, recording what changed.
fn sync_pool(pool: &mut TcpPoolState, name: &String, want: &Vec<String>, changes: &mut Vec<
    ReloadChange,
>)
    ensures
        final(pool).pool_name() == old(pool).pool_name(),
        addrs_of(final(pool).members()) == synced(addrs_of(old(pool).members()), texts(want@)),
        change_views(final(changes)@) == change_views(old(changes)@) + added_records(
            addrs_of(old(pool).members()),
            texts(want@),
        ).map_values(|a: Seq<char>| ChangeView::Added(name@, a)) + removed_records(
            addrs_of(old(pool).members()),
            texts(want@),
        ).map_values(|a: Seq<char>| ChangeView::Removed(name@, a)),
{
    let current = current_addrs(pool);
    let ghost a0 = addrs_of(pool.members());
    let ghost w = texts(want@);
    let ghost c0 = change_views(changes@);
    let mut j: usize = 0;
    while j < want.len()
        invariant
            j <= want@.len(),
            w == texts(want@),
            texts(current@) == a0,
            pool.pool_name() == old(pool).pool_name(),
            addrs_of(pool.members()) == after_adds(a0, w.take(j as int)),
            change_views(changes@) == c0 + added_records(a0, w.take(j as int)).map_values(
                |a: Seq<char>| ChangeView::Added(name@, a),
            ),
        decreases want.len() - j,
    {
        assert(w.take(j + 1).drop_last() =~= w.take(j as int));
        assert(w.take(j + 1).last() == want@[j as int]@);
        let x = &want[j];
        let ghost before_members = pool.members();
        let ghost before_changes = change_views(changes@);
        if !contains_text(&current, x) {
            proof {
                lemma_has_addr(before_members, x@);
            }
            let added = pool.add_backend(x.clone());
            if added {
                assert(addrs_of(pool.members()) =~= addrs_of(pool.members().drop_last()).push(
                    pool.members().last().address()@,
                ));
            }
            changes.push(ReloadChange::Added(name.clone(), x.clone()));
            assert(change_views(changes@) =~= before_changes.push(ChangeView::Added(name@, x@)));
            assert(added_records(a0, w.take(j + 1)).map_values(
                |a: Seq<char>| ChangeView::Added(name@, a),
            ) =~= added_records(a0, w.take(j as int)).map_values(
                |a: Seq<char>| ChangeView::Added(name@, a),
            ).push(ChangeView::Added(name@, x@)));
        } else {
            proof {
                lemma_after_adds_contains(a0, w.take(j as int), x@);
            }
        }
        j += 1;
    }
    assert(w.take(want.len() as int) =~= w);
    let ghost m1 = addrs_of(pool.members());
    let ghost c1 = change_views(changes@);
    let mut k: usize = 0;
    while k < current.len()
        invariant
            k <= current@.len(),
            w == texts(want@),
            texts(current@) == a0,
            m1 == after_adds(a0, w),
            pool.pool_name() == old(pool).pool_name(),
            addrs_of(pool.members()) == after_removes(m1, a0.take(k as int), w),
            change_views(changes@) == c1 + removed_records(a0.take(k as int), w).map_values(
                |a: Seq<char>| ChangeView::Removed(name@, a),
            ),
        decreases current.len() - k,
    {
        assert(a0.take(k + 1).drop_last() =~= a0.take(k as int));
        assert(a0.take(k + 1).last() == current@[k as int]@);
        let c = &current[k];
        let ghost before_changes = change_views(changes@);
        if !contains_text(want, c) {
            let ghost bm = pool.members();
            pool.remove_backend(c.as_str());
            proof {
                lemma_without_addrs(bm, c@);
            }
            changes.push(ReloadChange::Removed(name.clone(), c.clone()));
            assert(change_views(changes@) =~= before_changes.push(ChangeView::Removed(name@, c@)));
            assert(removed_records(a0.take(k + 1), w).map_values(
                |a: Seq<char>| ChangeView::Removed(name@, a),
            ) =~= removed_records(a0.take(k as int), w).map_values(
                |a: Seq<char>| ChangeView::Removed(name@, a),
            ).push(ChangeView::Removed(name@, c@)));
        }
        k += 1;
    }
    assert(a0.take(current.len() as int) =~= a0);
    assert(change_views(changes@) =~= c0 + added_records(a0, w).map_values(
        |a: Seq<char>| ChangeView::Added(name@, a),
    ) + removed_records(a0, w).map_values(|a: Seq<char>| ChangeView::Removed(name@, a)));
}

/// Reloads the backend lists of the running TCP pools from the configured
/// pools, in configuration order; see [`reload_model`].
pub fn reload_tcp_pools(pools: &mut Vec<TcpPoolState>, desired: &Vec<TcpPool>) -> (r: Vec<
    ReloadChange,
>)
    ensures
        final(pools)@.len() == old(pools)@.len(),
        pool_names(final(pools)@) == pool_names(old(pools)@),
        pool_addrs(final(pools)@) == reload_model(
            pool_names(old(pools)@),
            pool_addrs(old(pools)@),
            desired@,
        ).addrs,
        change_views(r@) == reload_model(
            pool_names(old(pools)@),
            pool_addrs(old(pools)@),
            desired@,
        ).changes,
{
    let ghost names = pool_names(pools@);
    let ghost addrs0 = pool_addrs(pools@);
    let mut changes: Vec<ReloadChange> = Vec::new();
    let mut d: usize = 0;
    assert(change_views(changes@) =~= Seq::<ChangeView>::empty());
    while d < desired.len()
        invariant
            d <= desired@.len(),
            pools@.len() == names.len(),
            pool_names(pools@) == names,
            pool_addrs(pools@) == reload_model(names, addrs0, desired@.take(d as int)).addrs,
            change_views(changes@) == reload_model(names, addrs0, desired@.take(d as int)).changes,
        decreases desired.len() - d,
    {
        assert(desired@.take(d + 1).drop_last() =~= desired@.take(d as int));
        assert(desired@.take(d + 1).last() == desired@[d as int]);
        let p = &desired[d];
        let want = wanted_addrs(p);
        proof {
            lemma_pool_named(names, p.name@);
        }
        let mut i: usize = 0;
        let mut found = false;
        while i < pools.len()
            invariant_except_break
                !found,
            invariant
                i <= pools@.len(),
                pools@.len() == names.len(),
                pool_names(pools@) == names,
                forall|j: int| 0 <= j < i ==> names[j] != p.name@,
            ensures
                found ==> i < pools@.len() && names[i as int] == p.name@,
                !found ==> forall|j: int| 0 <= j < names.len() ==> names[j] != p.name@,
            decreases pools.len() - i,
        {
            assert(names[i as int] == pools@[i as int].pool_name()@);
            if str_eq(pools[i].name().as_str(), p.name.as_str()) {
                found = true;
                break;
            }
            i += 1;
        }
        let ghost m = reload_model(names, addrs0, desired@.take(d as int));
        if found {
            proof {
                let k = pool_named(names, p.name@);
                assert(k == Some(i as int)) by {
                    match k {
                        Some(x) => {
                            if x < i {
                                assert(names[x] != p.name@);
                            } else if x > i {
                                assert(names[i as int] != p.name@);
                            }
                        },
                        None => {
                            assert(names[i as int] != p.name@);
                        },
                    }
                }
            }
            let ghost before = pools@;
            let mut pool = pools.remove(i);
            assert(addrs_of(pool.members()) == m.addrs[i as int]) by {
                assert(pool_addrs(before)[i as int] == addrs_of(before[i as int].members()));
            }
            sync_pool(&mut pool, &p.name, &want, &mut changes);
            pools.insert(i, pool);
            proof {
                assert(pool_names(pools@) =~= names) by {
                    assert forall|j: int| 0 <= j < names.len() implies pool_names(pools@)[j]
                        == names[j] by {
                        assert(pool_names(before)[j] == names[j]);
                    }
                }
                assert(pool_addrs(pools@) =~= m.addrs.update(
                    i as int,
                    synced(m.addrs[i as int], wanted(*p)),
                )) by {
                    assert forall|j: int| 0 <= j < names.len() implies pool_addrs(pools@)[j]
                        == m.addrs.update(i as int, synced(m.addrs[i as int], wanted(*p)))[j] by {
                        assert(pool_addrs(before)[j] == m.addrs[j]);
                    }
                }
            }
        } else {
            proof {
                lemma_pool_named(names, p.name@);
                assert(pool_named(names, p.name@) is None) by {
                    match pool_named(names, p.name@) {
                        Some(x) => {
                            assert(names[x] != p.name@);
                        },
                        None => {},
                    }
                }
            }
            let ghost before = change_views(changes@);
            changes.push(ReloadChange::RestartRequired(p.name.clone()));
            assert(change_views(changes@) =~= before.push(ChangeView::RestartRequired(p.name@)));
        }
        d += 1;
    }
    assert(desired@.take(desired.len() as int) =~= desired@);
    changes
}

} // verus!
