//! What every install plan guarantees, proved over the resolution that
//! [`crate::registry::RegistryIndex::plan`] performs.

use vstd::prelude::*;

use crate::text::contains_seq;

use crate::names::{entry_get, entry_keys, lemma_entry_position, lemma_push_contains, strictly_sorted};
use crate::registry::{
    after_requirements, files_for, keeps_file, kept_files, variant_lists, entries_error, index_error, optional_requirements, plan_for, visit,
    visit_all, PlanCtx, PlanState, SpecComponent, SpecIndex, SpecPlanned, SpecRegistryError,
};

verus! {

/// The id a planned component was installed under.
pub open spec fn planned_name(p: SpecPlanned) -> Seq<char> {
    p.component.name
}

/// Everything resolving a component visits: its requirements, then what its
/// selected groups require.
pub open spec fn dependencies_of(c: SpecComponent, groups: Seq<Seq<char>>) -> Seq<Seq<char>> {
    c.requirements + optional_requirements(c, groups)
}

/// Every listed component is listed under its own name.
pub open spec fn keys_are_names(idx: SpecIndex) -> bool {
    forall|k: int| 0 <= k < idx.components.len() ==> (#[trigger] idx.components[k]).1.name == idx.components[k].0
}

/// The chain being resolved holds distinct listed ids.
spec fn chain_ok(ctx: PlanCtx, vis: Seq<Seq<char>>) -> bool {
    &&& vis.no_duplicates()
    &&& forall|x: Seq<char>| vis.contains(x) ==> entry_keys(ctx.idx.components).contains(x)
}

/// What holds of every state resolution passes through.
spec fn state_ok(ctx: PlanCtx, st: PlanState) -> bool {
    let ps = st.planned;
    &&& forall|i: int| 0 <= i < ps.len() ==> st.done.contains(planned_name(#[trigger] ps[i]))
    &&& forall|i: int, j: int| 0 <= i < j < ps.len() ==> planned_name(#[trigger] ps[i]) != planned_name(#[trigger] ps[j])
    &&& ctx.resolve ==> forall|i: int, d: Seq<char>|
        0 <= i < ps.len() && #[trigger] dependencies_of((#[trigger] ps[i]).component, ctx.optional).contains(d) ==> {
            &&& st.done.contains(d)
            &&& forall|j: int| 0 <= j < ps.len() && planned_name(#[trigger] ps[j]) == d ==> j < i
        }
    &&& !ctx.resolve ==> forall|j: int| 0 <= j < ps.len() ==> (#[trigger] ps[j]).requested
    &&& forall|j: int| 0 <= j < ps.len() ==> planned_as_listed(ctx, #[trigger] ps[j])
    &&& forall|x: Seq<char>| #[trigger] st.done.contains(x) ==> {
        ||| exists|j: int| 0 <= j < ps.len() && planned_name(#[trigger] ps[j]) == x
        ||| ctx.installed.contains(x) && !ctx.wanted.contains(x)
    }
    &&& forall|j: int| 0 <= j < ps.len() ==> (#[trigger] ps[j]).requested == ctx.wanted.contains(planned_name(ps[j]))
    &&& forall|j: int| 0 <= j < ps.len() && !(#[trigger] ps[j]).requested ==> !ctx.installed.contains(planned_name(ps[j]))
}

/// A planned component is the index's entry under its name, with the files the
/// selection copies.
pub open spec fn planned_as_listed(ctx: PlanCtx, p: SpecPlanned) -> bool {
    &&& entry_get(ctx.idx.components, planned_name(p)) == Some(p.component)
    &&& p.files == crate::registry::planned_files(p.component, ctx.variants, ctx.optional)
}

/// `st2` extends `st`: nothing finished is forgotten, the plan only grows at its
/// end, and what was finished on the way is neither in `vis` nor finished before.
spec fn extends(st: PlanState, st2: PlanState, vis: Seq<Seq<char>>) -> bool {
    &&& forall|x: Seq<char>| st.done.contains(x) ==> #[trigger] st2.done.contains(x)
    &&& forall|x: Seq<char>| #[trigger] st2.done.contains(x) && !st.done.contains(x) ==> !vis.contains(x)
    &&& st.planned.len() <= st2.planned.len()
    &&& forall|i: int| 0 <= i < st.planned.len() ==> #[trigger] st2.planned[i] == st.planned[i]
    &&& forall|j: int| st.planned.len() <= j < st2.planned.len() ==> !st.done.contains(planned_name(#[trigger] st2.planned[j]))
}

proof fn lemma_entry_named(idx: SpecIndex, id: Seq<char>)
    requires
        keys_are_names(idx),
        strictly_sorted(entry_keys(idx.components)),
        entry_get(idx.components, id) is Some,
    ensures
        entry_get(idx.components, id)->0.name == id,
        entry_keys(idx.components).contains(id),
{
    let k = entry_keys(idx.components).index_of(id);
    assert(entry_keys(idx.components)[k] == id);
    assert(idx.components[k].0 == id);
    lemma_entry_position(idx.components, k);
}

#[verifier::rlimit(40)]
proof fn lemma_visit(ctx: PlanCtx, vis: Seq<Seq<char>>, st: PlanState, id: Seq<char>)
    requires
        !ctx.resolve ==> ctx.wanted.contains(id),
        keys_are_names(ctx.idx),
        strictly_sorted(entry_keys(ctx.idx.components)),
        chain_ok(ctx, vis),
        state_ok(ctx, st),
        visit(ctx, vis, st, id) is Ok,
    ensures
        state_ok(ctx, visit(ctx, vis, st, id)->Ok_0),
        extends(st, visit(ctx, vis, st, id)->Ok_0, vis),
        visit(ctx, vis, st, id)->Ok_0.done.contains(id),
    decreases ctx.idx.components.len() - vis.len(), 2nat, 0nat,
{
    if st.done.contains(id) {
    } else {
        let c = entry_get(ctx.idx.components, id)->0;
        lemma_entry_named(ctx.idx, id);
        lemma_after_requirements(ctx, vis, st, id, c);
        let s2 = after_requirements(ctx, vis, st, id, c)->Ok_0;
        let done = s2.done.push(id);
        assert(!s2.done.contains(id));
        let requested = ctx.wanted.contains(id);
        let out = visit(ctx, vis, st, id)->Ok_0;
        lemma_push_contains(s2.done, id);
        lemma_push_contains(vis, id);
        assert(done[done.len() - 1] == id);
        assert(out.done.contains(id));
        if ctx.installed.contains(id) && !requested {
            assert(out == PlanState { done, planned: s2.planned });
            assert forall|x: Seq<char>| #[trigger] out.done.contains(x) implies {
                ||| exists|j: int| 0 <= j < s2.planned.len() && planned_name(#[trigger] s2.planned[j]) == x
                ||| ctx.installed.contains(x) && !ctx.wanted.contains(x)
            } by {
                if x != id {
                    assert(s2.done.contains(x));
                }
            }
            assert forall|x: Seq<char>| st.done.contains(x) implies #[trigger] out.done.contains(x) by {
                assert(s2.done.contains(x));
            }
            assert forall|x: Seq<char>| #[trigger] out.done.contains(x) && !st.done.contains(x) implies !vis.contains(x) by {
                if x != id {
                    assert(s2.done.contains(x));
                }
            }
            assert forall|i: int| 0 <= i < s2.planned.len() implies out.done.contains(planned_name(#[trigger] s2.planned[i])) by {
                assert(s2.done.contains(planned_name(s2.planned[i])));
            }
            if ctx.resolve {
                assert forall|i: int, d: Seq<char>|
                    0 <= i < s2.planned.len() && #[trigger] dependencies_of((#[trigger] s2.planned[i]).component, ctx.optional).contains(d)
                    implies out.done.contains(d) by {
                    assert(s2.done.contains(d));
                }
            }
            assert(state_ok(ctx, out));
            assert(extends(st, out, vis));
        } else {
            let np = SpecPlanned {
                component: c,
                files: crate::registry::planned_files(c, ctx.variants, ctx.optional),
                requested,
            };
            let ps = s2.planned.push(np);
            assert(out == PlanState { done, planned: ps });
            let n = s2.planned.len() as int;
            assert(planned_name(out.planned[n]) == id);
            assert forall|i: int| 0 <= i < out.planned.len() implies out.done.contains(planned_name(#[trigger] out.planned[i])) by {
                if i < n {
                    assert(out.planned[i] == s2.planned[i]);
                    assert(s2.done.contains(planned_name(s2.planned[i])));
                }
            }
            assert forall|i: int, j: int| 0 <= i < j < out.planned.len() implies planned_name(#[trigger] out.planned[i]) != planned_name(#[trigger] out.planned[j]) by {
                assert(out.planned[i] == s2.planned[i]);
                if j < n {
                    assert(out.planned[j] == s2.planned[j]);
                } else {
                    assert(s2.done.contains(planned_name(s2.planned[i])));
                }
            }
            if !ctx.resolve {
                assert forall|j: int| 0 <= j < out.planned.len() implies (#[trigger] out.planned[j]).requested by {
                    if j < n {
                        assert(out.planned[j] == s2.planned[j]);
                    }
                }
            }
            if ctx.resolve {
            assert forall|i: int, d: Seq<char>|
                0 <= i < out.planned.len() && #[trigger] dependencies_of((#[trigger] out.planned[i]).component, ctx.optional).contains(d) implies {
                    &&& out.done.contains(d)
                    &&& forall|j: int| 0 <= j < out.planned.len() && planned_name(#[trigger] out.planned[j]) == d ==> j < i
                } by {
                if i < n {
                    assert(out.planned[i] == s2.planned[i]);
                    assert(s2.done.contains(d));
                    assert forall|j: int| 0 <= j < out.planned.len() && planned_name(#[trigger] out.planned[j]) == d implies j < i by {
                        if j < n {
                            assert(out.planned[j] == s2.planned[j]);
                        }
                    }
                } else {
                    assert(out.planned[i] == np);
                    assert(s2.done.contains(d));
                    assert forall|j: int| 0 <= j < out.planned.len() && planned_name(#[trigger] out.planned[j]) == d implies j < i by {
                        if j == n {
                            assert(d == id);
                        }
                    }
                }
            }
            }
            assert forall|x: Seq<char>| #[trigger] out.done.contains(x) implies {
                ||| exists|j: int| 0 <= j < out.planned.len() && planned_name(#[trigger] out.planned[j]) == x
                ||| ctx.installed.contains(x) && !ctx.wanted.contains(x)
            } by {
                if x == id {
                    assert(planned_name(out.planned[n]) == x);
                } else {
                    assert(s2.done.contains(x));
                    if exists|j: int| 0 <= j < s2.planned.len() && planned_name(#[trigger] s2.planned[j]) == x {
                        let j = choose|j: int| 0 <= j < s2.planned.len() && planned_name(#[trigger] s2.planned[j]) == x;
                        assert(out.planned[j] == s2.planned[j]);
                    }
                }
            }
            assert forall|j: int| 0 <= j < out.planned.len() implies planned_as_listed(ctx, #[trigger] out.planned[j]) by {
                if j < n {
                    assert(out.planned[j] == s2.planned[j]);
                }
            }
            assert forall|j: int| 0 <= j < out.planned.len() implies (#[trigger] out.planned[j]).requested == ctx.wanted.contains(planned_name(out.planned[j])) by {
                if j < n {
                    assert(out.planned[j] == s2.planned[j]);
                }
            }
            assert forall|j: int| 0 <= j < out.planned.len() && !(#[trigger] out.planned[j]).requested implies !ctx.installed.contains(planned_name(out.planned[j])) by {
                if j < n {
                    assert(out.planned[j] == s2.planned[j]);
                }
            }
            assert forall|x: Seq<char>| st.done.contains(x) implies #[trigger] out.done.contains(x) by {
                assert(s2.done.contains(x));
            }
            assert forall|x: Seq<char>| #[trigger] out.done.contains(x) && !st.done.contains(x) implies !vis.contains(x) by {
                if x != id {
                    assert(s2.done.contains(x));
                }
            }
            assert forall|i: int| 0 <= i < st.planned.len() implies #[trigger] out.planned[i] == st.planned[i] by {
                assert(s2.planned[i] == st.planned[i]);
            }
            assert forall|j: int| st.planned.len() <= j < out.planned.len() implies !st.done.contains(planned_name(#[trigger] out.planned[j])) by {
                if j < n {
                    assert(out.planned[j] == s2.planned[j]);
                }
            }
            assert(state_ok(ctx, out));
            assert(extends(st, out, vis));
        }
    }
}

proof fn lemma_after_requirements(ctx: PlanCtx, vis: Seq<Seq<char>>, st: PlanState, id: Seq<char>, c: SpecComponent)
    requires
        keys_are_names(ctx.idx),
        strictly_sorted(entry_keys(ctx.idx.components)),
        chain_ok(ctx, vis),
        state_ok(ctx, st),
        !vis.contains(id),
        !st.done.contains(id),
        entry_keys(ctx.idx.components).contains(id),
        after_requirements(ctx, vis, st, id, c) is Ok,
    ensures
        state_ok(ctx, after_requirements(ctx, vis, st, id, c)->Ok_0),
        extends(st, after_requirements(ctx, vis, st, id, c)->Ok_0, vis.push(id)),
        ctx.resolve ==> forall|d: Seq<char>| #[trigger] dependencies_of(c, ctx.optional).contains(d)
            ==> after_requirements(ctx, vis, st, id, c)->Ok_0.done.contains(d),
    decreases ctx.idx.components.len() - vis.len(), 1nat, 0nat,
{
    let vis1 = vis.push(id);
    assert(vis1.no_duplicates());
    assert forall|x: Seq<char>| vis1.contains(x) implies entry_keys(ctx.idx.components).contains(x) by {
        if x != id {
            let k = choose|k: int| 0 <= k < vis1.len() && vis1[k] == x;
            assert(vis[k] == x);
            assert(vis.contains(x));
        }
    }
    crate::names::lemma_distinct_subset_len(vis1, entry_keys(ctx.idx.components));
    assert(vis.len() < ctx.idx.components.len());
    if ctx.resolve {
        lemma_visit_all(ctx, vis1, st, c.requirements);
        let s1 = visit_all(ctx, vis1, st, c.requirements)->Ok_0;
        let extra = optional_requirements(c, ctx.optional);
        lemma_visit_all(ctx, vis1, s1, extra);
        let s2 = visit_all(ctx, vis1, s1, extra)->Ok_0;
        assert forall|d: Seq<char>| #[trigger] dependencies_of(c, ctx.optional).contains(d) implies s2.done.contains(d) by {
            let deps = dependencies_of(c, ctx.optional);
            let k = choose|k: int| 0 <= k < deps.len() && deps[k] == d;
            if k < c.requirements.len() {
                assert(c.requirements[k] == d);
                assert(c.requirements.contains(d));
                assert(s1.done.contains(d));
            } else {
                assert(extra[k - c.requirements.len()] == d);
                assert(extra.contains(d));
            }
        }
        assert forall|x: Seq<char>| #[trigger] s2.done.contains(x) && !st.done.contains(x) implies !vis1.contains(x) by {
            if !s1.done.contains(x) {
            }
        }
        assert forall|i: int| 0 <= i < st.planned.len() implies #[trigger] s2.planned[i] == st.planned[i] by {
            assert(s1.planned[i] == st.planned[i]);
        }
        assert forall|j: int| st.planned.len() <= j < s2.planned.len() implies !st.done.contains(planned_name(#[trigger] s2.planned[j])) by {
            if j < s1.planned.len() {
                assert(s2.planned[j] == s1.planned[j]);
            } else {
                assert(!s1.done.contains(planned_name(s2.planned[j])));
            }
        }
    }
}

proof fn lemma_visit_all(ctx: PlanCtx, vis: Seq<Seq<char>>, st: PlanState, ids: Seq<Seq<char>>)
    requires
        !ctx.resolve ==> forall|x: Seq<char>| #[trigger] ids.contains(x) ==> ctx.wanted.contains(x),
        keys_are_names(ctx.idx),
        strictly_sorted(entry_keys(ctx.idx.components)),
        chain_ok(ctx, vis),
        state_ok(ctx, st),
        visit_all(ctx, vis, st, ids) is Ok,
    ensures
        state_ok(ctx, visit_all(ctx, vis, st, ids)->Ok_0),
        extends(st, visit_all(ctx, vis, st, ids)->Ok_0, vis),
        forall|x: Seq<char>| #[trigger] ids.contains(x) ==> visit_all(ctx, vis, st, ids)->Ok_0.done.contains(x),
    decreases ctx.idx.components.len() - vis.len(), 3nat, ids.len(),
{
    if ids.len() > 0 {
        assert(ids.contains(ids[0]));
        lemma_visit(ctx, vis, st, ids[0]);
        let s = visit(ctx, vis, st, ids[0])->Ok_0;
        let rest = ids.subrange(1, ids.len() as int);
        assert forall|x: Seq<char>| #[trigger] rest.contains(x) implies ids.contains(x) by {
            let k = choose|k: int| 0 <= k < rest.len() && rest[k] == x;
            assert(ids[k + 1] == x);
        }
        lemma_visit_all(ctx, vis, s, rest);
        let s2 = visit_all(ctx, vis, s, rest)->Ok_0;
        assert forall|x: Seq<char>| #[trigger] ids.contains(x) implies s2.done.contains(x) by {
            let k = choose|k: int| 0 <= k < ids.len() && ids[k] == x;
            if k > 0 {
                assert(rest[k - 1] == x);
                assert(rest.contains(x));
            }
        }
        assert forall|i: int| 0 <= i < st.planned.len() implies #[trigger] s2.planned[i] == st.planned[i] by {
            assert(s.planned[i] == st.planned[i]);
        }
        assert forall|j: int| st.planned.len() <= j < s2.planned.len() implies !st.done.contains(planned_name(#[trigger] s2.planned[j])) by {
            if j < s.planned.len() {
                assert(s2.planned[j] == s.planned[j]);
            } else {
                assert(!s.done.contains(planned_name(s2.planned[j])));
            }
        }
    }
}

/// The index check passes only when every component is listed under its own name.
pub proof fn lemma_validated_keys_are_names(idx: SpecIndex)
    requires
        index_error(idx) is None,
    ensures
        keys_are_names(idx),
{
    lemma_entries_named(idx, idx.components);
    assert forall|k: int| 0 <= k < idx.components.len() implies (#[trigger] idx.components[k]).1.name == idx.components[k].0 by {
    }
}

/// An index the check accepts has the supported version, lists every
/// component under its own name, and restricts components only to variants it
/// declares.
pub proof fn lemma_validated_index(idx: SpecIndex)
    requires
        index_error(idx) is None,
    ensures
        idx.version == crate::registry::SUPPORTED_VERSION,
        keys_are_names(idx),
        forall|k: int, v: Seq<char>|
            0 <= k < idx.components.len() && #[trigger] idx.components[k].1.only_variants.contains(v)
                ==> idx.variants.contains(v),
{
    lemma_validated_keys_are_names(idx);
    lemma_entries_declared(idx, idx.components);
}

proof fn lemma_undeclared_none(idx: SpecIndex, id: Seq<char>, only: Seq<Seq<char>>)
    requires
        crate::registry::undeclared_error(idx, id, only) is None,
    ensures
        forall|v: Seq<char>| #[trigger] only.contains(v) ==> idx.variants.contains(v),
    decreases only.len(),
{
    if only.len() > 0 {
        lemma_undeclared_none(idx, id, only.drop_last());
        assert forall|v: Seq<char>| #[trigger] only.contains(v) implies idx.variants.contains(v) by {
            let j = choose|j: int| 0 <= j < only.len() && only[j] == v;
            if j < only.len() - 1 {
                assert(only.drop_last()[j] == v);
                assert(only.drop_last().contains(v));
            }
        }
    }
}

proof fn lemma_entries_declared(idx: SpecIndex, comps: Seq<(Seq<char>, SpecComponent)>)
    requires
        entries_error(idx, comps) is None,
    ensures
        forall|k: int, v: Seq<char>|
            0 <= k < comps.len() && #[trigger] comps[k].1.only_variants.contains(v) ==> idx.variants.contains(v),
    decreases comps.len(),
{
    if comps.len() > 0 {
        lemma_entries_declared(idx, comps.drop_last());
        lemma_undeclared_none(idx, comps.last().0, comps.last().1.only_variants);
        assert forall|k: int, v: Seq<char>|
            0 <= k < comps.len() && #[trigger] comps[k].1.only_variants.contains(v) implies idx.variants.contains(v) by {
            if k < comps.len() - 1 {
                assert(comps.drop_last()[k] == comps[k]);
            }
        }
    }
}

proof fn lemma_entries_named(idx: SpecIndex, comps: Seq<(Seq<char>, SpecComponent)>)
    requires
        entries_error(idx, comps) is None,
    ensures
        forall|k: int| 0 <= k < comps.len() ==> (#[trigger] comps[k]).1.name == comps[k].0,
    decreases comps.len(),
{
    if comps.len() > 0 {
        lemma_entries_named(idx, comps.drop_last());
        assert forall|k: int| 0 <= k < comps.len() implies (#[trigger] comps[k]).1.name == comps[k].0 by {
            if k < comps.len() - 1 {
                assert(comps.drop_last()[k] == comps[k]);
            }
        }
    }
}

/// What every plan guarantees, for an index that lists each component under its
/// own name (as every validated index does, see
/// `lemma_validated_keys_are_names`), whether it resolves requirements or not.
///
/// No component is planned twice; every requested component is planned and
/// marked requested, and a component is marked requested exactly when it was
/// asked for; a component pulled in only as a dependency is never one already
/// installed. When requirements are resolved, every component a planned
/// component requires (directly, or through a selected optional group) is
/// planned earlier, or is already installed and was not asked for. When they
/// are not, only the requested components are planned.
pub proof fn lemma_plan_dependencies_first(
    idx: SpecIndex,
    requested: Seq<Seq<char>>,
    variants: Seq<Seq<char>>,
    groups: Seq<Seq<char>>,
    installed: Seq<Seq<char>>,
    resolve: bool,
)
    requires
        strictly_sorted(entry_keys(idx.components)),
        keys_are_names(idx),
        plan_for(idx, requested, variants, groups, installed, resolve) is Ok,
    ensures
        ({
            let ps = plan_for(idx, requested, variants, groups, installed, resolve)->Ok_0.components;
            &&& resolve ==> forall|i: int, d: Seq<char>|
                0 <= i < ps.len() && #[trigger] dependencies_of((#[trigger] ps[i]).component, groups).contains(d) ==> {
                    ||| exists|j: int| 0 <= j < i && planned_name(#[trigger] ps[j]) == d
                    ||| installed.contains(d) && !requested.contains(d)
                }
            &&& !resolve ==> forall|j: int| 0 <= j < ps.len() ==> requested.contains(planned_name(#[trigger] ps[j]))
            &&& forall|i: int, j: int| 0 <= i < j < ps.len() ==> planned_name(#[trigger] ps[i]) != planned_name(#[trigger] ps[j])
            &&& forall|r: Seq<char>| #[trigger] requested.contains(r) ==> exists|j: int|
                0 <= j < ps.len() && planned_name(#[trigger] ps[j]) == r && ps[j].requested
            &&& forall|j: int| 0 <= j < ps.len() ==> (#[trigger] ps[j]).requested == requested.contains(planned_name(ps[j]))
            &&& forall|j: int| 0 <= j < ps.len() && !(#[trigger] ps[j]).requested ==> !installed.contains(planned_name(ps[j]))
            &&& forall|j: int| 0 <= j < ps.len() ==> entry_get(idx.components, planned_name(#[trigger] ps[j]))
                == Some(ps[j].component)
            &&& forall|j: int| 0 <= j < ps.len() ==> (#[trigger] ps[j]).files
                == crate::registry::planned_files(ps[j].component, variants, groups)
            &&& plan_for(idx, requested, variants, groups, installed, resolve)->Ok_0.packages
                == crate::names::dedup(crate::registry::plan_packages(ps, variants, groups))
        }),
{
    let ctx = PlanCtx { idx, variants, optional: groups, installed, wanted: requested, resolve };
    let st0 = PlanState { done: Seq::empty(), planned: Seq::empty() };
    let vis0 = Seq::<Seq<char>>::empty();
    assert(chain_ok(ctx, vis0));
    assert(state_ok(ctx, st0));
    lemma_visit_all(ctx, vis0, st0, requested);
    let st = visit_all(ctx, vis0, st0, requested)->Ok_0;
    let ps = st.planned;
    assert(ps == plan_for(idx, requested, variants, groups, installed, resolve)->Ok_0.components);
    if resolve {
        assert forall|i: int, d: Seq<char>|
            0 <= i < ps.len() && #[trigger] dependencies_of((#[trigger] ps[i]).component, groups).contains(d) implies {
                ||| exists|j: int| 0 <= j < i && planned_name(#[trigger] ps[j]) == d
                ||| installed.contains(d) && !requested.contains(d)
            } by {
            assert(ctx.optional == groups);
            assert(dependencies_of(ps[i].component, ctx.optional).contains(d));
            assert(st.done.contains(d));
            if exists|j: int| 0 <= j < ps.len() && planned_name(#[trigger] ps[j]) == d {
                let j = choose|j: int| 0 <= j < ps.len() && planned_name(#[trigger] ps[j]) == d;
                assert(j < i);
            }
        }
    } else {
        assert forall|j: int| 0 <= j < ps.len() implies requested.contains(planned_name(#[trigger] ps[j])) by {
            assert(ps[j].requested);
        }
    }
    assert forall|r: Seq<char>| #[trigger] requested.contains(r) implies exists|j: int|
        0 <= j < ps.len() && planned_name(#[trigger] ps[j]) == r && ps[j].requested by {
        assert(st.done.contains(r));
        let j = choose|j: int| 0 <= j < ps.len() && planned_name(#[trigger] ps[j]) == r;
        assert(ps[j].requested);
    }
    assert forall|j: int| 0 <= j < ps.len() implies entry_get(idx.components, planned_name(#[trigger] ps[j]))
        == Some(ps[j].component) by {
        assert(planned_as_listed(ctx, ps[j]));
    }
    assert forall|j: int| 0 <= j < ps.len() implies (#[trigger] ps[j]).files
        == crate::registry::planned_files(ps[j].component, variants, groups) by {
        assert(planned_as_listed(ctx, ps[j]));
    }
}

/// Being one edit apart is symmetric: a name suggests a typo exactly when the
/// typo would suggest the name.
pub proof fn lemma_one_edit_symmetric(a: Seq<char>, b: Seq<char>)
    ensures
        crate::registry::one_edit_apart(a, b) == crate::registry::one_edit_apart(b, a),
{
    crate::names::lemma_common_prefix(a, b);
}

/// Every name is within one edit of itself.
pub proof fn lemma_one_edit_reflexive(a: Seq<char>)
    ensures
        crate::registry::one_edit_apart(a, a),
{
    crate::names::lemma_common_prefix_is(a, a, a.len() as int);
}

/// A file is kept from a list exactly when the list holds it and the
/// selected variants keep it.
proof fn lemma_kept_files_contains(c: SpecComponent, vs: Seq<Seq<char>>, files: Seq<Seq<char>>, f: Seq<char>)
    ensures
        kept_files(c, vs, files).contains(f) <==> (files.contains(f) && keeps_file(c, vs, f)),
    decreases files.len(),
{
    if files.len() > 0 {
        let init = files.drop_last();
        lemma_kept_files_contains(c, vs, init, f);
        let rest = kept_files(c, vs, init);
        if files.contains(f) && files.last() != f {
            let k = choose|k: int| 0 <= k < files.len() && files[k] == f;
            assert(init[k] == f);
        }
        if init.contains(f) {
            let k = choose|k: int| 0 <= k < init.len() && init[k] == f;
            assert(files[k] == f);
        }
        assert(files[files.len() - 1] == files.last());
        if keeps_file(c, vs, files.last()) {
            assert(rest.push(files.last())[rest.len() as int] == files.last());
            if rest.contains(f) {
                let k = choose|k: int| 0 <= k < rest.len() && rest[k] == f;
                assert(rest.push(files.last())[k] == f);
            }
            if rest.push(files.last()).contains(f) && f != files.last() {
                let k = choose|k: int| 0 <= k < rest.len() + 1 && rest.push(files.last())[k] == f;
                assert(rest[k] == f);
            }
        }
    }
}

/// Selecting more variants never drops a file: every file a component copies
/// for some selection it also copies for any selection that includes it.
pub proof fn lemma_files_for_grow(c: SpecComponent, vs: Seq<Seq<char>>, more: Seq<Seq<char>>, f: Seq<char>)
    requires
        forall|v: Seq<char>| vs.contains(v) ==> #[trigger] more.contains(v),
        files_for(c, vs).contains(f),
    ensures
        files_for(c, more).contains(f),
{
    lemma_kept_files_contains(c, vs, c.files, f);
    lemma_kept_files_contains(c, more, c.files, f);
    if variant_lists(c, vs, f, true) {
        let k = choose|k: int|
            0 <= k < c.variants.len() && vs.contains(c.variants[k].0) == true
                && (#[trigger] c.variants[k]).1.includes.contains(f);
        assert(more.contains(c.variants[k].0));
        assert(variant_lists(c, more, f, true));
    } else {
        assert(!variant_lists(c, vs, f, false));
        if variant_lists(c, more, f, false) {
            let k = choose|k: int|
                0 <= k < c.variants.len() && more.contains(c.variants[k].0) == false
                    && (#[trigger] c.variants[k]).1.includes.contains(f);
            assert(!vs.contains(c.variants[k].0));
            assert(variant_lists(c, vs, f, false));
        }
    }
}

/// `b` is `a` with at most one edit: a deleted character, an inserted one, a
/// substituted one, or two adjacent characters swapped (an optimal string
/// alignment distance of at most one).
pub open spec fn single_edit(a: Seq<char>, b: Seq<char>) -> bool {
    ||| a == b
    ||| exists|i: int| 0 <= i < a.len() && #[trigger] a.remove(i) == b
    ||| exists|i: int| 0 <= i < b.len() && #[trigger] b.remove(i) == a
    ||| exists|i: int| 0 <= i < a.len() && a.len() == b.len() && #[trigger] a.update(i, b[i]) == b
    ||| exists|i: int|
        0 <= i && i + 1 < a.len() && a.len() == b.len() && a[i] == b[i + 1] && a[i + 1] == b[i]
            && #[trigger] a.update(i, b[i]).update(i + 1, b[i + 1]) == b
}

/// Where two texts agree on their first `i` characters, their common prefix is
/// at least that long.
proof fn lemma_prefix_at_least(a: Seq<char>, b: Seq<char>, i: int)
    requires
        0 <= i <= a.len(),
        i <= b.len(),
        forall|j: int| 0 <= j < i ==> a[j] == b[j],
    ensures
        crate::names::common_prefix_len(a, b) >= i,
{
    crate::names::lemma_common_prefix(a, b);
    let k = crate::names::common_prefix_len(a, b) as int;
    if k < i {
        assert(a[k] == b[k]);
    }
}

/// A deletion at `i` is found by the prefix comparison.
proof fn lemma_delete_found(a: Seq<char>, b: Seq<char>, i: int)
    requires
        0 <= i < a.len(),
        a.remove(i) == b,
    ensures
        crate::registry::one_edit_apart(a, b),
{
    a.remove_ensures(i);
    assert forall|j: int| 0 <= j < i implies a[j] == b[j] by {
        assert(a.remove(i)[j] == a[j]);
    }
    lemma_prefix_at_least(a, b, i);
    crate::names::lemma_common_prefix(a, b);
    let k = crate::names::common_prefix_len(a, b) as int;
    let ra = a.subrange(k, a.len() as int);
    let rb = b.subrange(k, b.len() as int);
    if rb.len() > 0 {
        assert forall|m: int| 0 <= m < rb.len() implies ra.subrange(1, ra.len() as int)[m] == rb[m] by {
            assert(a.remove(i)[k + m] == a[k + m + 1]);
        }
        assert(ra.subrange(1, ra.len() as int) =~= rb);
    }
}

/// The prefix comparison finds exactly the texts one edit apart.
pub proof fn lemma_one_edit_apart_is_single_edit(a: Seq<char>, b: Seq<char>)
    ensures
        crate::registry::one_edit_apart(a, b) == single_edit(a, b),
{
    crate::names::lemma_common_prefix(a, b);
    let k = crate::names::common_prefix_len(a, b) as int;
    let ra = a.subrange(k, a.len() as int);
    let rb = b.subrange(k, b.len() as int);
    if crate::registry::one_edit_apart(a, b) {
        if ra.len() == 0 || rb.len() == 0 {
            if ra.len() == 0 && rb.len() == 0 {
                assert(a =~= b);
            } else if ra.len() == 0 {
                assert(b.remove(k) =~= a);
            } else {
                assert(a.remove(k) =~= b);
            }
        } else if ra.subrange(1, ra.len() as int) == rb.subrange(1, rb.len() as int) {
            assert(ra.subrange(1, ra.len() as int).len() == rb.subrange(1, rb.len() as int).len());
            assert(a.len() == b.len());
            assert forall|j: int| 0 <= j < a.len() implies #[trigger] a.update(k, b[k])[j] == b[j] by {
                if j > k {
                    assert(ra.subrange(1, ra.len() as int)[j - k - 1] == rb.subrange(1, rb.len() as int)[j - k - 1]);
                    assert(ra.subrange(1, ra.len() as int)[j - k - 1] == a[j]);
                    assert(rb.subrange(1, rb.len() as int)[j - k - 1] == b[j]);
                } else if j < k {
                    assert(a[j] == b[j]);
                }
            }
            assert(a.update(k, b[k]) =~= b);
        } else if ra.len() == rb.len() && ra.len() >= 2 && ra[0] == rb[1] && ra[1] == rb[0]
            && ra.subrange(2, ra.len() as int) == rb.subrange(2, rb.len() as int) {
            assert forall|j: int| 0 <= j < a.len() implies #[trigger] a.update(k, b[k]).update(k + 1, b[k + 1])[j] == b[j] by {
                if j > k + 1 {
                    assert(ra.subrange(2, ra.len() as int)[j - k - 2] == rb.subrange(2, rb.len() as int)[j - k - 2]);
                }
            }
            assert(a.update(k, b[k]).update(k + 1, b[k + 1]) =~= b);
        } else if ra.subrange(1, ra.len() as int) == rb {
            assert forall|j: int| 0 <= j < b.len() implies a.remove(k)[j] == b[j] by {
                if j >= k {
                    assert(ra.subrange(1, ra.len() as int)[j - k] == rb[j - k]);
                }
            }
            assert(a.remove(k) =~= b);
        } else {
            assert(ra == rb.subrange(1, rb.len() as int));
            assert forall|j: int| 0 <= j < a.len() implies b.remove(k)[j] == a[j] by {
                if j >= k {
                    assert(ra[j - k] == rb.subrange(1, rb.len() as int)[j - k]);
                }
            }
            assert(b.remove(k) =~= a);
        }
    } else {
        if a == b {
            lemma_one_edit_reflexive(a);
        }
        if exists|i: int| 0 <= i < a.len() && #[trigger] a.remove(i) == b {
            let i = choose|i: int| 0 <= i < a.len() && #[trigger] a.remove(i) == b;
            lemma_delete_found(a, b, i);
        }
        if exists|i: int| 0 <= i < b.len() && #[trigger] b.remove(i) == a {
            let i = choose|i: int| 0 <= i < b.len() && #[trigger] b.remove(i) == a;
            lemma_delete_found(b, a, i);
            lemma_one_edit_symmetric(a, b);
        }
        if exists|i: int| 0 <= i < a.len() && a.len() == b.len() && #[trigger] a.update(i, b[i]) == b {
            let i = choose|i: int| 0 <= i < a.len() && a.len() == b.len() && #[trigger] a.update(i, b[i]) == b;
            assert forall|j: int| 0 <= j < a.len() && j != i implies a[j] == b[j] by {
                assert(a.update(i, b[i])[j] == b[j]);
            }
            if a[i] == b[i] {
                assert(a =~= b);
                lemma_one_edit_reflexive(a);
            } else {
                crate::names::lemma_common_prefix_is(a, b, i);
                assert(ra.subrange(1, ra.len() as int) =~= rb.subrange(1, rb.len() as int));
            }
        }
        if exists|i: int|
            0 <= i && i + 1 < a.len() && a.len() == b.len() && a[i] == b[i + 1] && a[i + 1] == b[i]
                && #[trigger] a.update(i, b[i]).update(i + 1, b[i + 1]) == b {
            let i = choose|i: int|
                0 <= i && i + 1 < a.len() && a.len() == b.len() && a[i] == b[i + 1] && a[i + 1] == b[i]
                    && #[trigger] a.update(i, b[i]).update(i + 1, b[i + 1]) == b;
            assert forall|j: int| 0 <= j < a.len() && j != i && j != i + 1 implies a[j] == b[j] by {
                assert(a.update(i, b[i]).update(i + 1, b[i + 1])[j] == b[j]);
            }
            if a[i] == b[i] {
                assert(a =~= b);
                lemma_one_edit_reflexive(a);
            } else {
                crate::names::lemma_common_prefix_is(a, b, i);
                assert(ra.subrange(2, ra.len() as int) =~= rb.subrange(2, rb.len() as int));
            }
        }
    }
}

/// What a search returns is exactly the listed components that match, each
/// once per listing.
proof fn lemma_search_members(comps: Seq<(Seq<char>, SpecComponent)>, needle: Seq<char>)
    ensures
        forall|c: SpecComponent| #[trigger] crate::registry::search_results(comps, needle).contains(c) <==> exists|k: int|
            0 <= k < comps.len() && comps[k].1 == c && crate::registry::matches_query(comps[k].1, needle),
    decreases comps.len(),
{
    if comps.len() > 0 {
        let init = comps.drop_last();
        lemma_search_members(init, needle);
        let rest = crate::registry::search_results(init, needle);
        let last = comps.last();
        assert forall|c: SpecComponent| #[trigger] crate::registry::search_results(comps, needle).contains(c) <==> exists|k: int|
            0 <= k < comps.len() && comps[k].1 == c && crate::registry::matches_query(comps[k].1, needle) by {
            let res = crate::registry::search_results(comps, needle);
            if res.contains(c) {
                if crate::registry::matches_query(last.1, needle) && c == last.1 {
                    assert(comps[comps.len() - 1] == last);
                } else {
                    if crate::registry::matches_query(last.1, needle) {
                        let j = choose|j: int| 0 <= j < res.len() && res[j] == c;
                        assert(res == rest.push(last.1));
                        assert(j < rest.len());
                        assert(rest[j] == c);
                        assert(rest.contains(c));
                    }
                    assert(rest.contains(c));
                    let k = choose|k: int| 0 <= k < init.len() && init[k].1 == c && crate::registry::matches_query(init[k].1, needle);
                    assert(comps[k] == init[k]);
                }
            }
            if exists|k: int| 0 <= k < comps.len() && comps[k].1 == c && crate::registry::matches_query(comps[k].1, needle) {
                let k = choose|k: int| 0 <= k < comps.len() && comps[k].1 == c && crate::registry::matches_query(comps[k].1, needle);
                if k == comps.len() - 1 {
                    assert(res == rest.push(last.1));
                    assert(res[rest.len() as int] == c);
                } else {
                    assert(init[k] == comps[k]);
                    assert(rest.contains(c));
                    let j = choose|j: int| 0 <= j < rest.len() && rest[j] == c;
                    if crate::registry::matches_query(last.1, needle) {
                        assert(res == rest.push(last.1));
                        assert(res[j] == c);
                    }
                }
            }
        }
    }
}

/// Search looks at every field it promises, ignoring case: a listed component
/// is found when its id, its title, its description or one of its tags,
/// lowercased, contains the lowercased query; and nothing else is found.
pub proof fn lemma_search_fields(comps: Seq<(Seq<char>, SpecComponent)>, query: Seq<char>)
    ensures
        ({
            let needle = crate::text::lowercase(query);
            let found = crate::registry::search_results(comps, needle);
            &&& forall|k: int| 0 <= k < comps.len() && contains_seq(crate::text::lowercase((#[trigger] comps[k]).1.name), needle)
                ==> found.contains(comps[k].1)
            &&& forall|k: int| 0 <= k < comps.len() && contains_seq(crate::text::lowercase((#[trigger] comps[k]).1.title), needle)
                ==> found.contains(comps[k].1)
            &&& forall|k: int| 0 <= k < comps.len() && contains_seq(crate::text::lowercase((#[trigger] comps[k]).1.description), needle)
                ==> found.contains(comps[k].1)
            &&& forall|k: int, t: int| 0 <= k < comps.len() && 0 <= t < comps[k].1.tags.len()
                && contains_seq(crate::text::lowercase(#[trigger] comps[k].1.tags[t]), needle) ==> found.contains(comps[k].1)
            &&& forall|c: SpecComponent| #[trigger] found.contains(c) ==> exists|k: int| 0 <= k < comps.len() && comps[k].1 == c && {
                ||| contains_seq(crate::text::lowercase(c.name), needle)
                ||| contains_seq(crate::text::lowercase(c.title), needle)
                ||| contains_seq(crate::text::lowercase(c.description), needle)
                ||| exists|t: int| 0 <= t < c.tags.len() && contains_seq(crate::text::lowercase(#[trigger] c.tags[t]), needle)
            }
        }),
{
    let needle = crate::text::lowercase(query);
    lemma_search_members(comps, needle);
    let found = crate::registry::search_results(comps, needle);
    assert forall|k: int, t: int| 0 <= k < comps.len() && 0 <= t < comps[k].1.tags.len()
        && contains_seq(crate::text::lowercase(#[trigger] comps[k].1.tags[t]), needle) implies found.contains(comps[k].1) by {
        assert(crate::registry::matches_query(comps[k].1, needle));
    }
}

} // verus!
