//! Per-cluster value resolution and the cartesian enumerator: every
//! independent variable the template uses contributes one axis, and one
//! binding is produced per element of the cross product.

use vstd::prelude::*;
use crate::refs::strs_views;
use crate::vars::{Scalar, BasicVar, CompleteVar, Variable, scalar_str, scalar_to_string,
    scalars_strs, basic_var_values, cluster_map_get};
use crate::graph::{DependencyGraph, dg_deps, template_refs, used_reach, used_reach_any,
    get_all_variable_dependencies, str_in, clone_strings};
use crate::subst::pairs_views;

verus! {

/// The value list one declared variable resolves to under a cluster:
/// a scalar gives one value, a list gives its elements, a plain map
/// gives none (it is only addressed by key), and a per-cluster map
/// gives whatever its lookup yields for the cluster.
pub open spec fn resolve_var(cv: CompleteVar, cluster: Seq<char>) -> Seq<Seq<char>> {
    match cv {
        CompleteVar::Scalar(s) => seq![scalar_str(s)],
        CompleteVar::List(l) => scalars_strs(l@),
        CompleteVar::StandardMap(_) => Seq::empty(),
        CompleteVar::ClusterMap(cm) => match cluster_map_get(cm, cluster) {
            Some(b) => basic_var_values(b),
            None => Seq::empty(),
        },
    }
}

/// The views of resolved entries.
pub open spec fn entry_views(v: Seq<(String, Vec<String>)>) -> Seq<(Seq<char>, Seq<Seq<char>>)> {
    v.map_values(|p: (String, Vec<String>)| (p.0@, strs_views(p.1@)))
}

/// Renders a list of scalars as strings.
pub fn scalars_to_strings(l: &Vec<Scalar>) -> (r: Vec<String>)
    ensures
        strs_views(r@) == scalars_strs(l@),
{
    let n: usize = l.len();
    let mut r: Vec<String> = Vec::new();
    let mut i: usize = 0;
    while i < n
        invariant
            n == l@.len(),
            i <= n,
            strs_views(r@) == scalars_strs(l@).subrange(0, i as int),
        decreases n - i,
    {
        let s = match scalar_to_string(&l[i]) {
            Some(s) => s,
            None => {
                proof {
                    assert(false);
                }
                String::new()
            },
        };
        let ghost pre = r@;
        r.push(s);
        i += 1;
        proof {
            assert(strs_views(r@) =~= strs_views(pre).push(scalar_str(l@[i - 1])));
            assert(scalars_strs(l@)[i - 1] == scalar_str(l@[i - 1]));
            assert(strs_views(r@) =~= scalars_strs(l@).subrange(0, i as int));
        }
    }
    proof {
        assert(scalars_strs(l@).subrange(0, n as int) =~= scalars_strs(l@));
    }
    r
}

/// Renders one basic variable's value list.
pub fn basic_var_to_strings(b: &BasicVar) -> (r: Vec<String>)
    ensures
        strs_views(r@) == basic_var_values(*b),
{
    match b {
        BasicVar::Scalar(s) => {
            let mut r: Vec<String> = Vec::new();
            let t = match scalar_to_string(s) {
                Some(t) => t,
                None => {
                    proof {
                        assert(false);
                    }
                    String::new()
                },
            };
            r.push(t);
            proof {
                assert(strs_views(r@) =~= seq![scalar_str(*s)]);
            }
            r
        },
        BasicVar::List(l) => scalars_to_strings(l),
    }
}

/// Resolution layer: turns each declared variable into its value list
/// for one cluster, keeping declaration order.
pub struct VariableResolver;

impl VariableResolver {
    /// Resolves every variable for the named cluster.
    pub fn resolve_for_cluster(cluster_name: &String, vars: &Vec<Variable>) -> (r: Vec<
        (String, Vec<String>),
    >)
        ensures
            r@.len() == vars@.len(),
            forall|i: int|
                0 <= i < vars@.len() ==> (#[trigger] entry_views(r@)[i]).0 == vars@[i].name@
                    && entry_views(r@)[i].1 == resolve_var(vars@[i].contents, cluster_name@),
    {
        let n: usize = vars.len();
        let mut r: Vec<(String, Vec<String>)> = Vec::new();
        let mut i: usize = 0;
        while i < n
            invariant
                n == vars@.len(),
                i <= n,
                r@.len() == i,
                forall|k: int|
                    0 <= k < i ==> (#[trigger] entry_views(r@)[k]).0 == vars@[k].name@
                        && entry_views(r@)[k].1 == resolve_var(vars@[k].contents, cluster_name@),
            decreases n - i,
        {
            let values: Vec<String> = match &vars[i].contents {
                CompleteVar::Scalar(s) => {
                    let mut v: Vec<String> = Vec::new();
                    let t = match scalar_to_string(s) {
                        Some(t) => t,
                        None => {
                            proof {
                                assert(false);
                            }
                            String::new()
                        },
                    };
                    v.push(t);
                    proof {
                        assert(strs_views(v@) =~= seq![scalar_str(*s)]);
                    }
                    v
                },
                CompleteVar::List(l) => scalars_to_strings(l),
                CompleteVar::StandardMap(_) => {
                    let v: Vec<String> = Vec::new();
                    proof {
                        assert(strs_views(v@) =~= Seq::<Seq<char>>::empty());
                    }
                    v
                },
                CompleteVar::ClusterMap(cm) => {
                    match cm.get(cluster_name) {
                        Some(b) => basic_var_to_strings(b),
                        None => {
                            let v: Vec<String> = Vec::new();
                            proof {
                                assert(strs_views(v@) =~= Seq::<Seq<char>>::empty());
                            }
                            v
                        },
                    }
                },
            };
            proof {
                assert(strs_views(values@) == resolve_var(vars@[i as int].contents, cluster_name@));
            }
            let ghost pre = r@;
            r.push((vars[i].name.clone(), values));
            i += 1;
            proof {
                assert forall|k: int| 0 <= k < i implies (#[trigger] entry_views(r@)[k]).0
                    == vars@[k].name@ && entry_views(r@)[k].1 == resolve_var(
                    vars@[k].contents,
                    cluster_name@,
                ) by {
                    if k < i - 1 {
                        assert(r@[k] == pre[k]);
                        assert(entry_views(pre)[k] == entry_views(r@)[k]);
                    } else {
                        assert(r@[k] == (r@[k].0, r@[k].1));
                    }
                }
            }
        }
        r
    }
}

/// The size of the cross product of the value lists.
pub open spec fn prod_count(entries: Seq<(Seq<char>, Seq<Seq<char>>)>) -> nat
    decreases entries.len(),
{
    if entries.len() == 0 {
        1
    } else {
        entries[0].1.len() * prod_count(entries.skip(1))
    }
}

/// One axis of the product: each value of the first variable is
/// prepended, in list order, to every binding of the remaining axes.
pub open spec fn cart_head(
    name: Seq<char>,
    vals: Seq<Seq<char>>,
    rest: Seq<Seq<(Seq<char>, Seq<char>)>>,
) -> Seq<Seq<(Seq<char>, Seq<char>)>>
    decreases vals.len(),
{
    if vals.len() == 0 {
        Seq::empty()
    } else {
        rest.map_values(|b: Seq<(Seq<char>, Seq<char>)>| seq![(name, vals[0])] + b) + cart_head(
            name,
            vals.skip(1),
            rest,
        )
    }
}

/// The full cross product: one binding per combination, the first
/// variable varying slowest.
pub open spec fn cart(entries: Seq<(Seq<char>, Seq<Seq<char>>)>) -> Seq<
    Seq<(Seq<char>, Seq<char>)>,
>
    decreases entries.len(),
{
    if entries.len() == 0 {
        seq![Seq::empty()]
    } else {
        cart_head(entries[0].0, entries[0].1, cart(entries.skip(1)))
    }
}

/// The cross product has exactly one binding per combination.
pub proof fn lemma_cart_head_count(
    name: Seq<char>,
    vals: Seq<Seq<char>>,
    rest: Seq<Seq<(Seq<char>, Seq<char>)>>,
)
    ensures
        cart_head(name, vals, rest).len() == vals.len() * rest.len(),
    decreases vals.len(),
{
    if vals.len() == 0 {
    } else {
        lemma_cart_head_count(name, vals.skip(1), rest);
        assert(vals.len() * rest.len() == rest.len() + (vals.len() - 1) * rest.len())
            by (nonlinear_arith);
    }
}

/// The number of bindings equals the product of the list lengths.
pub proof fn lemma_cart_count(entries: Seq<(Seq<char>, Seq<Seq<char>>)>)
    ensures
        cart(entries).len() == prod_count(entries),
    decreases entries.len(),
{
    if entries.len() == 0 {
    } else {
        lemma_cart_count(entries.skip(1));
        lemma_cart_head_count(entries[0].0, entries[0].1, cart(entries.skip(1)));
    }
}

/// The views of a list of bindings.
pub open spec fn bindings_views(v: Seq<Vec<(String, String)>>) -> Seq<
    Seq<(Seq<char>, Seq<char>)>,
> {
    v.map_values(|b: Vec<(String, String)>| pairs_views(b@))
}

/// Copies one binding.
pub fn clone_pairs(v: &Vec<(String, String)>) -> (r: Vec<(String, String)>)
    ensures
        r@ == v@,
{
    let n: usize = v.len();
    let mut r: Vec<(String, String)> = Vec::new();
    let mut i: usize = 0;
    while i < n
        invariant
            n == v@.len(),
            i <= n,
            r@ == v@.subrange(0, i as int),
        decreases n - i,
    {
        r.push((v[i].0.clone(), v[i].1.clone()));
        i += 1;
        proof {
            assert(v@[i - 1] == (v@[i - 1].0, v@[i - 1].1));
            assert(r@ =~= v@.subrange(0, i as int));
        }
    }
    proof {
        assert(v@.subrange(0, n as int) =~= v@);
    }
    r
}

/// Builds the cross product of the entries from `index` on.
fn cart_from(entries: &Vec<(String, Vec<String>)>, index: usize) -> (r: Vec<
    Vec<(String, String)>,
>)
    requires
        index <= entries@.len(),
    ensures
        bindings_views(r@) == cart(entry_views(entries@).skip(index as int)),
    decreases entries@.len() - index,
{
    let n: usize = entries.len();
    if index == n {
        let mut out: Vec<Vec<(String, String)>> = Vec::new();
        out.push(Vec::new());
        proof {
            assert(entry_views(entries@).skip(n as int) =~= Seq::<
                (Seq<char>, Seq<Seq<char>>),
            >::empty());
            assert(pairs_views(Seq::<(String, String)>::empty()) =~= Seq::<
                (Seq<char>, Seq<char>),
            >::empty());
            assert(bindings_views(out@) =~= seq![Seq::<(Seq<char>, Seq<char>)>::empty()]);
        }
        return out;
    }
    let rest = cart_from(entries, index + 1);
    let ghost eview = entry_views(entries@).skip(index as int);
    proof {
        assert(eview[0] == entry_views(entries@)[index as int]);
        assert(eview.skip(1) =~= entry_views(entries@).skip(index + 1));
        assert(cart(eview) == cart_head(eview[0].0, eview[0].1, bindings_views(rest@)));
    }
    let mut out: Vec<Vec<(String, String)>> = Vec::new();
    let vn: usize = entries[index].1.len();
    let mut vi: usize = 0;
    proof {
        assert(bindings_views(out@) =~= Seq::<Seq<(Seq<char>, Seq<char>)>>::empty());
        assert(eview[0].1.skip(0) =~= eview[0].1);
    }
    while vi < vn
        invariant
            index < entries@.len(),
            vn == entries@[index as int].1@.len(),
            vi <= vn,
            eview == entry_views(entries@).skip(index as int),
            eview[0].1 == strs_views(entries@[index as int].1@),
            eview[0].0 == entries@[index as int].0@,
            cart(eview) == bindings_views(out@) + cart_head(
                eview[0].0,
                eview[0].1.skip(vi as int),
                bindings_views(rest@),
            ),
        decreases vn - vi,
    {
        let ghost tailvals = eview[0].1.skip(vi as int);
        proof {
            assert(tailvals[0] == eview[0].1[vi as int]);
            assert(tailvals.skip(1) =~= eview[0].1.skip(vi + 1));
            assert(cart_head(eview[0].0, tailvals, bindings_views(rest@)) == bindings_views(
                rest@,
            ).map_values(|b: Seq<(Seq<char>, Seq<char>)>| seq![(eview[0].0, tailvals[0])] + b)
                + cart_head(eview[0].0, tailvals.skip(1), bindings_views(rest@)));
        }
        let rn: usize = rest.len();
        let mut ri: usize = 0;
        let ghost out_before = out@;
        while ri < rn
            invariant
                index < entries@.len(),
                vi < vn,
                vn == entries@[index as int].1@.len(),
                rn == rest@.len(),
                ri <= rn,
                eview == entry_views(entries@).skip(index as int),
                eview[0].1 == strs_views(entries@[index as int].1@),
                eview[0].0 == entries@[index as int].0@,
                out@.len() == out_before.len() + ri,
                bindings_views(out@) == bindings_views(out_before) + bindings_views(
                    rest@,
                ).map_values(
                    |b: Seq<(Seq<char>, Seq<char>)>|
                        seq![(eview[0].0, eview[0].1[vi as int])] + b,
                ).subrange(0, ri as int),
            decreases rn - ri,
        {
            let mut binding: Vec<(String, String)> = Vec::new();
            binding.push((entries[index].0.clone(), entries[index].1[vi].clone()));
            let b2 = clone_pairs(&rest[ri]);
            let ghost bpre = binding@;
            crate::cart::append_pairs(&mut binding, &b2);
            proof {
                assert(pairs_views(binding@) =~= pairs_views(bpre) + pairs_views(rest@[ri as int]@));
                assert(pairs_views(bpre) =~= seq![(eview[0].0, eview[0].1[vi as int])]);
                assert(strs_views(entries@[index as int].1@)[vi as int] == entries@[
                    index as int
                ].1@[vi as int]@);
            }
            let ghost opre = out@;
            out.push(binding);
            ri += 1;
            proof {
                let f = |b: Seq<(Seq<char>, Seq<char>)>|
                    seq![(eview[0].0, eview[0].1[vi as int])] + b;
                assert(bindings_views(out@) =~= bindings_views(opre).push(
                    pairs_views(out@[opre.len() as int]@),
                ));
                assert(pairs_views(out@[opre.len() as int]@) == f(
                    pairs_views(rest@[ri - 1]@),
                ));
                assert(bindings_views(rest@).map_values(f)[ri - 1] == f(
                    pairs_views(rest@[ri - 1]@),
                ));
                assert(bindings_views(out@) =~= bindings_views(out_before) + bindings_views(
                    rest@,
                ).map_values(f).subrange(0, ri as int));
            }
        }
        vi += 1;
        proof {
            let f = |b: Seq<(Seq<char>, Seq<char>)>|
                seq![(eview[0].0, eview[0].1[vi - 1])] + b;
            assert(bindings_views(rest@).map_values(f).subrange(0, rn as int) =~= bindings_views(
                rest@,
            ).map_values(f));
            assert(bindings_views(rest@).map_values(f) =~= bindings_views(rest@).map_values(
                |b: Seq<(Seq<char>, Seq<char>)>| seq![(eview[0].0, tailvals[0])] + b,
            ));
            assert(cart(eview) =~= bindings_views(out@) + cart_head(
                eview[0].0,
                eview[0].1.skip(vi as int),
                bindings_views(rest@),
            ));
        }
    }
    proof {
        assert(eview[0].1.skip(vn as int) =~= Seq::<Seq<char>>::empty());
        assert(cart(eview) =~= bindings_views(out@));
    }
    out
}

/// Appends copies of all pairs of `src` to `dst`.
pub fn append_pairs(dst: &mut Vec<(String, String)>, src: &Vec<(String, String)>)
    ensures
        final(dst)@ == old(dst)@ + src@,
{
    let ghost orig = dst@;
    let n: usize = src.len();
    let mut i: usize = 0;
    while i < n
        invariant
            n == src@.len(),
            i <= n,
            dst@ == orig + src@.subrange(0, i as int),
        decreases n - i,
    {
        dst.push((src[i].0.clone(), src[i].1.clone()));
        i += 1;
        proof {
            assert(src@[i - 1] == (src@[i - 1].0, src@[i - 1].1));
            assert(dst@ =~= orig + src@.subrange(0, i as int));
        }
    }
    proof {
        assert(orig + src@.subrange(0, n as int) =~= orig + src@);
    }
}

/// Whether one resolved variable takes part in the product: it must be
/// used by the template (directly or transitively), independent (no
/// recorded dependencies), and resolve to at least one value.
pub open spec fn keep_entry(
    e: (Seq<char>, Seq<Seq<char>>),
    troots: Seq<Seq<char>>,
    gents: Seq<(String, Vec<String>)>,
) -> bool {
    used_reach_any(troots, gents, e.0) && dg_deps(gents, e.0).len() == 0 && e.1.len() > 0
}

/// The participating entries, in declaration order.
pub open spec fn participating(
    entries: Seq<(Seq<char>, Seq<Seq<char>>)>,
    troots: Seq<Seq<char>>,
    gents: Seq<(String, Vec<String>)>,
) -> Seq<(Seq<char>, Seq<Seq<char>>)>
    decreases entries.len(),
{
    if entries.len() == 0 {
        Seq::empty()
    } else if keep_entry(entries[0], troots, gents) {
        seq![entries[0]] + participating(entries.skip(1), troots, gents)
    } else {
        participating(entries.skip(1), troots, gents)
    }
}

/// A set of names that holds the roots and is closed under the
/// dependency edges holds every used name.
pub proof fn lemma_used_complete(
    vec: Seq<Seq<char>>,
    troots: Seq<Seq<char>>,
    gents: Seq<(String, Vec<String>)>,
    nm: Seq<char>,
    f: nat,
)
    requires
        forall|x: Seq<char>| troots.contains(x) ==> vec.contains(x),
        forall|s: Seq<char>, d: Seq<char>|
            #![trigger vec.contains(s), dg_deps(gents, s).contains(d)]
            vec.contains(s) && dg_deps(gents, s).contains(d) ==> vec.contains(d),
        used_reach(troots, gents, nm, f),
    ensures
        vec.contains(nm),
    decreases f,
{
    if troots.contains(nm) {
    } else {
        let k = choose|k: Seq<char>|
            #![trigger dg_deps(gents, k).contains(nm)]
            used_reach(troots, gents, k, (f - 1) as nat) && dg_deps(gents, k).contains(nm);
        lemma_used_complete(vec, troots, gents, k, (f - 1) as nat);
    }
}

/// The cartesian enumerator.
pub struct CartesianGenerator;

impl CartesianGenerator {
    /// One binding per combination of the used, independent, non-empty
    /// variables' values; exactly one empty binding when there are none.
    pub fn generate(
        resolved_vars: &Vec<(String, Vec<String>)>,
        dep_graph: &DependencyGraph,
        command: &String,
        preprocess: &Option<String>,
        postprocess: &Option<String>,
    ) -> (r: Vec<Vec<(String, String)>>)
        ensures
            bindings_views(r@) == cart(
                participating(
                    entry_views(resolved_vars@),
                    template_refs(command@, *preprocess, *postprocess),
                    dep_graph.entries@,
                ),
            ),
    {
        let ghost troots = template_refs(command@, *preprocess, *postprocess);
        let ghost gents = dep_graph.entries@;
        let used = get_all_variable_dependencies(dep_graph, command, preprocess, postprocess);
        let mut indep: Vec<(String, Vec<String>)> = Vec::new();
        let n: usize = resolved_vars.len();
        let mut i: usize = 0;
        proof {
            assert(entry_views(resolved_vars@).skip(0) =~= entry_views(resolved_vars@));
            assert(entry_views(indep@) =~= Seq::<(Seq<char>, Seq<Seq<char>>)>::empty());
            assert(entry_views(indep@) + participating(entry_views(resolved_vars@), troots, gents)
                =~= participating(entry_views(resolved_vars@), troots, gents));
        }
        while i < n
            invariant
                gents == dep_graph.entries@,
                n == resolved_vars@.len(),
                i <= n,
                strs_views(used@).no_duplicates(),
                forall|nm: Seq<char>| troots.contains(nm) ==> strs_views(used@).contains(nm),
                forall|s: Seq<char>, d: Seq<char>|
                    #![trigger strs_views(used@).contains(s), dg_deps(gents, s).contains(d)]
                    strs_views(used@).contains(s) && dg_deps(gents, s).contains(d) ==> strs_views(
                        used@,
                    ).contains(d),
                forall|s: Seq<char>|
                    strs_views(used@).contains(s) ==> used_reach_any(troots, gents, s),
                participating(entry_views(resolved_vars@), troots, gents) == entry_views(indep@)
                    + participating(entry_views(resolved_vars@).skip(i as int), troots, gents),
            decreases n - i,
        {
            let ghost rem = entry_views(resolved_vars@).skip(i as int);
            proof {
                assert(rem[0] == entry_views(resolved_vars@)[i as int]);
                assert(rem.skip(1) =~= entry_views(resolved_vars@).skip(i + 1));
            }
            let uses = str_in(&used, &resolved_vars[i].0);
            let dependent = dep_graph.has_dependencies(&resolved_vars[i].0);
            let non_empty = resolved_vars[i].1.len() > 0;
            proof {
                if uses {
                    assert(used_reach_any(troots, gents, rem[0].0));
                } else {
                    if used_reach_any(troots, gents, rem[0].0) {
                        let f = choose|f: nat| used_reach(troots, gents, rem[0].0, f);
                        lemma_used_complete(strs_views(used@), troots, gents, rem[0].0, f);
                    }
                }
                assert(rem[0].1.len() == resolved_vars@[i as int].1@.len());
                assert(uses && !dependent && non_empty <==> keep_entry(rem[0], troots, gents));
            }
            if uses && !dependent && non_empty {
                let ghost pre = indep@;
                indep.push((resolved_vars[i].0.clone(), clone_strings(&resolved_vars[i].1)));
                proof {
                    assert(entry_views(indep@) =~= entry_views(pre).push(rem[0]));
                    assert(entry_views(indep@) =~= entry_views(pre) + seq![rem[0]]);
                    assert((entry_views(pre) + seq![rem[0]]) + participating(rem.skip(1), troots, gents)
                        =~= entry_views(pre) + (seq![rem[0]] + participating(
                        rem.skip(1),
                        troots,
                        gents,
                    )));
                }
            }
            i += 1;
        }
        proof {
            assert(entry_views(resolved_vars@).skip(n as int) =~= Seq::<
                (Seq<char>, Seq<Seq<char>>),
            >::empty());
            assert(entry_views(indep@) + Seq::<(Seq<char>, Seq<Seq<char>>)>::empty()
                =~= entry_views(indep@));
            assert(entry_views(indep@).skip(0) =~= entry_views(indep@));
        }
        cart_from(&indep, 0)
    }
}

} // verus!
