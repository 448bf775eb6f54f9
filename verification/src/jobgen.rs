//! Turning one job template plus its variable set into concrete jobs:
//! the dependency graph is built, variables are resolved for the
//! cluster, the cartesian product of the used independent variables is
//! enumerated, and each binding yields one job with fully substituted
//! strings and the binding itself recorded for audit.

use vstd::prelude::*;
use crate::vars::Variable;
use crate::graph::{DependencyGraph, dg_contains, dg_deps, dg_keys, template_refs, var_refs_of,
    reach_any};
use crate::cart::{VariableResolver, CartesianGenerator, entry_views, resolve_var, participating,
    keep_entry, cart, bindings_views, prod_count, lemma_cart_count, clone_pairs};
use crate::subst::{substitute_and_evaluate, substituted, pairs_views, subst_simple, iter_subst,
    map_pass, map_iter, augment_from, resolve_iter, resolve_pass_from};
use crate::chars::{occurs, occurs_at};
use crate::script::ClusterConfig;
use crate::status::Status;
use crate::jobs::Job;

verus! {

/// The resolved value lists of a variable set under one cluster, in
/// declaration order.
pub open spec fn resolved_entries(vars: Seq<Variable>, cluster: Seq<char>) -> Seq<
    (Seq<char>, Seq<Seq<char>>),
> {
    vars.map_values(|v: Variable| (v.name@, resolve_var(v.contents, cluster)))
}

/// What `DependencyGraph::build` guarantees of the graph it returns.
pub open spec fn graph_props(
    command: Seq<char>,
    preprocess: Option<String>,
    postprocess: Option<String>,
    vars: Seq<Variable>,
    gents: Seq<(String, Vec<String>)>,
) -> bool {
    &&& dg_keys(gents).no_duplicates()
    &&& forall|nm: Seq<char>|
        template_refs(command, preprocess, postprocess).contains(nm) ==> dg_contains(gents, nm)
    &&& forall|nm: Seq<char>, d: Seq<char>|
        #![trigger dg_deps(gents, nm).contains(d)]
        #![trigger var_refs_of(vars, nm).contains(d)]
        dg_contains(gents, nm) ==> (dg_deps(gents, nm).contains(d) <==> var_refs_of(
            vars,
            nm,
        ).contains(d))
    &&& forall|nm: Seq<char>, d: Seq<char>|
        dg_contains(gents, nm) && #[trigger] var_refs_of(vars, nm).contains(d) ==> dg_contains(
            gents,
            d,
        )
    &&& forall|nm: Seq<char>|
        dg_contains(gents, nm) ==> reach_any(
            template_refs(command, preprocess, postprocess),
            vars,
            nm,
        )
}

/// The generated jobs' relation to the template, for one graph: the
/// bindings are exactly the cartesian product of the used, independent,
/// non-empty variables, and each job carries its binding, the Created
/// status, and an evaluated form of each substituted string: a splice
/// of it over the expression spans, and the text itself whenever it
/// holds no expression to evaluate.
pub open spec fn jobs_match(
    jobs: Seq<Job>,
    command: Seq<char>,
    preprocess: Option<String>,
    postprocess: Option<String>,
    vars: Seq<Variable>,
    cluster: Seq<char>,
    config_id: i64,
    gents: Seq<(String, Vec<String>)>,
) -> bool {
    let troots = template_refs(command, preprocess, postprocess);
    let bindings = cart(participating(resolved_entries(vars, cluster), troots, gents));
    &&& jobs.len() == bindings.len()
    &&& forall|k: int|
        0 <= k < jobs.len() ==> pairs_views((#[trigger] jobs[k]).variables@) == bindings[k]
    &&& forall|k: int| 0 <= k < jobs.len() ==> (#[trigger] jobs[k]).status == Status::Created
    &&& forall|k: int| 0 <= k < jobs.len() ==> (#[trigger] jobs[k]).config_id == config_id
    &&& forall|k: int|
        0 <= k < jobs.len() ==> crate::pyexpr::evaluated(
            substituted(command, bindings[k], vars, gents),
            (#[trigger] jobs[k]).command@,
        )
    &&& forall|k: int|
        0 <= k < jobs.len() ==> match preprocess {
            Some(p) => (#[trigger] jobs[k]).preprocess matches Some(jp)
                && crate::pyexpr::evaluated(substituted(p@, bindings[k], vars, gents), jp@),
            None => (#[trigger] jobs[k]).preprocess is None,
        }
    &&& forall|k: int|
        0 <= k < jobs.len() ==> match postprocess {
            Some(p) => (#[trigger] jobs[k]).postprocess matches Some(jp)
                && crate::pyexpr::evaluated(substituted(p@, bindings[k], vars, gents), jp@),
            None => (#[trigger] jobs[k]).postprocess is None,
        }
}

impl Job {
    /// Expands one template into concrete jobs for the given cluster:
    /// one job per element of the cartesian product of the used,
    /// independent, non-empty variables' value lists (exactly one job
    /// when there are none), each carrying its binding and the
    /// command, preprocess and postprocess strings substituted under
    /// that binding.
    pub fn generate_from(
        cluster_config: &ClusterConfig,
        variables: &Vec<Variable>,
        command: String,
        preprocess: Option<String>,
        postprocess: Option<String>,
        python_header: Option<String>,
    ) -> (r: Vec<Job>)
        ensures
            exists|gents: Seq<(String, Vec<String>)>|
                #![trigger jobs_match(
                    r@,
                    command@,
                    preprocess,
                    postprocess,
                    variables@,
                    cluster_config.cluster.cluster_name@,
                    cluster_config.config.id,
                    gents,
                )]
                graph_props(command@, preprocess, postprocess, variables@, gents) && jobs_match(
                    r@,
                    command@,
                    preprocess,
                    postprocess,
                    variables@,
                    cluster_config.cluster.cluster_name@,
                    cluster_config.config.id,
                    gents,
                ),
    {
        let dep_graph = DependencyGraph::build(&command, &preprocess, &postprocess, variables);
        let ghost gents = dep_graph.entries@;
        let resolved = VariableResolver::resolve_for_cluster(
            &cluster_config.cluster.cluster_name,
            variables,
        );
        proof {
            assert(entry_views(resolved@) =~= resolved_entries(
                variables@,
                cluster_config.cluster.cluster_name@,
            ));
        }
        let bindings = CartesianGenerator::generate(
            &resolved,
            &dep_graph,
            &command,
            &preprocess,
            &postprocess,
        );
        let ghost bviews = bindings_views(bindings@);
        let n: usize = bindings.len();
        let mut jobs: Vec<Job> = Vec::new();
        let mut k: usize = 0;
        while k < n
            invariant
                gents == dep_graph.entries@,
                n == bindings@.len(),
                k <= n,
                bviews == bindings_views(bindings@),
                bviews == cart(
                    participating(
                        resolved_entries(variables@, cluster_config.cluster.cluster_name@),
                        template_refs(command@, preprocess, postprocess),
                        gents,
                    ),
                ),
                jobs@.len() == k,
                forall|i: int|
                    0 <= i < k ==> pairs_views((#[trigger] jobs@[i]).variables@) == bviews[i],
                forall|i: int| 0 <= i < k ==> (#[trigger] jobs@[i]).status == Status::Created,
                forall|i: int|
                    0 <= i < k ==> (#[trigger] jobs@[i]).config_id == cluster_config.config.id,
                forall|i: int|
                    0 <= i < k ==> crate::pyexpr::evaluated(
                        substituted(command@, bviews[i], variables@, gents),
                        (#[trigger] jobs@[i]).command@,
                    ),
                forall|i: int|
                    0 <= i < k ==> match preprocess {
                        Some(p) => (#[trigger] jobs@[i]).preprocess matches Some(jp)
                            && crate::pyexpr::evaluated(
                            substituted(p@, bviews[i], variables@, gents),
                            jp@,
                        ),
                        None => (#[trigger] jobs@[i]).preprocess is None,
                    },
                forall|i: int|
                    0 <= i < k ==> match postprocess {
                        Some(p) => (#[trigger] jobs@[i]).postprocess matches Some(jp)
                            && crate::pyexpr::evaluated(
                            substituted(p@, bviews[i], variables@, gents),
                            jp@,
                        ),
                        None => (#[trigger] jobs@[i]).postprocess is None,
                    },
            decreases n - k,
        {
            let binding = &bindings[k];
            proof {
                assert(bindings_views(bindings@)[k as int] == pairs_views(
                    bindings@[k as int]@,
                ));
            }
            let cmd = substitute_and_evaluate(
                &command,
                binding,
                variables,
                &dep_graph,
                &python_header,
            );
            let pre: Option<String> = match &preprocess {
                Some(p) => Some(
                    substitute_and_evaluate(p, binding, variables, &dep_graph, &python_header),
                ),
                None => None,
            };
            let post: Option<String> = match &postprocess {
                Some(p) => Some(
                    substitute_and_evaluate(p, binding, variables, &dep_graph, &python_header),
                ),
                None => None,
            };
            let job = Job {
                id: 0,
                job_name: String::new(),
                config_id: cluster_config.config.id,
                submit_time: None,
                directory: String::new(),
                command: cmd,
                status: Status::Created,
                job_id: None,
                end_time: None,
                preprocess: pre,
                postprocess: post,
                archived: None,
                variables: clone_pairs(binding),
            };
            jobs.push(job);
            k += 1;
        }
        proof {
            assert(jobs_match(
                jobs@,
                command@,
                preprocess,
                postprocess,
                variables@,
                cluster_config.cluster.cluster_name@,
                cluster_config.config.id,
                gents,
            ));
        }
        jobs
    }
}

/// Every participating entry is used, independent and non-empty: a
/// dependent variable never multiplies the job count, its value is
/// filled in during substitution instead.
pub proof fn lemma_dependent_variables_excluded(
    entries: Seq<(Seq<char>, Seq<Seq<char>>)>,
    troots: Seq<Seq<char>>,
    gents: Seq<(String, Vec<String>)>,
    e: (Seq<char>, Seq<Seq<char>>),
)
    requires
        participating(entries, troots, gents).contains(e),
    ensures
        keep_entry(e, troots, gents),
        dg_deps(gents, e.0).len() == 0,
    decreases entries.len(),
{
    if entries.len() == 0 {
    } else {
        let rest = participating(entries.skip(1), troots, gents);
        if keep_entry(entries[0], troots, gents) {
            if e == entries[0] {
            } else {
                let all = seq![entries[0]] + rest;
                let i = choose|i: int| 0 <= i < all.len() && all[i] == e;
                assert(rest[i - 1] == e);
                lemma_dependent_variables_excluded(entries.skip(1), troots, gents, e);
            }
        } else {
            lemma_dependent_variables_excluded(entries.skip(1), troots, gents, e);
        }
    }
}

/// A template with no `${` in it and no declared variables yields
/// exactly one binding, the empty one, and simple, dependent and
/// map-lookup substitution all leave its text unchanged.
pub proof fn lemma_zero_variable_case(
    command: Seq<char>,
    preprocess: Option<String>,
    postprocess: Option<String>,
    vars: Seq<Variable>,
    cluster: Seq<char>,
    gents: Seq<(String, Vec<String>)>,
)
    requires
        vars.len() == 0,
        !occurs(command, seq!['$', '{']),
    ensures
        cart(
            participating(
                resolved_entries(vars, cluster),
                template_refs(command, preprocess, postprocess),
                gents,
            ),
        ) =~= seq![Seq::<(Seq<char>, Seq<char>)>::empty()],
        substituted(command, Seq::empty(), vars, gents) == command,
{
    let troots = template_refs(command, preprocess, postprocess);
    assert(resolved_entries(vars, cluster) =~= Seq::<(Seq<char>, Seq<Seq<char>>)>::empty());
    assert(participating(resolved_entries(vars, cluster), troots, gents) =~= Seq::<
        (Seq<char>, Seq<Seq<char>>),
    >::empty());
    // the empty binding stays empty through augmentation and resolution
    let b0 = Seq::<(Seq<char>, Seq<char>)>::empty();
    assert(augment_from(b0, vars, gents, 0) == b0);
    assert(resolve_pass_from(b0, gents, 0) == b0);
    assert(resolve_iter(b0, gents, crate::subst::MAX_SUBST_ROUNDS as nat) == b0);
    // simple substitution over an empty binding is the identity
    assert(subst_simple(command, b0) == command);
    // and the map pass never fires without a `${` in the text
    lemma_map_pass_no_pattern(command, b0, vars);
    assert(map_iter(command, b0, vars, crate::subst::MAX_SUBST_ROUNDS as nat) == command);
}

/// Map-lookup substitution leaves a text without `${` unchanged.
pub proof fn lemma_map_pass_no_pattern(
    s: Seq<char>,
    binding: Seq<(Seq<char>, Seq<char>)>,
    vars: Seq<Variable>,
)
    requires
        !occurs(s, seq!['$', '{']),
    ensures
        map_pass(s, binding, vars) == s,
    decreases s.len(),
{
    if s.len() < 2 {
        if s.len() == 1 {
            assert(seq![s[0]] + map_pass(s.skip(1), binding, vars) =~= s);
            assert(map_pass(s.skip(1), binding, vars) =~= Seq::<char>::empty());
        }
        if s.len() == 1 {
            assert(map_pass(s, binding, vars) == seq![s[0]] + map_pass(s.skip(1), binding, vars));
        }
    } else {
        if s[0] == '$' && s[1] == '{' {
            assert(s.subrange(0, 2) =~= seq!['$', '{']);
            assert(occurs_at(s, seq!['$', '{'], 0));
            assert(false);
        }
        assert forall|i: int| !occurs_at(s.skip(1), seq!['$', '{'], i) by {
            if occurs_at(s.skip(1), seq!['$', '{'], i) {
                assert(s.subrange(i + 1, i + 3) =~= s.skip(1).subrange(i, i + 2));
                assert(occurs_at(s, seq!['$', '{'], i + 1));
            }
        }
        lemma_map_pass_no_pattern(s.skip(1), binding, vars);
        assert(seq![s[0]] + s.skip(1) =~= s);
    }
}

/// Simple substitution already at its fixed point stays there for any
/// number of further rounds: re-running it is a no-op.
pub proof fn lemma_substitution_idempotent(
    s: Seq<char>,
    pairs: Seq<(Seq<char>, Seq<char>)>,
    fuel: nat,
)
    requires
        !occurs(s, seq!['$', '{']),
    ensures
        subst_simple(s, pairs) == s,
        iter_subst(s, pairs, fuel) == s,
{
    crate::subst::lemma_subst_simple_fixed(s, pairs);
    if fuel > 0 {
        assert(iter_subst(s, pairs, fuel) == s);
    }
}

/// The job count is exactly the product of the participating
/// variables' value-list lengths: for two independent list variables
/// of sizes m and n referenced by the template and no others, m times
/// n jobs come out, and with no participating variable exactly one.
pub proof fn lemma_job_count_is_product(
    jobs: Seq<Job>,
    command: Seq<char>,
    preprocess: Option<String>,
    postprocess: Option<String>,
    vars: Seq<Variable>,
    cluster: Seq<char>,
    config_id: i64,
    gents: Seq<(String, Vec<String>)>,
)
    requires
        jobs_match(jobs, command, preprocess, postprocess, vars, cluster, config_id, gents),
    ensures
        jobs.len() == prod_count(
            participating(
                resolved_entries(vars, cluster),
                template_refs(command, preprocess, postprocess),
                gents,
            ),
        ),
{
    lemma_cart_count(
        participating(
            resolved_entries(vars, cluster),
            template_refs(command, preprocess, postprocess),
            gents,
        ),
    );
}

} // verus!
