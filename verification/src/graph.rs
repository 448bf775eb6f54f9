//! The dependency graph: which variables a job template references,
//! directly or through other variables' values, and which variables are
//! "dependent" (their own value references further variables).

use vstd::prelude::*;
use crate::refs::{scan_refs, strs_views, get_variables_dependency};
use crate::vars::{Scalar, BasicVar, ClusterMap, CompleteVar, Variable, scalar_str, scalar_to_string,
    var_lookup, find_variable};

verus! {

/// References made by one scalar's display string.
pub open spec fn scalar_refs(s: Scalar) -> Seq<Seq<char>> {
    scan_refs(scalar_str(s))
}

/// References made by a list of scalars, in order.
pub open spec fn scalars_refs(l: Seq<Scalar>) -> Seq<Seq<char>>
    decreases l.len(),
{
    if l.len() == 0 {
        Seq::empty()
    } else {
        scalar_refs(l[0]) + scalars_refs(l.skip(1))
    }
}

/// References made by a basic variable's value(s).
pub open spec fn basic_var_refs(b: BasicVar) -> Seq<Seq<char>> {
    match b {
        BasicVar::Scalar(s) => scalar_refs(s),
        BasicVar::List(l) => scalars_refs(l@),
    }
}

/// References made by a list of named basic variables, in order.
pub open spec fn basic_vars_refs(entries: Seq<(String, BasicVar)>) -> Seq<Seq<char>>
    decreases entries.len(),
{
    if entries.len() == 0 {
        Seq::empty()
    } else {
        basic_var_refs(entries[0].1) + basic_vars_refs(entries.skip(1))
    }
}

/// References made anywhere inside one declared variable's value:
/// scalars and lists directly, maps through every entry, cluster maps
/// through the default first and then every per-cluster entry.
pub open spec fn var_refs(cv: CompleteVar) -> Seq<Seq<char>> {
    match cv {
        CompleteVar::Scalar(s) => scalar_refs(s),
        CompleteVar::List(l) => scalars_refs(l@),
        CompleteVar::StandardMap(m) => basic_vars_refs(m@),
        CompleteVar::ClusterMap(cm) => (match cm.default {
            Some(d) => basic_var_refs(d),
            None => Seq::empty(),
        }) + basic_vars_refs(cm.per_cluster@),
    }
}

/// References made by the value of the variable named `nm`, empty when
/// no such variable is declared.
pub open spec fn var_refs_of(vars: Seq<Variable>, nm: Seq<char>) -> Seq<Seq<char>> {
    match var_lookup(vars, nm) {
        Some(cv) => var_refs(cv),
        None => Seq::empty(),
    }
}

/// References made by an optional template string.
pub open spec fn opt_refs(o: Option<String>) -> Seq<Seq<char>> {
    match o {
        Some(s) => scan_refs(s@),
        None => Seq::empty(),
    }
}

/// All names the template strings reference directly.
pub open spec fn template_refs(
    command: Seq<char>,
    preprocess: Option<String>,
    postprocess: Option<String>,
) -> Seq<Seq<char>> {
    scan_refs(command) + opt_refs(preprocess) + opt_refs(postprocess)
}

/// A successful lookup names some index of the variable list.
pub proof fn lemma_var_lookup_index(vars: Seq<Variable>, nm: Seq<char>)
    requires
        var_lookup(vars, nm) is Some,
    ensures
        exists|i: int|
            0 <= i < vars.len() && vars[i].name@ == nm && var_lookup(vars, nm) == Some(
                vars[i].contents,
            ),
    decreases vars.len(),
{
    if vars.len() == 0 {
    } else if vars[0].name@ == nm {
        assert(vars[0].name@ == nm && var_lookup(vars, nm) == Some(vars[0].contents));
    } else {
        lemma_var_lookup_index(vars.skip(1), nm);
        let i = choose|i: int|
            0 <= i < vars.skip(1).len() && vars.skip(1)[i].name@ == nm && var_lookup(
                vars.skip(1),
                nm,
            ) == Some(vars.skip(1)[i].contents);
        assert(vars[i + 1].name@ == nm && var_lookup(vars, nm) == Some(vars[i + 1].contents));
    }
}

/// Tests membership of a string in a list of strings.
pub fn str_in(v: &Vec<String>, s: &String) -> (r: bool)
    ensures
        r == strs_views(v@).contains(s@),
{
    let n: usize = v.len();
    let mut i: usize = 0;
    while i < n
        invariant
            n == v@.len(),
            i <= n,
            forall|k: int| 0 <= k < i ==> strs_views(v@)[k] != s@,
        decreases n - i,
    {
        if v[i] == *s {
            proof {
                assert(strs_views(v@)[i as int] == s@);
            }
            return true;
        }
        i += 1;
    }
    proof {
        if strs_views(v@).contains(s@) {
            let k = choose|k: int| 0 <= k < strs_views(v@).len() && strs_views(v@)[k] == s@;
            assert(strs_views(v@)[k] != s@);
        }
    }
    false
}

/// Copies a list of strings.
pub fn clone_strings(v: &Vec<String>) -> (r: Vec<String>)
    ensures
        r@ == v@,
{
    let n: usize = v.len();
    let mut r: Vec<String> = Vec::new();
    let mut i: usize = 0;
    while i < n
        invariant
            n == v@.len(),
            i <= n,
            r@ == v@.subrange(0, i as int),
        decreases n - i,
    {
        r.push(v[i].clone());
        i += 1;
        proof {
            assert(r@ =~= v@.subrange(0, i as int));
        }
    }
    proof {
        assert(v@.subrange(0, n as int) =~= v@);
    }
    r
}

/// Appends the references of one scalar to `out`.
fn push_scalar_refs(out: &mut Vec<String>, s: &Scalar)
    ensures
        strs_views(final(out)@) == strs_views(old(out)@) + scalar_refs(*s),
{
    let ghost orig = out@;
    let text = match scalar_to_string(s) {
        Some(t) => t,
        None => {
            proof {
                assert(false);
            }
            String::new()
        },
    };
    match get_variables_dependency(&text) {
        Some(names) => {
            let n: usize = names.len();
            let mut i: usize = 0;
            while i < n
                invariant
                    n == names@.len(),
                    i <= n,
                    strs_views(out@) == strs_views(orig) + strs_views(names@).subrange(
                        0,
                        i as int,
                    ),
                decreases n - i,
            {
                let ghost pre = out@;
                out.push(names[i].clone());
                i += 1;
                proof {
                    let lhs = strs_views(out@);
                    let rhs = strs_views(orig) + strs_views(names@).subrange(0, i as int);
                    assert(out@ == pre.push(out@[pre.len() as int]));
                    assert(out@[pre.len() as int]@ == names@[i - 1]@);
                    assert(lhs.len() == out@.len());
                    assert(out@.len() == pre.len() + 1);
                    assert(strs_views(pre).len() == pre.len());
                    assert(strs_views(pre).len() == strs_views(orig).len() + (i - 1));
                    assert(strs_views(names@).subrange(0, i as int).len() == i as int);
                    assert(rhs.len() == strs_views(orig).len() + i);
                    assert(lhs.len() == rhs.len());
                    assert forall|k: int| 0 <= k < lhs.len() implies lhs[k] == rhs[k] by {
                        assert(lhs[k] == out@[k]@);
                        if k < pre.len() {
                            assert(out@[k] == pre[k]);
                            assert(strs_views(pre)[k] == pre[k]@);
                        } else {
                            assert(k == pre.len());
                        }
                    }
                    assert(lhs =~= rhs);
                }
            }
            proof {
                assert(strs_views(names@).subrange(0, n as int) =~= strs_views(names@));
            }
        },
        None => {
            proof {
                assert(strs_views(out@) =~= strs_views(orig) + scalar_refs(*s));
            }
        },
    }
}

/// Appends the references of a list of scalars to `out`.
fn push_scalars_refs(out: &mut Vec<String>, l: &Vec<Scalar>)
    ensures
        strs_views(final(out)@) == strs_views(old(out)@) + scalars_refs(l@),
{
    let ghost orig = out@;
    let n: usize = l.len();
    let mut i: usize = 0;
    proof {
        assert(l@.skip(0) =~= l@);
    }
    while i < n
        invariant
            n == l@.len(),
            i <= n,
            strs_views(orig) + scalars_refs(l@) == strs_views(out@) + scalars_refs(
                l@.skip(i as int),
            ),
        decreases n - i,
    {
        let ghost rem = l@.skip(i as int);
        let ghost mid = out@;
        proof {
            assert(rem[0] == l@[i as int]);
            assert(rem.skip(1) =~= l@.skip(i + 1));
        }
        push_scalar_refs(out, &l[i]);
        i += 1;
        proof {
            assert(strs_views(mid) + (scalar_refs(l@[i - 1]) + scalars_refs(l@.skip(i as int)))
                =~= (strs_views(mid) + scalar_refs(l@[i - 1])) + scalars_refs(l@.skip(i as int)));
        }
    }
    proof {
        assert(scalars_refs(l@.skip(n as int)) =~= Seq::<Seq<char>>::empty());
        assert(strs_views(out@) + Seq::<Seq<char>>::empty() =~= strs_views(out@));
    }
}

/// Appends the references of one basic variable to `out`.
fn push_basic_var_refs(out: &mut Vec<String>, b: &BasicVar)
    ensures
        strs_views(final(out)@) == strs_views(old(out)@) + basic_var_refs(*b),
{
    match b {
        BasicVar::Scalar(s) => push_scalar_refs(out, s),
        BasicVar::List(l) => push_scalars_refs(out, l),
    }
}

/// Appends the references of a list of named basic variables to `out`.
fn push_basic_vars_refs(out: &mut Vec<String>, entries: &Vec<(String, BasicVar)>)
    ensures
        strs_views(final(out)@) == strs_views(old(out)@) + basic_vars_refs(entries@),
{
    let ghost orig = out@;
    let n: usize = entries.len();
    let mut i: usize = 0;
    proof {
        assert(entries@.skip(0) =~= entries@);
    }
    while i < n
        invariant
            n == entries@.len(),
            i <= n,
            strs_views(orig) + basic_vars_refs(entries@) == strs_views(out@)
                + basic_vars_refs(entries@.skip(i as int)),
        decreases n - i,
    {
        let ghost rem = entries@.skip(i as int);
        let ghost mid = out@;
        proof {
            assert(rem[0] == entries@[i as int]);
            assert(rem.skip(1) =~= entries@.skip(i + 1));
        }
        push_basic_var_refs(out, &entries[i].1);
        i += 1;
        proof {
            assert(strs_views(mid) + (basic_var_refs(entries@[i - 1].1) + basic_vars_refs(
                entries@.skip(i as int),
            )) =~= (strs_views(mid) + basic_var_refs(entries@[i - 1].1)) + basic_vars_refs(
                entries@.skip(i as int),
            ));
        }
    }
    proof {
        assert(basic_vars_refs(entries@.skip(n as int)) =~= Seq::<Seq<char>>::empty());
        assert(strs_views(out@) + Seq::<Seq<char>>::empty() =~= strs_views(out@));
    }
}

/// All `${NAME}` references found inside one declared variable's value.
pub fn find_dependencies_in_var(cv: &CompleteVar) -> (r: Vec<String>)
    ensures
        strs_views(r@) == var_refs(*cv),
{
    let mut out: Vec<String> = Vec::new();
    proof {
        assert(strs_views(out@) =~= Seq::<Seq<char>>::empty());
    }
    match cv {
        CompleteVar::Scalar(s) => {
            push_scalar_refs(&mut out, s);
            proof {
                assert(Seq::<Seq<char>>::empty() + scalar_refs(*s) =~= scalar_refs(*s));
            }
        },
        CompleteVar::List(l) => {
            push_scalars_refs(&mut out, l);
            proof {
                assert(Seq::<Seq<char>>::empty() + scalars_refs(l@) =~= scalars_refs(l@));
            }
        },
        CompleteVar::StandardMap(m) => {
            push_basic_vars_refs(&mut out, m);
            proof {
                assert(Seq::<Seq<char>>::empty() + basic_vars_refs(m@) =~= basic_vars_refs(m@));
            }
        },
        CompleteVar::ClusterMap(cm) => {
            let ghost dpart: Seq<Seq<char>> = match &cm.default {
                Some(d) => basic_var_refs(*d),
                None => Seq::empty(),
            };
            match &cm.default {
                Some(d) => push_basic_var_refs(&mut out, d),
                None => {},
            }
            proof {
                assert(strs_views(out@) =~= dpart);
            }
            push_basic_vars_refs(&mut out, &cm.per_cluster);
        },
    }
    out
}

// ---------------------------------------------------------------------
// The graph proper
// ---------------------------------------------------------------------

/// Maps a variable name to the list of names its value depends on.
/// Built once per template-plus-variable-set and immutable afterwards.
pub struct DependencyGraph {
    pub entries: Vec<(String, Vec<String>)>,
}

/// First-match lookup of a graph entry.
pub open spec fn dg_lookup(entries: Seq<(String, Vec<String>)>, name: Seq<char>) -> Option<
    Seq<String>,
>
    decreases entries.len(),
{
    if entries.len() == 0 {
        None
    } else if entries[0].0@ == name {
        Some(entries[0].1@)
    } else {
        dg_lookup(entries.skip(1), name)
    }
}

/// Whether `name` is a node of the graph.
pub open spec fn dg_contains(entries: Seq<(String, Vec<String>)>, name: Seq<char>) -> bool {
    dg_lookup(entries, name) is Some
}

/// The dependency list recorded for `name`, empty when absent.
pub open spec fn dg_deps(entries: Seq<(String, Vec<String>)>, name: Seq<char>) -> Seq<Seq<char>> {
    match dg_lookup(entries, name) {
        Some(d) => strs_views(d),
        None => Seq::empty(),
    }
}

/// The node names, in entry order.
pub open spec fn dg_keys(entries: Seq<(String, Vec<String>)>) -> Seq<Seq<char>> {
    entries.map_values(|e: (String, Vec<String>)| e.0@)
}

/// A name can only be reached from the template roots through `fuel`
/// steps of value-reference edges.
pub open spec fn reach(roots: Seq<Seq<char>>, vars: Seq<Variable>, nm: Seq<char>, fuel: nat) -> bool
    decreases fuel,
{
    roots.contains(nm) || (fuel > 0 && exists|k: Seq<char>|
        #![trigger var_refs_of(vars, k).contains(nm)]
        reach(roots, vars, k, (fuel - 1) as nat) && var_refs_of(vars, k).contains(nm))
}

/// Reachable in some number of steps.
pub open spec fn reach_any(roots: Seq<Seq<char>>, vars: Seq<Variable>, nm: Seq<char>) -> bool {
    exists|f: nat| reach(roots, vars, nm, f)
}

/// Lookup finds the first entry carrying the name; names at other
/// indices do not disturb it.
pub proof fn lemma_dg_first(entries: Seq<(String, Vec<String>)>, nm: Seq<char>)
    ensures
        dg_contains(entries, nm) <==> exists|j: int|
            0 <= j < entries.len() && #[trigger] entries[j].0@ == nm,
        dg_contains(entries, nm) ==> exists|j: int|
            {
                &&& 0 <= j < entries.len()
                &&& #[trigger] entries[j].0@ == nm
                &&& dg_lookup(entries, nm) == Some(entries[j].1@)
                &&& forall|l: int| 0 <= l < j ==> entries[l].0@ != nm
            },
    decreases entries.len(),
{
    if entries.len() == 0 {
    } else if entries[0].0@ == nm {
        assert(entries[0].0@ == nm);
        assert({
            &&& 0 <= 0 < entries.len()
            &&& entries[0].0@ == nm
            &&& dg_lookup(entries, nm) == Some(entries[0].1@)
            &&& forall|l: int| 0 <= l < 0 ==> entries[l].0@ != nm
        });
    } else {
        lemma_dg_first(entries.skip(1), nm);
        if dg_contains(entries, nm) {
            let j = choose|j: int|
                {
                    &&& 0 <= j < entries.skip(1).len()
                    &&& entries.skip(1)[j].0@ == nm
                    &&& dg_lookup(entries.skip(1), nm) == Some(entries.skip(1)[j].1@)
                    &&& forall|l: int| 0 <= l < j ==> entries.skip(1)[l].0@ != nm
                };
            assert(entries[j + 1].0@ == nm);
            assert forall|l: int| 0 <= l < j + 1 implies entries[l].0@ != nm by {
                if l > 0 {
                    assert(entries.skip(1)[l - 1].0@ != nm);
                }
            }
            assert({
                &&& 0 <= j + 1 < entries.len()
                &&& entries[j + 1].0@ == nm
                &&& dg_lookup(entries, nm) == Some(entries[j + 1].1@)
                &&& forall|l: int| 0 <= l < j + 1 ==> entries[l].0@ != nm
            });
        }
        if exists|j: int| 0 <= j < entries.len() && #[trigger] entries[j].0@ == nm {
            let j = choose|j: int| 0 <= j < entries.len() && #[trigger] entries[j].0@ == nm;
            assert(j > 0);
            assert(entries.skip(1)[j - 1].0@ == nm);
        }
    }
}

/// How lookup behaves after appending one entry.
pub proof fn lemma_dg_push(entries: Seq<(String, Vec<String>)>, e: (String, Vec<String>), nm: Seq<char>)
    ensures
        dg_lookup(entries.push(e), nm) == (if dg_lookup(entries, nm) is Some {
            dg_lookup(entries, nm)
        } else if e.0@ == nm {
            Some(e.1@)
        } else {
            None
        }),
    decreases entries.len(),
{
    if entries.len() == 0 {
        assert(entries.push(e)[0] == e);
        assert(entries.push(e).skip(1) =~= Seq::<(String, Vec<String>)>::empty());
        if e.0@ == nm {
            assert(dg_lookup(entries.push(e), nm) == Some(e.1@));
        } else {
            assert(dg_lookup(entries.push(e), nm) == dg_lookup(
                entries.push(e).skip(1),
                nm,
            ));
            assert(dg_lookup(entries.push(e), nm) is None);
        }
    } else {
        lemma_dg_push(entries.skip(1), e, nm);
        assert(entries.push(e)[0] == entries[0]);
        assert(entries.push(e).skip(1) =~= entries.skip(1).push(e));
        if entries[0].0@ == nm {
            assert(dg_lookup(entries.push(e), nm) == Some(entries[0].1@));
        } else {
            assert(dg_lookup(entries.push(e), nm) == dg_lookup(entries.skip(1).push(e), nm));
        }
    }
}

/// How lookup behaves after replacing the entry at `idx`, when no
/// earlier entry carries the same name.
pub proof fn lemma_dg_update(
    entries: Seq<(String, Vec<String>)>,
    idx: int,
    e: (String, Vec<String>),
    nm: Seq<char>,
)
    requires
        0 <= idx < entries.len(),
        e.0@ == entries[idx].0@,
        forall|l: int| 0 <= l < idx ==> entries[l].0@ != entries[idx].0@,
    ensures
        dg_lookup(entries.update(idx, e), nm) == (if nm == entries[idx].0@ {
            Some(e.1@)
        } else {
            dg_lookup(entries, nm)
        }),
    decreases entries.len(),
{
    let upd = entries.update(idx, e);
    if idx == 0 {
        assert(upd[0] == e);
        assert(upd.skip(1) =~= entries.skip(1));
    } else {
        assert(upd[0] == entries[0]);
        assert(upd.skip(1) =~= entries.skip(1).update(idx - 1, e));
        assert forall|l: int| 0 <= l < idx - 1 implies #[trigger] entries.skip(1)[l].0@
            != entries.skip(1)[idx - 1].0@ by {
            assert(entries[l + 1].0@ != entries[idx].0@);
        }
        lemma_dg_update(entries.skip(1), idx - 1, e, nm);
    }
}

/// Tests whether a name is already a node.
pub fn dg_contains_key(entries: &Vec<(String, Vec<String>)>, name: &String) -> (r: bool)
    ensures
        r == dg_contains(entries@, name@),
        r <==> exists|j: int| 0 <= j < entries@.len() && #[trigger] entries@[j].0@ == name@,
{
    let n: usize = entries.len();
    let mut i: usize = 0;
    proof {
        assert(entries@.skip(0) =~= entries@);
    }
    while i < n
        invariant
            n == entries@.len(),
            i <= n,
            forall|k: int| 0 <= k < i ==> entries@[k].0@ != name@,
            dg_lookup(entries@, name@) == dg_lookup(entries@.skip(i as int), name@),
        decreases n - i,
    {
        let ghost rem = entries@.skip(i as int);
        proof {
            assert(rem[0] == entries@[i as int]);
            assert(rem.skip(1) =~= entries@.skip(i + 1));
        }
        if entries[i].0 == *name {
            proof {
                assert(entries@[i as int].0@ == name@);
                assert(dg_lookup(rem, name@) == Some(rem[0].1@));
            }
            return true;
        }
        i += 1;
    }
    proof {
        assert(entries@.skip(n as int) =~= Seq::<(String, Vec<String>)>::empty());
        if exists|j: int| 0 <= j < entries@.len() && #[trigger] entries@[j].0@ == name@ {
            let j = choose|j: int| 0 <= j < entries@.len() && #[trigger] entries@[j].0@ == name@;
            assert(entries@[j].0@ != name@);
        }
    }
    false
}

impl DependencyGraph {
    /// Whether `var_name` has a non-empty recorded dependency list.
    pub fn has_dependencies(&self, var_name: &String) -> (r: bool)
        ensures
            r == (dg_deps(self.entries@, var_name@).len() != 0),
    {
        let n: usize = self.entries.len();
        let mut i: usize = 0;
        proof {
            assert(self.entries@.skip(0) =~= self.entries@);
        }
        while i < n
            invariant
                n == self.entries@.len(),
                i <= n,
                dg_lookup(self.entries@, var_name@) == dg_lookup(
                    self.entries@.skip(i as int),
                    var_name@,
                ),
            decreases n - i,
        {
            let ghost rem = self.entries@.skip(i as int);
            proof {
                assert(rem[0] == self.entries@[i as int]);
                assert(rem.skip(1) =~= self.entries@.skip(i + 1));
            }
            if self.entries[i].0 == *var_name {
                return self.entries[i].1.len() != 0;
            }
            i += 1;
        }
        proof {
            assert(self.entries@.skip(n as int) =~= Seq::<(String, Vec<String>)>::empty());
        }
        false
    }

    /// The recorded dependency list of `var_name`, empty when absent.
    pub fn get_dependencies(&self, var_name: &String) -> (r: Vec<String>)
        ensures
            strs_views(r@) == dg_deps(self.entries@, var_name@),
    {
        let n: usize = self.entries.len();
        let mut i: usize = 0;
        proof {
            assert(self.entries@.skip(0) =~= self.entries@);
        }
        while i < n
            invariant
                n == self.entries@.len(),
                i <= n,
                dg_lookup(self.entries@, var_name@) == dg_lookup(
                    self.entries@.skip(i as int),
                    var_name@,
                ),
            decreases n - i,
        {
            let ghost rem = self.entries@.skip(i as int);
            proof {
                assert(rem[0] == self.entries@[i as int]);
                assert(rem.skip(1) =~= self.entries@.skip(i + 1));
            }
            if self.entries[i].0 == *var_name {
                return clone_strings(&self.entries[i].1);
            }
            i += 1;
        }
        proof {
            assert(self.entries@.skip(n as int) =~= Seq::<(String, Vec<String>)>::empty());
            assert(strs_views(Seq::<String>::empty()) =~= Seq::<Seq<char>>::empty());
        }
        Vec::new()
    }
}

/// Appends copies of all of `src` to `dst`.
pub fn append_strings(dst: &mut Vec<String>, src: &Vec<String>)
    ensures
        final(dst)@ == old(dst)@ + src@,
{
    let ghost orig = dst@;
    let n: usize = src.len();
    let mut i: usize = 0;
    while i < n
        invariant
            n == src@.len(),
            i <= n,
            dst@ == orig + src@.subrange(0, i as int),
        decreases n - i,
    {
        dst.push(src[i].clone());
        i += 1;
        proof {
            assert(dst@ =~= orig + src@.subrange(0, i as int));
        }
    }
    proof {
        assert(orig + src@.subrange(0, n as int) =~= orig + src@);
    }
}

/// Membership carries over from a sequence to its concatenations.
pub proof fn lemma_contains_concat_left(a: Seq<Seq<char>>, b: Seq<Seq<char>>, x: Seq<char>)
    requires
        a.contains(x),
    ensures
        (a + b).contains(x),
{
    let i = choose|i: int| 0 <= i < a.len() && a[i] == x;
    assert((a + b)[i] == x);
}

/// Membership carries over from the right part of a concatenation.
pub proof fn lemma_contains_concat_right(a: Seq<Seq<char>>, b: Seq<Seq<char>>, x: Seq<char>)
    requires
        b.contains(x),
    ensures
        (a + b).contains(x),
{
    let i = choose|i: int| 0 <= i < b.len() && b[i] == x;
    assert((a + b)[a.len() + i] == x);
}

/// Mapping views distributes over concatenation.
pub proof fn lemma_strs_views_concat(a: Seq<String>, b: Seq<String>)
    ensures
        strs_views(a + b) == strs_views(a) + strs_views(b),
{
    assert(strs_views(a + b) =~= strs_views(a) + strs_views(b));
}

impl DependencyGraph {
    /// Builds the graph for one template: every name the template
    /// strings reference directly becomes a node, and every node whose
    /// declared value references further names records those names as
    /// its dependencies, the newly named variables joining the graph in
    /// turn.  Construction always terminates, also when variables
    /// reference each other in a cycle.
    #[verifier::rlimit(100)]
    #[verifier::spinoff_prover]
    pub fn build(
        command: &String,
        preprocess: &Option<String>,
        postprocess: &Option<String>,
        vars: &Vec<Variable>,
    ) -> (g: DependencyGraph)
        ensures
            dg_keys(g.entries@).no_duplicates(),
            forall|nm: Seq<char>|
                template_refs(command@, *preprocess, *postprocess).contains(nm) ==> dg_contains(
                    g.entries@,
                    nm,
                ),
            forall|nm: Seq<char>, d: Seq<char>|
                #![trigger dg_deps(g.entries@, nm).contains(d)]
                #![trigger var_refs_of(vars@, nm).contains(d)]
                dg_contains(g.entries@, nm) ==> (dg_deps(g.entries@, nm).contains(d)
                    <==> var_refs_of(vars@, nm).contains(d)),
            forall|nm: Seq<char>, d: Seq<char>|
                dg_contains(g.entries@, nm) && #[trigger] var_refs_of(vars@, nm).contains(d)
                    ==> dg_contains(g.entries@, d),
            forall|nm: Seq<char>|
                dg_contains(g.entries@, nm) ==> reach_any(
                    template_refs(command@, *preprocess, *postprocess),
                    vars@,
                    nm,
                ),
    {
        let ghost troots = template_refs(command@, *preprocess, *postprocess);

        // The seed names: everything the template strings reference.
        let mut seeds: Vec<String> = Vec::new();
        match get_variables_dependency(command) {
            Some(v) => {
                seeds = v;
            },
            None => {
                proof {
                    assert(strs_views(seeds@) =~= scan_refs(command@));
                }
            },
        }
        proof {
            assert(strs_views(seeds@) == scan_refs(command@));
        }
        let ghost part1 = strs_views(seeds@);
        match preprocess {
            Some(p) => {
                match get_variables_dependency(p) {
                    Some(v) => {
                        let ghost before = seeds@;
                        append_strings(&mut seeds, &v);
                        proof {
                            lemma_strs_views_concat(before, v@);
                        }
                    },
                    None => {},
                }
            },
            None => {},
        }
        proof {
            assert(strs_views(seeds@) =~= scan_refs(command@) + opt_refs(*preprocess));
        }
        match postprocess {
            Some(p) => {
                match get_variables_dependency(p) {
                    Some(v) => {
                        let ghost before = seeds@;
                        append_strings(&mut seeds, &v);
                        proof {
                            lemma_strs_views_concat(before, v@);
                        }
                    },
                    None => {},
                }
            },
            None => {},
        }
        proof {
            assert(strs_views(seeds@) =~= troots);
        }

        // Seed the graph: one node per referenced name, no dependencies.
        let mut entries: Vec<(String, Vec<String>)> = Vec::new();
        let sn: usize = seeds.len();
        let mut si: usize = 0;
        while si < sn
            invariant
                sn == seeds@.len(),
                si <= sn,
                strs_views(seeds@) == troots,
                dg_keys(entries@).no_duplicates(),
                forall|j: int|
                    0 <= j < entries@.len() ==> troots.contains(#[trigger] entries@[j].0@),
                forall|j: int| 0 <= j < entries@.len() ==> #[trigger] entries@[j].1@.len() == 0,
                forall|k: int| 0 <= k < si ==> dg_contains(entries@, #[trigger] troots[k]),
            decreases sn - si,
        {
            if !dg_contains_key(&entries, &seeds[si]) {
                let ghost pre = entries@;
                let ghost nk = seeds@[si as int]@;
                entries.push((seeds[si].clone(), Vec::new()));
                proof {
                    let e = entries@[pre.len() as int];
                    assert(entries@ == pre.push(e));
                    assert(e.0@ == nk && e.1@.len() == 0);
                    assert forall|nm: Seq<char>| true implies #[trigger] dg_lookup(entries@, nm)
                        == (if dg_lookup(pre, nm) is Some {
                        dg_lookup(pre, nm)
                    } else if nk == nm {
                        Some(e.1@)
                    } else {
                        None
                    }) by {
                        lemma_dg_push(pre, e, nm);
                    }
                    assert(dg_keys(entries@) =~= dg_keys(pre).push(nk));
                    assert forall|a: int, b: int|
                        0 <= a < b < dg_keys(entries@).len() implies dg_keys(entries@)[a]
                        != dg_keys(entries@)[b] by {
                        if b < pre.len() {
                        } else {
                            assert(dg_keys(entries@)[b] == nk);
                            assert(entries@[a].0@ == pre[a].0@);
                        }
                    }
                    assert(troots.contains(nk)) by {
                        assert(troots[si as int] == strs_views(seeds@)[si as int]);
                    }
                    assert forall|jz: int| 0 <= jz < entries@.len() implies #[trigger] entries@[
                        jz
                    ].1@.len() == 0 by {
                        if jz < pre.len() {
                            assert(entries@[jz] == pre[jz]);
                        }
                    }
                }
            }
            proof {
                assert(dg_contains(entries@, troots[si as int])) by {
                    assert(troots[si as int] == strs_views(seeds@)[si as int]);
                }
            }
            si += 1;
        }
        proof {
            assert forall|nm: Seq<char>| troots.contains(nm) implies dg_contains(
                entries@,
                nm,
            ) by {
                let k = choose|k: int| 0 <= k < troots.len() && troots[k] == nm;
                assert(dg_contains(entries@, troots[k]));
            }
        }

        // The universe: every name any node could ever pull in.
        let mut u: Vec<String> = clone_strings(&seeds);
        let vn: usize = vars.len();
        let mut vi: usize = 0;
        while vi < vn
            invariant
                vn == vars@.len(),
                vi <= vn,
                forall|x: Seq<char>|
                    troots.contains(x) ==> #[trigger] strs_views(u@).contains(x),
                forall|i: int, d: Seq<char>|
                    0 <= i < vi && #[trigger] var_refs(vars@[i].contents).contains(d)
                        ==> strs_views(u@).contains(d),
            decreases vn - vi,
        {
            let ds = find_dependencies_in_var(&vars[vi].contents);
            let ghost before = u@;
            append_strings(&mut u, &ds);
            proof {
                lemma_strs_views_concat(before, ds@);
                assert forall|x: Seq<char>| troots.contains(x) implies strs_views(u@).contains(
                    x,
                ) by {
                    assert(strs_views(before).contains(x));
                    lemma_contains_concat_left(strs_views(before), strs_views(ds@), x);
                }
                assert forall|i: int, d: Seq<char>|
                    0 <= i < vi + 1 && #[trigger] var_refs(vars@[i].contents).contains(
                    d,
                ) implies strs_views(u@).contains(d) by {
                    if i < vi {
                        assert(strs_views(before).contains(d));
                        lemma_contains_concat_left(strs_views(before), strs_views(ds@), d);
                    } else {
                        lemma_contains_concat_right(strs_views(before), strs_views(ds@), d);
                    }
                }
            }
            vi += 1;
        }

        // Transitive expansion: give each node its value's references
        // as dependencies, adding newly referenced names as nodes.
        let ubound: usize = u.len();
        let mut idx: usize = 0;
        proof {
            // every node so far is a template root, hence inside the
            // universe and reachable in zero steps
            assert forall|j: int| 0 <= j < entries@.len() implies strs_views(u@).contains(
                #[trigger] entries@[j].0@,
            ) by {
                assert(troots.contains(entries@[j].0@));
            }
            assert forall|j: int| 0 <= j < entries@.len() implies reach_any(
                troots,
                vars@,
                #[trigger] entries@[j].0@,
            ) by {
                assert(reach(troots, vars@, entries@[j].0@, 0));
            }
            // no dependencies are recorded yet
            assert forall|nm: Seq<char>, d: Seq<char>|
                #![trigger dg_deps(entries@, nm).contains(d)]
                dg_deps(entries@, nm).contains(d) implies var_refs_of(vars@, nm).contains(d) by {
                if dg_deps(entries@, nm).contains(d) {
                    lemma_dg_first(entries@, nm);
                    if dg_contains(entries@, nm) {
                        let jw = choose|jw: int|
                            {
                                &&& 0 <= jw < entries@.len()
                                &&& entries@[jw].0@ == nm
                                &&& dg_lookup(entries@, nm) == Some(entries@[jw].1@)
                                &&& forall|l: int| 0 <= l < jw ==> entries@[l].0@ != nm
                            };
                        assert(entries@[jw].1@.len() == 0);
                        assert(strs_views(entries@[jw].1@).len() == 0);
                    }
                }
            }
            // nodes cannot outnumber the universe names
            let kv = dg_keys(entries@);
            kv.unique_seq_to_set();
            assert(kv.to_set().subset_of(strs_views(u@).to_set())) by {
                assert forall|x: Seq<char>| kv.to_set().contains(x) implies strs_views(
                    u@,
                ).to_set().contains(x) by {
                    let l = choose|l: int| 0 <= l < kv.len() && kv[l] == x;
                    assert(entries@[l].0@ == x);
                    assert(strs_views(u@).contains(x));
                }
            }
            vstd::seq_lib::seq_to_set_is_finite(strs_views(u@));
            vstd::set_lib::lemma_len_subset(kv.to_set(), strs_views(u@).to_set());
            strs_views(u@).lemma_cardinality_of_set();
        }
        while idx < entries.len()
            invariant
                ubound == u@.len(),
                idx <= entries@.len(),
                entries@.len() <= ubound,
                dg_keys(entries@).no_duplicates(),
                forall|j: int|
                    0 <= j < entries@.len() ==> strs_views(u@).contains(
                        #[trigger] entries@[j].0@,
                    ),
                forall|nm: Seq<char>| troots.contains(nm) ==> dg_contains(entries@, nm),
                forall|nm: Seq<char>, d: Seq<char>|
                    #![trigger dg_deps(entries@, nm).contains(d)]
                    dg_deps(entries@, nm).contains(d) ==> var_refs_of(vars@, nm).contains(d),
                forall|j: int|
                    0 <= j < entries@.len() ==> reach_any(
                        troots,
                        vars@,
                        #[trigger] entries@[j].0@,
                    ),
                forall|j: int, d: Seq<char>|
                    0 <= j < idx && #[trigger] var_refs_of(vars@, entries@[j].0@).contains(d)
                        ==> dg_contains(entries@, d) && dg_deps(entries@, entries@[j].0@).contains(
                        d,
                    ),
                forall|i: int, d: Seq<char>|
                    0 <= i < vars@.len() && #[trigger] var_refs(vars@[i].contents).contains(d)
                        ==> strs_views(u@).contains(d),
            decreases ubound - idx,
        {
            let k: String = entries[idx].0.clone();
            proof {
                assert(entries@[idx as int].0@ == k@);
                assert forall|l: int| 0 <= l < idx implies entries@[l].0@ != k@ by {
                    assert(dg_keys(entries@)[l] != dg_keys(entries@)[idx as int]);
                }
            }
            match find_variable(vars, &k) {
                None => {
                    proof {
                        assert(var_refs_of(vars@, k@) =~= Seq::<Seq<char>>::empty());
                    }
                    idx += 1;
                },
                Some(cv) => {
                    let ghost cvg = *cv;
                    proof {
                        assert(var_lookup(vars@, k@) == Some(cvg));
                        assert(var_refs_of(vars@, k@) == var_refs(cvg));
                        lemma_var_lookup_index(vars@, k@);
                    }
                    let ds = find_dependencies_in_var(cv);
                    let mut dl: Vec<String> = clone_strings(&entries[idx].1);
                    proof {
                        assert(strs_views(dl@) == dg_deps(entries@, k@)) by {
                            lemma_dg_first(entries@, k@);
                            let j = choose|j: int|
                                {
                                    &&& 0 <= j < entries@.len()
                                    &&& entries@[j].0@ == k@
                                    &&& dg_lookup(entries@, k@) == Some(entries@[j].1@)
                                    &&& forall|l: int| 0 <= l < j ==> entries@[l].0@ != k@
                                };
                            assert(dg_keys(entries@)[j] == dg_keys(entries@)[idx as int]);
                            assert(j == idx);
                        };
                    }
                    let dn: usize = ds.len();
                    let mut j: usize = 0;
                    while j < dn
                        invariant
                            ubound == u@.len(),
                            dn == ds@.len(),
                            j <= dn,
                            strs_views(ds@) == var_refs(cvg),
                            var_lookup(vars@, k@) == Some(cvg),
                            idx < entries@.len(),
                            entries@.len() <= ubound,
                            entries@[idx as int].0@ == k@,
                            dg_keys(entries@).no_duplicates(),
                            forall|l: int|
                                0 <= l < entries@.len() ==> strs_views(u@).contains(
                                    #[trigger] entries@[l].0@,
                                ),
                            forall|nm: Seq<char>| troots.contains(nm) ==> dg_contains(entries@, nm),
                            forall|nm: Seq<char>, d: Seq<char>|
                                #![trigger dg_deps(entries@, nm).contains(d)]
                                dg_deps(entries@, nm).contains(d) ==> var_refs_of(
                                    vars@,
                                    nm,
                                ).contains(d),
                            forall|l: int|
                                0 <= l < entries@.len() ==> reach_any(
                                    troots,
                                    vars@,
                                    #[trigger] entries@[l].0@,
                                ),
                            forall|l: int, d: Seq<char>|
                                0 <= l < idx && #[trigger] var_refs_of(
                                    vars@,
                                    entries@[l].0@,
                                ).contains(d) ==> dg_contains(entries@, d) && dg_deps(
                                    entries@,
                                    entries@[l].0@,
                                ).contains(d),
                            forall|i: int, d: Seq<char>|
                                0 <= i < vars@.len() && #[trigger] var_refs(
                                    vars@[i].contents,
                                ).contains(d) ==> strs_views(u@).contains(d),
                            forall|d: Seq<char>|
                                #[trigger] strs_views(dl@).contains(d) ==> var_refs_of(
                                    vars@,
                                    k@,
                                ).contains(d),
                            forall|jj: int|
                                0 <= jj < j ==> dg_contains(entries@, #[trigger] strs_views(
                                    ds@,
                                )[jj]) && strs_views(dl@).contains(strs_views(ds@)[jj]),
                        decreases dn - j,
                    {
                        proof {
                            assert(strs_views(ds@)[j as int] == ds@[j as int]@);
                            assert(var_refs(cvg).contains(strs_views(ds@)[j as int]));
                        }
                        if !dg_contains_key(&entries, &ds[j]) {
                            let ghost pre = entries@;
                            let ghost dv = ds@[j as int]@;
                            entries.push((ds[j].clone(), Vec::new()));
                            proof {
                                let e = entries@[pre.len() as int];
                                assert(entries@ == pre.push(e));
                                assert(e.0@ == dv && e.1@.len() == 0);
                                assert forall|nm: Seq<char>| true implies #[trigger] dg_lookup(
                                    entries@,
                                    nm,
                                ) == (if dg_lookup(pre, nm) is Some {
                                    dg_lookup(pre, nm)
                                } else if dv == nm {
                                    Some(e.1@)
                                } else {
                                    None
                                }) by {
                                    lemma_dg_push(pre, e, nm);
                                }
                                // keys stay unique
                                assert(dg_keys(entries@) =~= dg_keys(pre).push(dv));
                                assert forall|a: int, b: int|
                                    0 <= a < b < dg_keys(entries@).len() implies dg_keys(
                                    entries@,
                                )[a] != dg_keys(entries@)[b] by {
                                    if b < pre.len() {
                                    } else {
                                        assert(dg_keys(entries@)[b] == dv);
                                        assert(entries@[a].0@ == pre[a].0@);
                                    }
                                }
                                assert(strs_views(e.1@) =~= Seq::<Seq<char>>::empty());
                                assert forall|nm: Seq<char>, d: Seq<char>|
                                    #![trigger dg_deps(entries@, nm).contains(d)]
                                    dg_deps(entries@, nm).contains(d) implies var_refs_of(
                                    vars@,
                                    nm,
                                ).contains(d) by {
                                    if dg_deps(entries@, nm).contains(d) {
                                        if dg_lookup(pre, nm) is Some {
                                            assert(dg_deps(entries@, nm) == dg_deps(pre, nm));
                                            assert(dg_deps(pre, nm).contains(d));
                                        } else if nm == dv {
                                            assert(dg_deps(entries@, nm).len() == 0);
                                        }
                                    }
                                }
                                // the new key is inside the universe
                                lemma_var_lookup_index(vars@, k@);
                                let vidx = choose|i: int|
                                    0 <= i < vars@.len() && vars@[i].name@ == k@ && var_lookup(
                                        vars@,
                                        k@,
                                    ) == Some(vars@[i].contents);
                                assert(var_refs(vars@[vidx].contents).contains(dv));
                                assert(strs_views(u@).contains(dv));
                                // still no more nodes than universe names
                                let kv = dg_keys(entries@);
                                kv.unique_seq_to_set();
                                assert(kv.to_set().subset_of(strs_views(u@).to_set())) by {
                                    assert forall|x: Seq<char>| kv.to_set().contains(
                                        x,
                                    ) implies strs_views(u@).to_set().contains(x) by {
                                        let l = choose|l: int| 0 <= l < kv.len() && kv[l] == x;
                                        assert(entries@[l].0@ == x);
                                    }
                                }
                                vstd::seq_lib::seq_to_set_is_finite(strs_views(u@));
                                vstd::set_lib::lemma_len_subset(
                                    kv.to_set(),
                                    strs_views(u@).to_set(),
                                );
                                strs_views(u@).lemma_cardinality_of_set();
                                // the new node is reachable through `k`
                                assert(reach_any(troots, vars@, k@)) by {
                                    assert(pre[idx as int].0@ == k@);
                                }
                                let f = choose|f: nat| reach(troots, vars@, k@, f);
                                assert(var_refs_of(vars@, k@).contains(dv));
                                assert(reach(troots, vars@, dv, f + 1));
                                assert(reach_any(troots, vars@, dv));
                            }
                        }
                        if !str_in(&dl, &ds[j]) {
                            let ghost dpre = dl@;
                            dl.push(ds[j].clone());
                            proof {
                                assert(strs_views(dl@) =~= strs_views(dpre).push(ds@[j as int]@));
                                assert forall|d: Seq<char>| strs_views(dl@).contains(
                                    d,
                                ) implies var_refs_of(vars@, k@).contains(d) by {
                                    let l = choose|l: int|
                                        0 <= l < strs_views(dl@).len() && strs_views(dl@)[l] == d;
                                    if l < dpre.len() {
                                        assert(strs_views(dpre)[l] == d);
                                        assert(strs_views(dpre).contains(d));
                                    } else {
                                        assert(d == ds@[j as int]@);
                                        assert(var_refs(cvg)[j as int] == d);
                                    }
                                }
                                assert forall|y: Seq<char>| strs_views(dpre).contains(
                                    y,
                                ) implies strs_views(dl@).contains(y) by {
                                    let l = choose|l: int|
                                        0 <= l < strs_views(dpre).len() && strs_views(dpre)[l]
                                            == y;
                                    assert(strs_views(dl@)[l] == y);
                                }
                                assert(strs_views(dl@)[dpre.len() as int] == ds@[j as int]@);
                                assert(strs_views(dl@).contains(ds@[j as int]@));
                            }
                        }
                        proof {
                            assert(strs_views(dl@).contains(strs_views(ds@)[j as int]));
                            assert(dg_contains(entries@, strs_views(ds@)[j as int]));
                        }
                        j += 1;
                    }
                    // record the dependency list
                    let ghost pre2 = entries@;
                    let newdeps = dl;
                    entries[idx] = (k, newdeps);
                    proof {
                        let e = entries@[idx as int];
                        assert(entries@ == pre2.update(idx as int, e));
                        assert(e.0@ == k@);
                        assert forall|l: int| 0 <= l < idx implies pre2[l].0@ != pre2[idx as int].0@
                            by {
                            assert(dg_keys(pre2)[l] != dg_keys(pre2)[idx as int]);
                        }
                        assert forall|nm: Seq<char>| true implies #[trigger] dg_lookup(
                            entries@,
                            nm,
                        ) == (if nm == k@ {
                            Some(e.1@)
                        } else {
                            dg_lookup(pre2, nm)
                        }) by {
                            lemma_dg_update(pre2, idx as int, e, nm);
                        }
                        assert(dg_keys(entries@) =~= dg_keys(pre2));
                        // the recorded list holds exactly what was gathered
                        assert(dg_deps(entries@, k@) == strs_views(dl@));
                        assert forall|nm: Seq<char>, d: Seq<char>|
                            #![trigger dg_deps(entries@, nm).contains(d)]
                            dg_deps(entries@, nm).contains(d) implies var_refs_of(
                            vars@,
                            nm,
                        ).contains(d) by {
                            if dg_deps(entries@, nm).contains(d) {
                                if nm == k@ {
                                    assert(strs_views(dl@).contains(d));
                                } else {
                                    assert(dg_deps(entries@, nm) == dg_deps(pre2, nm));
                                    assert(dg_deps(pre2, nm).contains(d));
                                }
                            }
                        }
                        // processed nodes keep their property, and `k` now has it
                        assert forall|l: int, d: Seq<char>|
                            0 <= l < idx + 1 && #[trigger] var_refs_of(
                                vars@,
                                entries@[l].0@,
                            ).contains(d) implies dg_contains(entries@, d) && dg_deps(
                            entries@,
                            entries@[l].0@,
                        ).contains(d) by {
                            if l < idx {
                                assert(entries@[l].0@ == pre2[l].0@);
                                assert(entries@[l].0@ != k@);
                            } else {
                                assert(entries@[l].0@ == k@);
                                assert(var_refs_of(vars@, k@) == strs_views(ds@));
                                let jj = choose|jj: int|
                                    0 <= jj < strs_views(ds@).len() && strs_views(ds@)[jj] == d;
                                assert(dg_contains(pre2, strs_views(ds@)[jj]));
                                assert(strs_views(dl@).contains(strs_views(ds@)[jj]));
                            }
                        }
                    }
                    idx += 1;
                },
            }
        }
        proof {
            assert forall|nm: Seq<char>, d: Seq<char>|
                dg_contains(entries@, nm) && #[trigger] var_refs_of(vars@, nm).contains(
                    d,
                ) implies dg_contains(entries@, d) && dg_deps(entries@, nm).contains(d) by {
                lemma_dg_first(entries@, nm);
                let jw = choose|jw: int|
                    0 <= jw < entries@.len() && #[trigger] entries@[jw].0@ == nm;
                assert(var_refs_of(vars@, entries@[jw].0@).contains(d));
            }
            assert forall|nm: Seq<char>| dg_contains(entries@, nm) implies reach_any(
                troots,
                vars@,
                nm,
            ) by {
                lemma_dg_first(entries@, nm);
                let jw = choose|jw: int|
                    0 <= jw < entries@.len() && #[trigger] entries@[jw].0@ == nm;
                assert(reach_any(troots, vars@, entries@[jw].0@));
            }
        }
        DependencyGraph { entries }
    }
}

/// A name is "used" when it can be reached from the template roots in
/// `fuel` steps along recorded dependency edges.
pub open spec fn used_reach(
    roots: Seq<Seq<char>>,
    entries: Seq<(String, Vec<String>)>,
    nm: Seq<char>,
    fuel: nat,
) -> bool
    decreases fuel,
{
    roots.contains(nm) || (fuel > 0 && exists|k: Seq<char>|
        #![trigger dg_deps(entries, k).contains(nm)]
        used_reach(roots, entries, k, (fuel - 1) as nat) && dg_deps(entries, k).contains(nm))
}

/// Used in some number of steps.
pub open spec fn used_reach_any(
    roots: Seq<Seq<char>>,
    entries: Seq<(String, Vec<String>)>,
    nm: Seq<char>,
) -> bool {
    exists|f: nat| used_reach(roots, entries, nm, f)
}

/// What pushing one string does to membership among the views.
pub proof fn lemma_views_push_contains(v: Seq<String>, x: String, y: Seq<char>)
    ensures
        strs_views(v.push(x)).contains(y) <==> (strs_views(v).contains(y) || x@ == y),
{
    assert(strs_views(v.push(x)) =~= strs_views(v).push(x@));
    if strs_views(v).contains(y) {
        let l = choose|l: int| 0 <= l < strs_views(v).len() && strs_views(v)[l] == y;
        assert(strs_views(v.push(x))[l] == y);
    }
    if x@ == y {
        assert(strs_views(v.push(x))[v.len() as int] == y);
    }
    if strs_views(v.push(x)).contains(y) {
        let l = choose|l: int|
            0 <= l < strs_views(v.push(x)).len() && strs_views(v.push(x))[l] == y;
        if l < v.len() {
            assert(strs_views(v)[l] == y);
        }
    }
}

/// Collects every variable name the template uses: the names its
/// strings reference directly, closed under the graph's dependency
/// edges.  The result lists each name once.
#[verifier::rlimit(100)]
#[verifier::spinoff_prover]
pub fn get_all_variable_dependencies(
    dep_graph: &DependencyGraph,
    command: &String,
    preprocess: &Option<String>,
    postprocess: &Option<String>,
) -> (r: Vec<String>)
    ensures
        strs_views(r@).no_duplicates(),
        forall|nm: Seq<char>|
            template_refs(command@, *preprocess, *postprocess).contains(nm) ==> strs_views(
                r@,
            ).contains(nm),
        forall|s: Seq<char>, d: Seq<char>|
            #![trigger strs_views(r@).contains(s), dg_deps(dep_graph.entries@, s).contains(d)]
            strs_views(r@).contains(s) && dg_deps(dep_graph.entries@, s).contains(d)
                ==> strs_views(r@).contains(d),
        forall|s: Seq<char>|
            strs_views(r@).contains(s) ==> used_reach_any(
                template_refs(command@, *preprocess, *postprocess),
                dep_graph.entries@,
                s,
            ),
{
    let ghost troots = template_refs(command@, *preprocess, *postprocess);
    let ghost gents = dep_graph.entries@;

    // the seed names, in template order
    let mut seeds: Vec<String> = Vec::new();
    match get_variables_dependency(command) {
        Some(v) => {
            seeds = v;
        },
        None => {
            proof {
                assert(strs_views(seeds@) =~= scan_refs(command@));
            }
        },
    }
    match preprocess {
        Some(p) => {
            match get_variables_dependency(p) {
                Some(v) => {
                    let ghost before = seeds@;
                    append_strings(&mut seeds, &v);
                    proof {
                        lemma_strs_views_concat(before, v@);
                    }
                },
                None => {},
            }
        },
        None => {},
    }
    proof {
        assert(strs_views(seeds@) =~= scan_refs(command@) + opt_refs(*preprocess));
    }
    match postprocess {
        Some(p) => {
            match get_variables_dependency(p) {
                Some(v) => {
                    let ghost before = seeds@;
                    append_strings(&mut seeds, &v);
                    proof {
                        lemma_strs_views_concat(before, v@);
                    }
                },
                None => {},
            }
        },
        None => {},
    }
    proof {
        assert(strs_views(seeds@) =~= troots);
    }

    // the universe bounding the search: the roots plus every recorded
    // dependency list
    let mut u: Vec<String> = clone_strings(&seeds);
    let gn: usize = dep_graph.entries.len();
    let mut gi: usize = 0;
    while gi < gn
        invariant
            gn == gents.len(),
            gents == dep_graph.entries@,
            gi <= gn,
            forall|x: Seq<char>| troots.contains(x) ==> #[trigger] strs_views(u@).contains(x),
            forall|j: int, d: Seq<char>|
                0 <= j < gi && #[trigger] strs_views(gents[j].1@).contains(d) ==> strs_views(
                    u@,
                ).contains(d),
        decreases gn - gi,
    {
        let ghost before = u@;
        append_strings(&mut u, &dep_graph.entries[gi].1);
        proof {
            lemma_strs_views_concat(before, gents[gi as int].1@);
            assert forall|x: Seq<char>| troots.contains(x) implies strs_views(u@).contains(
                x,
            ) by {
                assert(strs_views(before).contains(x));
                lemma_contains_concat_left(strs_views(before), strs_views(gents[gi as int].1@), x);
            }
            assert forall|j: int, d: Seq<char>|
                0 <= j < gi + 1 && #[trigger] strs_views(gents[j].1@).contains(d) implies
                strs_views(u@).contains(d) by {
                if j < gi {
                    assert(strs_views(before).contains(d));
                    lemma_contains_concat_left(
                        strs_views(before),
                        strs_views(gents[gi as int].1@),
                        d,
                    );
                } else {
                    lemma_contains_concat_right(
                        strs_views(before),
                        strs_views(gents[gi as int].1@),
                        d,
                    );
                }
            }
        }
        gi += 1;
    }
    proof {
        assert forall|s: Seq<char>, d: Seq<char>| #[trigger] dg_deps(gents, s).contains(
            d,
        ) implies strs_views(u@).contains(d) by {
            if dg_deps(gents, s).contains(d) {
                lemma_dg_first(gents, s);
                if dg_contains(gents, s) {
                    let jw = choose|jw: int|
                        {
                            &&& 0 <= jw < gents.len()
                            &&& gents[jw].0@ == s
                            &&& dg_lookup(gents, s) == Some(gents[jw].1@)
                            &&& forall|l: int| 0 <= l < jw ==> gents[l].0@ != s
                        };
                    assert(strs_views(gents[jw].1@).contains(d));
                }
            }
        }
    }

    // breadth-first closure over the dependency edges
    let mut seen: Vec<String> = Vec::new();
    let sn: usize = seeds.len();
    let mut si: usize = 0;
    while si < sn
        invariant
            sn == seeds@.len(),
            si <= sn,
            strs_views(seeds@) == troots,
            strs_views(seen@).no_duplicates(),
            forall|x: Seq<char>|
                #[trigger] strs_views(seen@).contains(x) ==> troots.contains(x),
            forall|k: int| 0 <= k < si ==> strs_views(seen@).contains(#[trigger] troots[k]),
        decreases sn - si,
    {
        if !str_in(&seen, &seeds[si]) {
            let ghost pre = seen@;
            seen.push(seeds[si].clone());
            proof {
                assert(strs_views(seen@) =~= strs_views(pre).push(seeds@[si as int]@));
                assert forall|x: Seq<char>| strs_views(seen@).contains(x) implies troots.contains(
                    x,
                ) by {
                    lemma_views_push_contains(pre, seen@[pre.len() as int], x);
                    if strs_views(pre).contains(x) {
                    } else {
                        assert(x == strs_views(seeds@)[si as int]);
                    }
                }
                assert forall|a: int, b: int|
                    0 <= a < b < strs_views(seen@).len() implies strs_views(seen@)[a]
                    != strs_views(seen@)[b] by {
                    if b == pre.len() {
                        assert(strs_views(pre)[a] == strs_views(seen@)[a]);
                        assert(!strs_views(pre).contains(strs_views(seen@)[b]));
                    }
                }
                assert forall|x: Seq<char>| strs_views(pre).contains(x) implies strs_views(
                    seen@,
                ).contains(x) by {
                    lemma_views_push_contains(pre, seen@[pre.len() as int], x);
                }
                assert(strs_views(seen@)[pre.len() as int] == strs_views(seeds@)[si as int]);
            }
        }
        proof {
            assert(strs_views(seen@).contains(troots[si as int])) by {
                assert(troots[si as int] == strs_views(seeds@)[si as int]);
            }
        }
        si += 1;
    }
    proof {
        assert forall|nm: Seq<char>| troots.contains(nm) implies strs_views(seen@).contains(
            nm,
        ) by {
            let k = choose|k: int| 0 <= k < troots.len() && troots[k] == nm;
            assert(strs_views(seen@).contains(troots[k]));
        }
        assert forall|x: Seq<char>| strs_views(seen@).contains(x) implies used_reach_any(
            troots,
            gents,
            x,
        ) by {
            assert(used_reach(troots, gents, x, 0));
        }
        assert forall|x: Seq<char>| strs_views(seen@).contains(x) implies strs_views(
            u@,
        ).contains(x) by {
            assert(troots.contains(x));
        }
    }
    let mut queue: Vec<String> = clone_strings(&seen);
    let ubound: usize = u.len();
    proof {
        let kv = strs_views(seen@);
        kv.unique_seq_to_set();
        assert(kv.to_set().subset_of(strs_views(u@).to_set())) by {
            assert forall|x: Seq<char>| kv.to_set().contains(x) implies strs_views(
                u@,
            ).to_set().contains(x) by {}
        }
        vstd::seq_lib::seq_to_set_is_finite(strs_views(u@));
        vstd::set_lib::lemma_len_subset(kv.to_set(), strs_views(u@).to_set());
        strs_views(u@).lemma_cardinality_of_set();
    }
    while queue.len() > 0
        invariant
            gents == dep_graph.entries@,
            ubound == u@.len(),
            seen@.len() <= ubound,
            strs_views(seen@).no_duplicates(),
            forall|x: Seq<char>|
                #[trigger] strs_views(seen@).contains(x) ==> strs_views(u@).contains(x),
            forall|nm: Seq<char>| troots.contains(nm) ==> strs_views(seen@).contains(nm),
            forall|x: Seq<char>|
                #[trigger] strs_views(queue@).contains(x) ==> strs_views(seen@).contains(x),
            forall|s: Seq<char>, d: Seq<char>|
                #![trigger strs_views(seen@).contains(s), dg_deps(gents, s).contains(d)]
                strs_views(seen@).contains(s) && dg_deps(gents, s).contains(d) && !strs_views(
                    queue@,
                ).contains(s) ==> strs_views(seen@).contains(d),
            forall|s: Seq<char>|
                #[trigger] strs_views(seen@).contains(s) ==> used_reach_any(troots, gents, s),
            forall|s: Seq<char>, d: Seq<char>|
                #[trigger] dg_deps(gents, s).contains(d) ==> strs_views(u@).contains(d),
        decreases ubound - seen@.len(), queue@.len(),
    {
        let ghost qpre = queue@;
        let v: String = match queue.pop() {
            Some(x) => x,
            None => {
                proof {
                    assert(false);
                }
                String::new()
            },
        };
        proof {
            assert(qpre[qpre.len() - 1] == v);
            assert(strs_views(qpre)[qpre.len() - 1] == v@);
            assert(strs_views(qpre).contains(v@));
            assert(strs_views(queue@) =~= strs_views(qpre).subrange(0, qpre.len() - 1));
            assert forall|x: Seq<char>| strs_views(queue@).contains(x) implies strs_views(
                qpre,
            ).contains(x) by {
                let l = choose|l: int|
                    0 <= l < strs_views(queue@).len() && strs_views(queue@)[l] == x;
                assert(strs_views(qpre)[l] == x);
            }
            assert forall|x: Seq<char>| strs_views(qpre).contains(x) implies (strs_views(
                queue@,
            ).contains(x) || x == v@) by {
                let l = choose|l: int|
                    0 <= l < strs_views(qpre).len() && strs_views(qpre)[l] == x;
                if l < qpre.len() - 1 {
                    assert(strs_views(queue@)[l] == x);
                }
            }
            assert forall|x: Seq<char>| strs_views(queue@).contains(x) implies strs_views(
                seen@,
            ).contains(x) by {
                assert(strs_views(qpre).contains(x));
            }
        }
        let ds = dep_graph.get_dependencies(&v);
        proof {
            assert(gents == dep_graph.entries@);
            assert(strs_views(ds@) == dg_deps(gents, v@));
        }
        let ghost seen_at_pop = seen@;
        let dn: usize = ds.len();
        let mut j: usize = 0;
        while j < dn
            invariant
                gents == dep_graph.entries@,
                dn == ds@.len(),
                j <= dn,
                strs_views(ds@) == dg_deps(gents, v@),
                strs_views(seen@).contains(v@),
                used_reach_any(troots, gents, v@),
                ubound == u@.len(),
                seen@.len() <= ubound,
                strs_views(seen@).no_duplicates(),
                forall|x: Seq<char>|
                    #[trigger] strs_views(seen@).contains(x) ==> strs_views(u@).contains(x),
                forall|nm: Seq<char>| troots.contains(nm) ==> strs_views(seen@).contains(nm),
                forall|x: Seq<char>|
                    #[trigger] strs_views(queue@).contains(x) ==> strs_views(seen@).contains(x),
                forall|s: Seq<char>, d: Seq<char>|
                    #![trigger strs_views(seen@).contains(s), dg_deps(gents, s).contains(d)]
                    strs_views(seen@).contains(s) && dg_deps(gents, s).contains(d) && !strs_views(
                        queue@,
                    ).contains(s) && s != v@ ==> strs_views(seen@).contains(d),
                forall|s: Seq<char>|
                    #[trigger] strs_views(seen@).contains(s) ==> used_reach_any(troots, gents, s),
                forall|s: Seq<char>, d: Seq<char>|
                    #[trigger] dg_deps(gents, s).contains(d) ==> strs_views(u@).contains(d),
                forall|jj: int|
                    0 <= jj < j ==> strs_views(seen@).contains(#[trigger] strs_views(ds@)[jj]),
                seen_at_pop.len() <= seen@.len(),
                qpre.len() - 1 <= queue@.len(),
                queue@.len() == qpre.len() - 1 + (seen@.len() - seen_at_pop.len()),
            decreases dn - j,
        {
            proof {
                assert(strs_views(ds@)[j as int] == ds@[j as int]@);
                assert(dg_deps(gents, v@).contains(strs_views(ds@)[j as int]));
            }
            if !str_in(&seen, &ds[j]) {
                let ghost spre = seen@;
                let ghost qpre2 = queue@;
                let ghost dv = ds@[j as int]@;
                seen.push(ds[j].clone());
                queue.push(ds[j].clone());
                proof {
                    assert(strs_views(seen@) =~= strs_views(spre).push(dv));
                    assert(strs_views(queue@) =~= strs_views(qpre2).push(dv));
                    assert forall|x: Seq<char>| strs_views(seen@).contains(x) implies (
                    strs_views(spre).contains(x) || x == dv) by {
                        lemma_views_push_contains(spre, seen@[spre.len() as int], x);
                    }
                    assert forall|x: Seq<char>| strs_views(spre).contains(x) implies strs_views(
                        seen@,
                    ).contains(x) by {
                        lemma_views_push_contains(spre, seen@[spre.len() as int], x);
                    }
                    assert forall|x: Seq<char>| strs_views(queue@).contains(x) implies (
                    strs_views(qpre2).contains(x) || x == dv) by {
                        lemma_views_push_contains(qpre2, queue@[qpre2.len() as int], x);
                    }
                    assert forall|x: Seq<char>| strs_views(qpre2).contains(x) implies strs_views(
                        queue@,
                    ).contains(x) by {
                        lemma_views_push_contains(qpre2, queue@[qpre2.len() as int], x);
                    }
                    assert(strs_views(seen@).contains(dv)) by {
                        assert(strs_views(seen@)[spre.len() as int] == dv);
                    }
                    assert(strs_views(queue@).contains(dv)) by {
                        assert(strs_views(queue@)[qpre2.len() as int] == dv);
                    }
                    assert(dg_deps(gents, v@).contains(dv));
                    assert(strs_views(u@).contains(dv));
                    let f0 = choose|f0: nat| used_reach(troots, gents, v@, f0);
                    assert(used_reach(troots, gents, dv, f0 + 1));
                    assert(used_reach_any(troots, gents, dv));
                    assert forall|x: Seq<char>| strs_views(seen@).contains(x) implies strs_views(
                        u@,
                    ).contains(x) by {
                        if strs_views(spre).contains(x) {
                        } else {
                            assert(x == dv);
                        }
                    }
                    assert forall|x: Seq<char>| strs_views(queue@).contains(x) implies strs_views(
                        seen@,
                    ).contains(x) by {
                        if strs_views(qpre2).contains(x) {
                            assert(strs_views(spre).contains(x));
                        } else {
                            assert(x == dv);
                        }
                    }
                    assert forall|s: Seq<char>|  strs_views(seen@).contains(s) implies
                        used_reach_any(troots, gents, s) by {
                        if strs_views(spre).contains(s) {
                        } else {
                            assert(s == dv);
                        }
                    }
                    assert forall|s: Seq<char>, d: Seq<char>|
                        strs_views(seen@).contains(s) && dg_deps(gents, s).contains(d)
                            && !strs_views(queue@).contains(s) && s != v@ implies strs_views(
                        seen@,
                    ).contains(d) by {
                        if s == dv {
                            assert(strs_views(queue@).contains(dv));
                        } else if strs_views(seen@).contains(s) && dg_deps(gents, s).contains(d)
                            && !strs_views(queue@).contains(s) && s != v@ {
                            assert(strs_views(spre).contains(s));
                            assert(!strs_views(qpre2).contains(s));
                            assert(strs_views(spre).contains(d));
                        }
                    }
                    // the new name stays unique and inside the universe
                    assert forall|a: int, b: int|
                        0 <= a < b < strs_views(seen@).len() implies strs_views(seen@)[a]
                        != strs_views(seen@)[b] by {
                        if b == spre.len() {
                            assert(strs_views(spre)[a] == strs_views(seen@)[a]);
                            assert(!strs_views(spre).contains(strs_views(seen@)[b]));
                        }
                    }
                    assert(strs_views(u@).contains(dv));
                    let kv = strs_views(seen@);
                    kv.unique_seq_to_set();
                    assert(kv.to_set().subset_of(strs_views(u@).to_set())) by {
                        assert forall|x: Seq<char>| kv.to_set().contains(x) implies strs_views(
                            u@,
                        ).to_set().contains(x) by {}
                    }
                    vstd::seq_lib::seq_to_set_is_finite(strs_views(u@));
                    vstd::set_lib::lemma_len_subset(kv.to_set(), strs_views(u@).to_set());
                    strs_views(u@).lemma_cardinality_of_set();
                    // reachability of the new name, through `v`
                    let f = choose|f: nat| used_reach(troots, gents, v@, f);
                    assert(used_reach(troots, gents, dv, f + 1));
                    assert(used_reach_any(troots, gents, dv));
                }
            }
            proof {
                assert(strs_views(seen@).contains(strs_views(ds@)[j as int]));
            }
            j += 1;
        }
        proof {
            // `v` is now fully processed: all its dependencies are seen
            assert forall|s: Seq<char>, d: Seq<char>|
                strs_views(seen@).contains(s) && dg_deps(gents, s).contains(d) && !strs_views(
                    queue@,
                ).contains(s) implies strs_views(seen@).contains(d) by {
                if s == v@ {
                    let jj = choose|jj: int|
                        0 <= jj < strs_views(ds@).len() && strs_views(ds@)[jj] == d;
                    assert(strs_views(seen@).contains(strs_views(ds@)[jj]));
                }
            }
        }
    }
    proof {
        assert forall|s: Seq<char>, d: Seq<char>|
            strs_views(seen@).contains(s) && dg_deps(gents, s).contains(d) implies strs_views(
            seen@,
        ).contains(d) by {
            if strs_views(queue@).contains(s) {
                assert(strs_views(queue@).len() == 0);
            }
        }
    }
    seen
}

} // verus!
