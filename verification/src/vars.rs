//! The variable model: typed leaf scalars, the two basic shapes
//! (scalar, list), per-cluster maps with a fallback default, plain
//! key-to-value maps, and named variables.

use vstd::prelude::*;
use crate::numfmt::int_dec;

verus! {

/// A typed leaf value.  Every scalar renders deterministically as one
/// display string (`scalar_str`).  A floating-point value is carried as
/// its canonical numeral text, so the rendering is the text itself.
#[derive(Clone, Debug)]
pub enum Scalar {
    Str(String),
    Int(i64),
    Float(String),
    Bool(bool),
    File(String),
    Directory(String),
    Python(String),
}

/// The display string of a scalar.
pub open spec fn scalar_str(s: Scalar) -> Seq<char> {
    match s {
        Scalar::Str(x) => x@,
        Scalar::Int(i) => int_dec(i as int),
        Scalar::Float(f) => f@,
        Scalar::Bool(b) => if b {
            "true"@
        } else {
            "false"@
        },
        Scalar::File(f) => f@,
        Scalar::Directory(d) => d@,
        Scalar::Python(p) => p@,
    }
}

/// The display strings of a list of scalars.
pub open spec fn scalars_strs(l: Seq<Scalar>) -> Seq<Seq<char>> {
    l.map_values(|s: Scalar| scalar_str(s))
}

/// Renders one scalar as its display string.  Every scalar has one, so
/// the result is always `Some`.
pub fn scalar_to_string(scalar: &Scalar) -> (r: Option<String>)
    ensures
        r is Some,
        r matches Some(v) ==> v@ == scalar_str(*scalar),
{
    match scalar {
        Scalar::Str(s) => Some(s.clone()),
        Scalar::Int(i) => {
            let digits = crate::chars::string_from_chars(&crate::numfmt::i64_to_chars(*i));
            Some(digits)
        },
        Scalar::Float(f) => Some(f.clone()),
        Scalar::Bool(b) => if *b {
            Some(String::from_str("true"))
        } else {
            Some(String::from_str("false"))
        },
        Scalar::File(f) => Some(f.clone()),
        Scalar::Directory(d) => Some(d.clone()),
        Scalar::Python(p) => Some(p.clone()),
    }
}

/// One resolvable slot before cluster-awareness is applied: a single
/// scalar or a list of scalars.
#[derive(Clone, Debug)]
pub enum BasicVar {
    Scalar(Scalar),
    List(Vec<Scalar>),
}

/// The value list a basic variable stands for: one string for a scalar,
/// one per element for a list.
pub open spec fn basic_var_values(b: BasicVar) -> Seq<Seq<char>> {
    match b {
        BasicVar::Scalar(s) => seq![scalar_str(s)],
        BasicVar::List(l) => scalars_strs(l@),
    }
}

/// First-match lookup in an association list of named basic variables.
pub open spec fn bv_lookup(entries: Seq<(String, BasicVar)>, name: Seq<char>) -> Option<BasicVar>
    decreases entries.len(),
{
    if entries.len() == 0 {
        None
    } else if entries[0].0@ == name {
        Some(entries[0].1)
    } else {
        bv_lookup(entries.skip(1), name)
    }
}

/// A per-cluster map: looking up a cluster name falls back to `default`
/// when the cluster has no entry of its own.
#[derive(Clone, Debug)]
pub struct ClusterMap {
    pub default: Option<BasicVar>,
    pub per_cluster: Vec<(String, BasicVar)>,
}

/// What a cluster-map lookup yields for a given cluster name.
pub open spec fn cluster_map_get(m: ClusterMap, name: Seq<char>) -> Option<BasicVar> {
    match bv_lookup(m.per_cluster@, name) {
        Some(b) => Some(b),
        None => m.default,
    }
}

impl ClusterMap {
    /// The entry for `cluster_name`, or the default when absent; `None`
    /// only when both are absent.
    pub fn get(&self, cluster_name: &String) -> (r: Option<&BasicVar>)
        ensures
            match cluster_map_get(*self, cluster_name@) {
                Some(b) => r matches Some(x) && *x == b,
                None => r is None,
            },
    {
        let n: usize = self.per_cluster.len();
        let mut i: usize = 0;
        proof {
            assert(self.per_cluster@.skip(0) =~= self.per_cluster@);
        }
        while i < n
            invariant
                n == self.per_cluster@.len(),
                i <= n,
                bv_lookup(self.per_cluster@, cluster_name@) == bv_lookup(
                    self.per_cluster@.skip(i as int),
                    cluster_name@,
                ),
            decreases n - i,
        {
            let ghost rem = self.per_cluster@.skip(i as int);
            proof {
                assert(rem[0] == self.per_cluster@[i as int]);
                assert(rem.skip(1) =~= self.per_cluster@.skip(i + 1));
            }
            if self.per_cluster[i].0 == *cluster_name {
                return Some(&self.per_cluster[i].1);
            }
            i += 1;
        }
        proof {
            assert(self.per_cluster@.skip(n as int) =~= Seq::<(String, BasicVar)>::empty());
        }
        match &self.default {
            Some(d) => Some(d),
            None => None,
        }
    }
}

/// One declared variable shape: a scalar, a list, a plain key-to-value
/// map addressed by `${NAME}[key]`, or a per-cluster map.
#[derive(Clone, Debug)]
pub enum CompleteVar {
    Scalar(Scalar),
    List(Vec<Scalar>),
    StandardMap(Vec<(String, BasicVar)>),
    ClusterMap(ClusterMap),
}

/// A named variable.  Two variables are the same variable exactly when
/// their names agree; the contents play no part in identity.
#[derive(Clone, Debug)]
pub struct Variable {
    pub name: String,
    pub contents: CompleteVar,
}

impl PartialEq for Variable {
    fn eq(&self, other: &Self) -> (r: bool) {
        self.name == other.name
    }
}

impl vstd::std_specs::cmp::PartialEqSpecImpl for Variable {
    open spec fn obeys_eq_spec() -> bool {
        true
    }

    open spec fn eq_spec(&self, other: &Variable) -> bool {
        self.name@ == other.name@
    }
}

/// First-match lookup of a variable by name.
pub open spec fn var_lookup(vars: Seq<Variable>, name: Seq<char>) -> Option<CompleteVar>
    decreases vars.len(),
{
    if vars.len() == 0 {
        None
    } else if vars[0].name@ == name {
        Some(vars[0].contents)
    } else {
        var_lookup(vars.skip(1), name)
    }
}

/// Finds the variable named `name`, first match winning.
pub fn find_variable<'a>(vars: &'a Vec<Variable>, name: &String) -> (r: Option<&'a CompleteVar>)
    ensures
        match var_lookup(vars@, name@) {
            Some(c) => r matches Some(x) && *x == c,
            None => r is None,
        },
{
    let n: usize = vars.len();
    let mut i: usize = 0;
    proof {
        assert(vars@.skip(0) =~= vars@);
    }
    while i < n
        invariant
            n == vars@.len(),
            i <= n,
            var_lookup(vars@, name@) == var_lookup(vars@.skip(i as int), name@),
        decreases n - i,
    {
        let ghost rem = vars@.skip(i as int);
        proof {
            assert(rem[0] == vars@[i as int]);
            assert(rem.skip(1) =~= vars@.skip(i + 1));
        }
        if vars[i].name == *name {
            return Some(&vars[i].contents);
        }
        i += 1;
    }
    proof {
        assert(vars@.skip(n as int) =~= Seq::<Variable>::empty());
    }
    None
}

} // verus!
