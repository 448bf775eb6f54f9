//! String substitution: replacing `${NAME}` references by bound values,
//! iterating to a fixed point for values that reference other variables.

use vstd::prelude::*;
use crate::chars::{occurs, replace_all, replace_all_chars, contains_chars, append_chars, eq_chars,
    chars_of_str, string_from_chars, clone_chars};
use crate::refs::find_char;
use crate::vars::{Scalar, BasicVar, CompleteVar, Variable, scalar_str, scalar_to_string,
    bv_lookup, var_lookup, find_variable};

verus! {

/// The literal pattern `${name}`.
pub open spec fn pat_of(name: Seq<char>) -> Seq<char> {
    seq!['$', '{'] + name + seq!['}']
}

/// Builds the literal pattern `${name}`.
pub fn pat_chars(name: &String) -> (r: Vec<char>)
    ensures
        r@ == pat_of(name@),
{
    let mut r: Vec<char> = Vec::new();
    r.push('$');
    r.push('{');
    let cs = chars_of_str(name.as_str());
    append_chars(&mut r, &cs);
    r.push('}');
    proof {
        assert(r@ =~= pat_of(name@));
    }
    r
}

/// The views of a vector of name/value pairs.
pub open spec fn pairs_views(v: Seq<(String, String)>) -> Seq<(Seq<char>, Seq<char>)> {
    v.map_values(|p: (String, String)| (p.0@, p.1@))
}

/// First-match lookup among name/value pairs.
pub open spec fn pairs_lookup(pairs: Seq<(Seq<char>, Seq<char>)>, name: Seq<char>) -> Option<
    Seq<char>,
>
    decreases pairs.len(),
{
    if pairs.len() == 0 {
        None
    } else if pairs[0].0 == name {
        Some(pairs[0].1)
    } else {
        pairs_lookup(pairs.skip(1), name)
    }
}

/// Finds the value bound to `name`, first match winning.
pub fn lookup_value<'a>(values: &'a Vec<(String, String)>, name: &String) -> (r: Option<&'a String>)
    ensures
        match pairs_lookup(pairs_views(values@), name@) {
            Some(v) => r matches Some(x) && x@ == v,
            None => r is None,
        },
{
    let n: usize = values.len();
    let mut i: usize = 0;
    proof {
        assert(pairs_views(values@).skip(0) =~= pairs_views(values@));
    }
    while i < n
        invariant
            n == values@.len(),
            i <= n,
            pairs_lookup(pairs_views(values@), name@) == pairs_lookup(
                pairs_views(values@).skip(i as int),
                name@,
            ),
        decreases n - i,
    {
        let ghost rem = pairs_views(values@).skip(i as int);
        proof {
            assert(rem[0] == pairs_views(values@)[i as int]);
            assert(rem.skip(1) =~= pairs_views(values@).skip(i + 1));
        }
        if values[i].0 == *name {
            return Some(&values[i].1);
        }
        i += 1;
    }
    proof {
        assert(pairs_views(values@).skip(n as int) =~= Seq::<(Seq<char>, Seq<char>)>::empty());
    }
    None
}

/// Simple substitution: each pair `(NAME, v)` in order replaces every
/// occurrence of `${NAME}` by `v`.  Names absent from the text are left
/// untouched, and unresolved references are not an error.
pub open spec fn subst_simple(s: Seq<char>, pairs: Seq<(Seq<char>, Seq<char>)>) -> Seq<char>
    decreases pairs.len(),
{
    if pairs.len() == 0 {
        s
    } else {
        subst_simple(replace_all(s, pat_of(pairs[0].0), pairs[0].1), pairs.skip(1))
    }
}

/// A text in which no `${` occurs is a fixed point of simple
/// substitution, whatever the binding holds.
pub proof fn lemma_subst_simple_fixed(s: Seq<char>, pairs: Seq<(Seq<char>, Seq<char>)>)
    requires
        !occurs(s, seq!['$', '{']),
    ensures
        subst_simple(s, pairs) == s,
    decreases pairs.len(),
{
    if pairs.len() == 0 {
    } else {
        let pat = pat_of(pairs[0].0);
        assert forall|i: int| !crate::chars::occurs_at(s, pat, i) by {
            if crate::chars::occurs_at(s, pat, i) {
                assert(s.subrange(i, i + pat.len() as int)[0] == s[i]);
                assert(s.subrange(i, i + pat.len() as int)[1] == s[i + 1]);
                assert(s[i] == '$' && s[i + 1] == '{');
                assert(s.subrange(i, i + 2) =~= seq!['$', '{']);
                assert(crate::chars::occurs_at(s, seq!['$', '{'], i));
            }
        }
        crate::chars::lemma_replace_all_absent(s, pat, pairs[0].1);
        lemma_subst_simple_fixed(s, pairs.skip(1));
    }
}

/// Applies simple substitution over character vectors.
pub fn substitute_simple_chars(template: &Vec<char>, values: &Vec<(String, String)>) -> (r: Vec<
    char,
>)
    ensures
        r@ == subst_simple(template@, pairs_views(values@)),
{
    let mut cur: Vec<char> = clone_chars(template);
    let n: usize = values.len();
    let mut i: usize = 0;
    proof {
        assert(pairs_views(values@).skip(0) =~= pairs_views(values@));
    }
    while i < n
        invariant
            n == values@.len(),
            i <= n,
            subst_simple(template@, pairs_views(values@)) == subst_simple(
                cur@,
                pairs_views(values@).skip(i as int),
            ),
        decreases n - i,
    {
        let ghost rem = pairs_views(values@).skip(i as int);
        proof {
            assert(rem[0] == pairs_views(values@)[i as int]);
            assert(rem.skip(1) =~= pairs_views(values@).skip(i + 1));
        }
        let pat = pat_chars(&values[i].0);
        let val = chars_of_str(values[i].1.as_str());
        cur = replace_all_chars(&cur, &pat, &val);
        i += 1;
    }
    proof {
        assert(pairs_views(values@).skip(n as int) =~= Seq::<(Seq<char>, Seq<char>)>::empty());
    }
    cur
}

/// Simple substitution iterated to a textual fixed point, giving up
/// after `fuel` rounds (a guard against circular definitions).
pub open spec fn iter_subst(s: Seq<char>, pairs: Seq<(Seq<char>, Seq<char>)>, fuel: nat) -> Seq<
    char,
>
    decreases fuel,
{
    if fuel == 0 {
        s
    } else {
        let t = subst_simple(s, pairs);
        if t == s {
            s
        } else {
            iter_subst(t, pairs, (fuel - 1) as nat)
        }
    }
}

/// The number of rounds after which a circular substitution is cut off.
pub const MAX_SUBST_ROUNDS: u64 = 100;

/// Substitutes `${NAME}` references in `value` repeatedly until the text
/// stops changing, giving up after a fixed number of rounds so that
/// mutually referencing variables cannot loop forever.
pub fn recursive_substitute(value: &str, vars: &Vec<(String, String)>) -> (r: String)
    ensures
        r@ == iter_subst(value@, pairs_views(vars@), MAX_SUBST_ROUNDS as nat),
{
    let mut cur: Vec<char> = chars_of_str(value);
    let mut round: u64 = 0;
    while round < MAX_SUBST_ROUNDS
        invariant
            round <= MAX_SUBST_ROUNDS,
            iter_subst(value@, pairs_views(vars@), MAX_SUBST_ROUNDS as nat) == iter_subst(
                cur@,
                pairs_views(vars@),
                (MAX_SUBST_ROUNDS - round) as nat,
            ),
        decreases MAX_SUBST_ROUNDS - round,
    {
        let next = substitute_simple_chars(&cur, vars);
        if eq_chars(&next, &cur) {
            proof {
                assert(iter_subst(cur@, pairs_views(vars@), (MAX_SUBST_ROUNDS - round) as nat)
                    == cur@);
            }
            return string_from_chars(&cur);
        }
        cur = next;
        round += 1;
    }
    string_from_chars(&cur)
}

/// The key actually used for a map lookup: a `${KEY_VAR}` key expression
/// is looked up in the binding (an unbound key variable gives the empty
/// key); anything else is taken literally.
pub open spec fn resolve_key(key_expr: Seq<char>, binding: Seq<(Seq<char>, Seq<char>)>) -> Seq<
    char,
> {
    if key_expr.len() >= 3 && key_expr[0] == '$' && key_expr[1] == '{' && key_expr[key_expr.len()
        - 1] == '}' {
        match pairs_lookup(binding, key_expr.subrange(2, key_expr.len() - 1)) {
            Some(v) => v,
            None => Seq::empty(),
        }
    } else {
        key_expr
    }
}

/// What one matched `${NAME}[key]` pattern is rewritten to: the display
/// string of the map's scalar entry; the normalized pattern text for a
/// list-valued entry (a documented limitation, the list stays
/// unexpanded); the matched text itself when the variable is not a
/// plain map or has no such key.  Keeping the text on a miss is a
/// deliberate decision: the substitution engine is lenient throughout,
/// and rejecting names that no declaration carries is the
/// configuration loader's concern, not this pass's.
pub open spec fn map_rep(
    matched: Seq<char>,
    name: Seq<char>,
    key: Seq<char>,
    vars: Seq<Variable>,
) -> Seq<char> {
    match var_lookup(vars, name) {
        Some(CompleteVar::StandardMap(m)) => match bv_lookup(m@, key) {
            Some(BasicVar::Scalar(sc)) => scalar_str(sc),
            Some(BasicVar::List(_)) => pat_of(name) + seq!['['] + key + seq![']'],
            None => matched,
        },
        _ => matched,
    }
}

/// One left-to-right pass of map-lookup substitution: each
/// `${NAME}[KEY]` occurrence (non-empty NAME up to the first `}`,
/// non-empty KEY up to the first `]`) is rewritten by `map_rep`, and
/// scanning continues after the matched text.
pub open spec fn map_pass(
    s: Seq<char>,
    binding: Seq<(Seq<char>, Seq<char>)>,
    vars: Seq<Variable>,
) -> Seq<char>
    decreases s.len(),
{
    if s.len() < 2 {
        s
    } else if s[0] == '$' && s[1] == '{' {
        let j = find_char(s, '}', 2);
        if 2 < j && j + 1 < s.len() && s[j + 1] == '[' {
            let m = find_char(s, ']', j + 2);
            if j + 2 < m && m < s.len() {
                let name = s.subrange(2, j);
                let key = resolve_key(s.subrange(j + 2, m), binding);
                map_rep(s.subrange(0, m + 1), name, key, vars) + map_pass(
                    s.skip(m + 1),
                    binding,
                    vars,
                )
            } else {
                seq![s[0]] + map_pass(s.skip(1), binding, vars)
            }
        } else {
            seq![s[0]] + map_pass(s.skip(1), binding, vars)
        }
    } else {
        seq![s[0]] + map_pass(s.skip(1), binding, vars)
    }
}

/// Map substitution iterated to a textual fixed point (nested map
/// references resolve over the rounds), cut off after `fuel` rounds.
pub open spec fn map_iter(
    s: Seq<char>,
    binding: Seq<(Seq<char>, Seq<char>)>,
    vars: Seq<Variable>,
    fuel: nat,
) -> Seq<char>
    decreases fuel,
{
    if fuel == 0 {
        s
    } else {
        let t = map_pass(s, binding, vars);
        if t == s {
            s
        } else {
            map_iter(t, binding, vars, (fuel - 1) as nat)
        }
    }
}

/// Finds the basic variable bound to `key` in a plain map, first match
/// winning.
pub fn find_basic_var<'a>(entries: &'a Vec<(String, BasicVar)>, key: &String) -> (r: Option<
    &'a BasicVar,
>)
    ensures
        match bv_lookup(entries@, key@) {
            Some(b) => r matches Some(x) && *x == b,
            None => r is None,
        },
{
    let n: usize = entries.len();
    let mut i: usize = 0;
    proof {
        assert(entries@.skip(0) =~= entries@);
    }
    while i < n
        invariant
            n == entries@.len(),
            i <= n,
            bv_lookup(entries@, key@) == bv_lookup(entries@.skip(i as int), key@),
        decreases n - i,
    {
        let ghost rem = entries@.skip(i as int);
        proof {
            assert(rem[0] == entries@[i as int]);
            assert(rem.skip(1) =~= entries@.skip(i + 1));
        }
        if entries[i].0 == *key {
            return Some(&entries[i].1);
        }
        i += 1;
    }
    proof {
        assert(entries@.skip(n as int) =~= Seq::<(String, BasicVar)>::empty());
    }
    None
}

/// Copies a subrange of `cs` into a fresh vector.
pub fn copy_range(cs: &Vec<char>, from: usize, to: usize) -> (r: Vec<char>)
    requires
        from <= to <= cs@.len(),
    ensures
        r@ == cs@.subrange(from as int, to as int),
{
    let mut r: Vec<char> = Vec::new();
    let mut k: usize = from;
    while k < to
        invariant
            from <= k <= to <= cs@.len(),
            r@ == cs@.subrange(from as int, k as int),
        decreases to - k,
    {
        r.push(cs[k]);
        k += 1;
        proof {
            assert(r@ =~= cs@.subrange(from as int, k as int));
        }
    }
    r
}

/// One pass of map-lookup substitution over character vectors.
#[verifier::rlimit(60)]
fn map_pass_chars(cs: &Vec<char>, values: &Vec<(String, String)>, vars: &Vec<Variable>) -> (r:
    Vec<char>)
    ensures
        r@ == map_pass(cs@, pairs_views(values@), vars@),
{
    let ghost bv = pairs_views(values@);
    let n: usize = cs.len();
    let mut out: Vec<char> = Vec::new();
    let mut i: usize = 0;
    proof {
        assert(cs@.skip(0) =~= cs@);
        assert(out@ + map_pass(cs@, bv, vars@) =~= map_pass(cs@, bv, vars@));
    }
    while i < n
        invariant
            bv == pairs_views(values@),
            n == cs@.len(),
            i <= n,
            map_pass(cs@, bv, vars@) == out@ + map_pass(cs@.skip(i as int), bv, vars@),
        decreases n - i,
    {
        let ghost rem = cs@.skip(i as int);
        let mut matched: bool = false;
        if i + 1 < n && cs[i] == '$' && cs[i + 1] == '{' {
            // scan for the closing brace
            let mut j: usize = i + 2;
            while j < n && cs[j] != '}'
                invariant
                    n == cs@.len(),
                    i + 2 <= j <= n,
                    forall|k: int| i + 2 <= k < j ==> cs@[k] != '}',
                decreases n - j,
            {
                j += 1;
            }
            proof {
                assert forall|k: int| 2 <= k < j - i implies rem[k] != '}' by {
                    assert(rem[k] == cs@[i + k]);
                }
                crate::refs::lemma_find_char(rem, '}', 2);
                if j < n {
                    assert(rem[j - i] == cs@[j as int]);
                    if find_char(rem, '}', 2) != j - i {
                        let f = find_char(rem, '}', 2);
                        if f == -1 {
                            assert(rem[j - i] != '}');
                        } else if f < j - i {
                            assert(rem[f] != '}');
                        } else {
                            assert(rem[j - i] != '}');
                        }
                        assert(false);
                    }
                } else {
                    if find_char(rem, '}', 2) != -1 {
                        let f = find_char(rem, '}', 2);
                        assert(rem[f] == '}');
                        assert(false);
                    }
                }
            }
            if j < n && j > i + 2 && j + 1 < n && cs[j + 1] == '[' {
                // scan for the closing bracket
                let mut m: usize = j + 2;
                while m < n && cs[m] != ']'
                    invariant
                        n == cs@.len(),
                        j + 2 <= m <= n,
                        forall|k: int| j + 2 <= k < m ==> cs@[k] != ']',
                    decreases n - m,
                {
                    m += 1;
                }
                proof {
                    assert forall|k: int| j - i + 2 <= k < m - i implies rem[k] != ']' by {
                        assert(rem[k] == cs@[i + k]);
                    }
                    crate::refs::lemma_find_char(rem, ']', j - i + 2);
                    if m < n {
                        assert(rem[m - i] == cs@[m as int]);
                        if find_char(rem, ']', j - i + 2) != m - i {
                            let f = find_char(rem, ']', j - i + 2);
                            if f == -1 {
                                assert(rem[m - i] != ']');
                            } else if f < m - i {
                                assert(rem[f] != ']');
                            } else {
                                assert(rem[m - i] != ']');
                            }
                            assert(false);
                        }
                    } else {
                        if find_char(rem, ']', j - i + 2) != -1 {
                            let f = find_char(rem, ']', j - i + 2);
                            assert(rem[f] == ']');
                            assert(false);
                        }
                    }
                }
                if m < n && m > j + 2 {
                    matched = true;
                    // the full pattern sits at position i
                    proof {
                        assert(rem[0] == '$' && rem[1] == '{');
                        assert(find_char(rem, '}', 2) == j - i);
                        assert(rem[j - i + 1] == cs@[j + 1]);
                        assert(find_char(rem, ']', j - i + 2) == m - i);
                    }
                    let name_cs = copy_range(cs, i + 2, j);
                    let key_expr_cs = copy_range(cs, j + 2, m);
                    proof {
                        assert(name_cs@ =~= rem.subrange(2, j - i));
                        assert(key_expr_cs@ =~= rem.subrange(j - i + 2, m - i));
                    }
                    // resolve the key expression
                    let kn: usize = key_expr_cs.len();
                    let key_cs: Vec<char> = if kn >= 3 && key_expr_cs[0] == '$' && key_expr_cs[1]
                        == '{' && key_expr_cs[kn - 1] == '}' {
                        let kv_cs = copy_range(&key_expr_cs, 2, kn - 1);
                        let kv_name = string_from_chars(&kv_cs);
                        proof {
                            assert(kv_name@ =~= key_expr_cs@.subrange(2, key_expr_cs@.len() - 1));
                        }
                        match lookup_value(values, &kv_name) {
                            Some(v) => chars_of_str(v.as_str()),
                            None => Vec::new(),
                        }
                    } else {
                        clone_chars(&key_expr_cs)
                    };
                    proof {
                        assert(key_cs@ == resolve_key(key_expr_cs@, bv));
                    }
                    // look the key up in the named map
                    let name_str = string_from_chars(&name_cs);
                    let key_str = string_from_chars(&key_cs);
                    let ghost mtext = rem.subrange(0, m - i + 1);
                    proof {
                        assert(mtext =~= cs@.subrange(i as int, m + 1));
                    }
                    let rep_cs: Vec<char> = match find_variable(vars, &name_str) {
                        Some(CompleteVar::StandardMap(mv)) => {
                            match find_basic_var(mv, &key_str) {
                                Some(BasicVar::Scalar(sc)) => {
                                    let t = match scalar_to_string(sc) {
                                        Some(t) => t,
                                        None => {
                                            proof {
                                                assert(false);
                                            }
                                            String::new()
                                        },
                                    };
                                    chars_of_str(t.as_str())
                                },
                                Some(BasicVar::List(_)) => {
                                    // a list-valued entry stays as the
                                    // normalized pattern text
                                    let mut p = pat_chars(&name_str);
                                    p.push('[');
                                    append_chars(&mut p, &key_cs);
                                    p.push(']');
                                    proof {
                                        assert(p@ =~= pat_of(name_cs@) + seq!['['] + key_cs@
                                            + seq![']']);
                                    }
                                    p
                                },
                                None => copy_range(cs, i, m + 1),
                            }
                        },
                        _ => copy_range(cs, i, m + 1),
                    };
                    proof {
                        assert(rep_cs@ == map_rep(mtext, name_cs@, key_cs@, vars@));
                        assert(rem.skip(m - i + 1) =~= cs@.skip(m + 1));
                        assert(map_pass(rem, bv, vars@) == map_rep(
                            mtext,
                            rem.subrange(2, j - i),
                            resolve_key(rem.subrange(j - i + 2, m - i), bv),
                            vars@,
                        ) + map_pass(rem.skip(m - i + 1), bv, vars@));
                    }
                    append_chars(&mut out, &rep_cs);
                    i = m + 1;
                }
            }
        }
        if !matched {
            proof {
                if rem.len() >= 2 && rem[0] == '$' && rem[1] == '{' {
                    // the pattern did not complete: one character moves
                    assert(rem.skip(1) =~= cs@.skip(i + 1));
                } else if rem.len() >= 2 {
                    assert(rem[0] == cs@[i as int]);
                    assert(rem[1] == cs@[i + 1]);
                    assert(rem.skip(1) =~= cs@.skip(i + 1));
                } else {
                    assert(rem.len() == 1);
                    assert(rem.skip(1) =~= cs@.skip(i + 1));
                    assert(map_pass(rem.skip(1), bv, vars@) =~= Seq::<char>::empty());
                }
                assert(seq![rem[0]] + map_pass(rem.skip(1), bv, vars@) == map_pass(
                    rem,
                    bv,
                    vars@,
                ));
            }
            let c = cs[i];
            let ghost opre = out@;
            out.push(c);
            i += 1;
            proof {
                assert(out@ =~= opre + seq![rem[0]]);
                assert(out@ + map_pass(cs@.skip(i as int), bv, vars@) =~= opre + (seq![rem[0]]
                    + map_pass(cs@.skip(i as int), bv, vars@)));
            }
        }
    }
    proof {
        assert(cs@.skip(n as int) =~= Seq::<char>::empty());
        assert(out@ + Seq::<char>::empty() =~= out@);
    }
    out
}


/// The string substitution engine.
pub struct Substitutor;

impl Substitutor {
    /// Simple `${NAME}` substitution with the given binding.
    pub fn substitute_simple(template: &String, values: &Vec<(String, String)>) -> (r: String)
        ensures
            r@ == subst_simple(template@, pairs_views(values@)),
    {
        let cs = chars_of_str(template.as_str());
        let out = substitute_simple_chars(&cs, values);
        string_from_chars(&out)
    }

    /// Map-lookup substitution `${MAP}[KEY]`, repeated until nothing is
    /// rewritten any more (nested references resolve over the rounds),
    /// with a round cap guarding against cyclic maps.
    pub fn substitute_maps(
        template: &String,
        values: &Vec<(String, String)>,
        vars: &Vec<Variable>,
    ) -> (r: String)
        ensures
            r@ == map_iter(
                template@,
                pairs_views(values@),
                vars@,
                MAX_SUBST_ROUNDS as nat,
            ),
    {
        let mut cur: Vec<char> = chars_of_str(template.as_str());
        let mut round: u64 = 0;
        while round < MAX_SUBST_ROUNDS
            invariant
                round <= MAX_SUBST_ROUNDS,
                map_iter(template@, pairs_views(values@), vars@, MAX_SUBST_ROUNDS as nat)
                    == map_iter(
                    cur@,
                    pairs_views(values@),
                    vars@,
                    (MAX_SUBST_ROUNDS - round) as nat,
                ),
            decreases MAX_SUBST_ROUNDS - round,
        {
            let next = map_pass_chars(&cur, values, vars);
            if eq_chars(&next, &cur) {
                proof {
                    assert(map_iter(
                        cur@,
                        pairs_views(values@),
                        vars@,
                        (MAX_SUBST_ROUNDS - round) as nat,
                    ) == cur@);
                }
                return string_from_chars(&cur);
            }
            cur = next;
            round += 1;
        }
        string_from_chars(&cur)
    }

    /// Map-lookup substitution first, then simple substitution.
    pub fn substitute(
        template: &String,
        values: &Vec<(String, String)>,
        vars: &Vec<Variable>,
    ) -> (r: String)
        ensures
            r@ == subst_simple(
                map_iter(template@, pairs_views(values@), vars@, MAX_SUBST_ROUNDS as nat),
                pairs_views(values@),
            ),
    {
        let after_maps = Self::substitute_maps(template, values, vars);
        Self::substitute_simple(&after_maps, values)
    }
}

/// Compares two bindings entry by entry.
pub fn eq_pairs(a: &Vec<(String, String)>, b: &Vec<(String, String)>) -> (r: bool)
    ensures
        r == (pairs_views(a@) == pairs_views(b@)),
{
    if a.len() != b.len() {
        proof {
            assert(pairs_views(a@).len() != pairs_views(b@).len());
        }
        return false;
    }
    let n: usize = a.len();
    let mut i: usize = 0;
    while i < n
        invariant
            n == a@.len() == b@.len(),
            i <= n,
            forall|k: int| 0 <= k < i ==> pairs_views(a@)[k] == pairs_views(b@)[k],
        decreases n - i,
    {
        if !(a[i].0 == b[i].0 && a[i].1 == b[i].1) {
            proof {
                assert(pairs_views(a@)[i as int] != pairs_views(b@)[i as int]);
            }
            return false;
        }
        proof {
            assert(pairs_views(a@)[i as int] == pairs_views(b@)[i as int]);
        }
        i += 1;
    }
    proof {
        assert(pairs_views(a@) =~= pairs_views(b@));
    }
    true
}

/// One sequential pass of dependent-variable resolution, starting at
/// entry `i`: each dependent entry's value is re-substituted against
/// the current state, updates becoming visible to later entries of the
/// same pass.
pub open spec fn resolve_pass_from(
    entries: Seq<(Seq<char>, Seq<char>)>,
    gents: Seq<(String, Vec<String>)>,
    i: int,
) -> Seq<(Seq<char>, Seq<char>)>
    decreases entries.len() - i,
{
    if i < 0 || i >= entries.len() {
        entries
    } else {
        let e = entries[i];
        let e2 = if crate::graph::dg_deps(gents, e.0).len() != 0 {
            (e.0, subst_simple(e.1, entries))
        } else {
            e
        };
        resolve_pass_from(entries.update(i, e2), gents, i + 1)
    }
}

/// Dependent-variable resolution iterated to a textual fixed point,
/// cut off after `fuel` rounds (a possible cycle is then left in its
/// best-effort, partially substituted state).
pub open spec fn resolve_iter(
    entries: Seq<(Seq<char>, Seq<char>)>,
    gents: Seq<(String, Vec<String>)>,
    fuel: nat,
) -> Seq<(Seq<char>, Seq<char>)>
    decreases fuel,
{
    if fuel == 0 {
        entries
    } else {
        let t = resolve_pass_from(entries, gents, 0);
        if t == entries {
            entries
        } else {
            resolve_iter(t, gents, (fuel - 1) as nat)
        }
    }
}

/// One resolution pass over the binding.
fn resolve_pass(values: &Vec<(String, String)>, dep_graph: &crate::graph::DependencyGraph) -> (r:
    Vec<(String, String)>)
    ensures
        pairs_views(r@) == resolve_pass_from(pairs_views(values@), dep_graph.entries@, 0),
{
    let mut cur: Vec<(String, String)> = crate::cart::clone_pairs(values);
    let n: usize = cur.len();
    let mut i: usize = 0;
    proof {
        assert(pairs_views(cur@) == pairs_views(values@));
    }
    while i < n
        invariant
            n == cur@.len(),
            i <= n,
            resolve_pass_from(pairs_views(values@), dep_graph.entries@, 0) == resolve_pass_from(
                pairs_views(cur@),
                dep_graph.entries@,
                i as int,
            ),
        decreases n - i,
    {
        let ghost ev = pairs_views(cur@);
        let name = cur[i].0.clone();
        if dep_graph.has_dependencies(&name) {
            let nv = substitute_entry_value(&cur, i);
            let ghost pre = cur@;
            cur[i] = (name, nv);
            proof {
                assert(cur@ == pre.update(i as int, cur@[i as int]));
                assert(pairs_views(cur@) =~= ev.update(
                    i as int,
                    (ev[i as int].0, subst_simple(ev[i as int].1, ev)),
                ));
            }
        } else {
            proof {
                assert(ev.update(i as int, ev[i as int]) =~= ev);
            }
        }
        i += 1;
    }
    proof {
        assert(resolve_pass_from(pairs_views(cur@), dep_graph.entries@, n as int) == pairs_views(
            cur@,
        ));
    }
    cur
}

/// Substitutes the binding into its own entry `i`'s value.
fn substitute_entry_value(cur: &Vec<(String, String)>, i: usize) -> (r: String)
    requires
        i < cur@.len(),
    ensures
        r@ == subst_simple(pairs_views(cur@)[i as int].1, pairs_views(cur@)),
{
    let cs = chars_of_str(cur[i].1.as_str());
    let out = substitute_simple_chars(&cs, cur);
    string_from_chars(&out)
}

/// Resolves dependent variables' own values to a fixed point: a value
/// such as `${BASE}_world` becomes concrete once `BASE` is known.  On
/// hitting the round cap the last state wins.
pub fn resolve_dependencies(
    values: &Vec<(String, String)>,
    dep_graph: &crate::graph::DependencyGraph,
) -> (r: Vec<(String, String)>)
    ensures
        pairs_views(r@) == resolve_iter(
            pairs_views(values@),
            dep_graph.entries@,
            MAX_SUBST_ROUNDS as nat,
        ),
{
    let mut cur: Vec<(String, String)> = crate::cart::clone_pairs(values);
    let mut round: u64 = 0;
    proof {
        assert(pairs_views(cur@) == pairs_views(values@));
    }
    while round < MAX_SUBST_ROUNDS
        invariant
            round <= MAX_SUBST_ROUNDS,
            resolve_iter(pairs_views(values@), dep_graph.entries@, MAX_SUBST_ROUNDS as nat)
                == resolve_iter(
                pairs_views(cur@),
                dep_graph.entries@,
                (MAX_SUBST_ROUNDS - round) as nat,
            ),
        decreases MAX_SUBST_ROUNDS - round,
    {
        let next = resolve_pass(&cur, dep_graph);
        if eq_pairs(&next, &cur) {
            proof {
                assert(resolve_iter(
                    pairs_views(cur@),
                    dep_graph.entries@,
                    (MAX_SUBST_ROUNDS - round) as nat,
                ) == pairs_views(cur@));
            }
            return cur;
        }
        cur = next;
        round += 1;
    }
    cur
}

/// The first value a dependent variable contributes to the binding
/// before resolution: its display string for a scalar, the first
/// element for a list, nothing for the map shapes.
pub open spec fn initial_value(cv: CompleteVar) -> Option<Seq<char>> {
    match cv {
        CompleteVar::Scalar(s) => Some(scalar_str(s)),
        CompleteVar::List(l) => if l@.len() > 0 {
            Some(scalar_str(l@[0]))
        } else {
            None
        },
        CompleteVar::StandardMap(_) => None,
        CompleteVar::ClusterMap(_) => None,
    }
}

/// Renders one variable's initial value.
pub fn get_initial_value(cv: &CompleteVar) -> (r: Option<String>)
    ensures
        match initial_value(*cv) {
            Some(v) => r matches Some(x) && x@ == v,
            None => r is None,
        },
{
    match cv {
        CompleteVar::Scalar(s) => scalar_to_string(s),
        CompleteVar::List(l) => {
            if l.len() > 0 {
                scalar_to_string(&l[0])
            } else {
                None
            }
        },
        CompleteVar::StandardMap(_) => None,
        CompleteVar::ClusterMap(_) => None,
    }
}

/// The binding extended with an initial value for every dependent
/// variable that is not already bound, in declaration order from
/// variable `i` on.
pub open spec fn augment_from(
    binding: Seq<(Seq<char>, Seq<char>)>,
    vars: Seq<Variable>,
    gents: Seq<(String, Vec<String>)>,
    i: int,
) -> Seq<(Seq<char>, Seq<char>)>
    decreases vars.len() - i,
{
    if i < 0 || i >= vars.len() {
        binding
    } else {
        let v = vars[i];
        let b2 = if pairs_lookup(binding, v.name@) is None && crate::graph::dg_deps(
            gents,
            v.name@,
        ).len() != 0 {
            match initial_value(v.contents) {
                Some(iv) => binding.push((v.name@, iv)),
                None => binding,
            }
        } else {
            binding
        };
        augment_from(b2, vars, gents, i + 1)
    }
}

/// Adds every unbound dependent variable's initial value to the
/// binding.
pub fn augment_binding(
    values: &Vec<(String, String)>,
    vars: &Vec<Variable>,
    dep_graph: &crate::graph::DependencyGraph,
) -> (r: Vec<(String, String)>)
    ensures
        pairs_views(r@) == augment_from(pairs_views(values@), vars@, dep_graph.entries@, 0),
{
    let mut cur: Vec<(String, String)> = crate::cart::clone_pairs(values);
    let n: usize = vars.len();
    let mut i: usize = 0;
    proof {
        assert(pairs_views(cur@) == pairs_views(values@));
    }
    while i < n
        invariant
            n == vars@.len(),
            i <= n,
            augment_from(pairs_views(values@), vars@, dep_graph.entries@, 0) == augment_from(
                pairs_views(cur@),
                vars@,
                dep_graph.entries@,
                i as int,
            ),
        decreases n - i,
    {
        let ghost ev = pairs_views(cur@);
        let bound = match lookup_value(&cur, &vars[i].name) {
            Some(_) => true,
            None => false,
        };
        if !bound && dep_graph.has_dependencies(&vars[i].name) {
            match get_initial_value(&vars[i].contents) {
                Some(iv) => {
                    let ghost pre = cur@;
                    cur.push((vars[i].name.clone(), iv));
                    proof {
                        assert(pairs_views(cur@) =~= ev.push(
                            (vars@[i as int].name@, initial_value(vars@[i as int].contents)
                                ->Some_0),
                        ));
                    }
                },
                None => {},
            }
        }
        i += 1;
    }
    cur
}

/// The fully substituted text for one binding, before expression
/// evaluation: unbound dependent variables join the binding with their
/// initial values, the binding is resolved to a fixed point, then
/// simple substitution and map-lookup substitution run in that order.
pub open spec fn substituted(
    template: Seq<char>,
    binding: Seq<(Seq<char>, Seq<char>)>,
    vars: Seq<Variable>,
    gents: Seq<(String, Vec<String>)>,
) -> Seq<char> {
    let b = augment_from(binding, vars, gents, 0);
    let res = resolve_iter(b, gents, MAX_SUBST_ROUNDS as nat);
    let t1 = subst_simple(template, res);
    map_iter(t1, res, vars, MAX_SUBST_ROUNDS as nat)
}

/// Produces the final text of one template string under one binding:
/// dependent variables are resolved, `${NAME}` references and
/// `${MAP}[KEY]` lookups are substituted, and any `@py` expressions in
/// the substituted text are evaluated last, so that expression bodies
/// see resolved values.  The result is always a splice of the
/// substituted text, and exactly that text when it holds no
/// expression delimiter.
pub fn substitute_and_evaluate(
    template: &String,
    values: &Vec<(String, String)>,
    vars: &Vec<Variable>,
    dep_graph: &crate::graph::DependencyGraph,
    python_header: &Option<String>,
) -> (r: String)
    ensures
        crate::pyexpr::evaluated(
            substituted(template@, pairs_views(values@), vars@, dep_graph.entries@),
            r@,
        ),
{
    let all_values = augment_binding(values, vars, dep_graph);
    let resolved_values = resolve_dependencies(&all_values, dep_graph);
    let result = Substitutor::substitute_simple(template, &resolved_values);
    let result = Substitutor::substitute_maps(&result, &resolved_values, vars);
    let cs = chars_of_str(result.as_str());
    let tok = crate::pyexpr::py_token();
    if contains_chars(&cs, &tok) {
        crate::pyexpr::PythonEvaluator::evaluate(&result, python_header)
    } else {
        proof {
            crate::pyexpr::lemma_no_token_splice(
                result@,
                Seq::<Option<Seq<char>>>::empty(),
            );
        }
        result
    }
}

} // verus!
