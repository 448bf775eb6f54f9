//! Scanning template text for `${IDENT}` variable references.
//!
//! The scan is character-by-character: `${` opens a reference, the next
//! `}` closes it, and the non-empty text between is the referenced name.
//! A stray `$`, an empty `${}` or an unclosed `${` is simply not a
//! reference; no error is raised.

use vstd::prelude::*;

verus! {

/// Index of the first occurrence of `c` in `s` at or after `from`, or
/// -1 when there is none.
pub open spec fn find_char(s: Seq<char>, c: char, from: int) -> int
    decreases s.len() - from,
{
    if from >= s.len() {
        -1
    } else if s[from] == c {
        from
    } else {
        find_char(s, c, from + 1)
    }
}

/// Characterization of `find_char`.
pub proof fn lemma_find_char(s: Seq<char>, c: char, from: int)
    requires
        0 <= from,
    ensures
        find_char(s, c, from) == -1 ==> forall|k: int| from <= k < s.len() ==> s[k] != c,
        find_char(s, c, from) != -1 ==> {
            let r = find_char(s, c, from);
            &&& from <= r < s.len()
            &&& s[r] == c
            &&& forall|k: int| from <= k < r ==> s[k] != c
        },
    decreases s.len() - from,
{
    if from >= s.len() {
    } else if s[from] == c {
    } else {
        lemma_find_char(s, c, from + 1);
    }
}

/// The names referenced by `s`, in order of occurrence, empty names
/// dropped, the text after an unclosed `${` ignored.
pub open spec fn scan_refs(s: Seq<char>) -> Seq<Seq<char>>
    decreases s.len(),
{
    if s.len() < 2 {
        Seq::empty()
    } else if s[0] == '$' && s[1] == '{' {
        let j = find_char(s, '}', 2);
        if 2 <= j < s.len() {
            if j > 2 {
                seq![s.subrange(2, j)] + scan_refs(s.skip(j + 1))
            } else {
                scan_refs(s.skip(j + 1))
            }
        } else {
            Seq::empty()
        }
    } else {
        scan_refs(s.skip(1))
    }
}

/// True when `s` references the name `name`.
pub open spec fn references(s: Seq<char>, name: Seq<char>) -> bool {
    scan_refs(s).contains(name)
}

/// The views of a vector of strings.
pub open spec fn strs_views(v: Seq<String>) -> Seq<Seq<char>> {
    v.map_values(|s: String| s@)
}

/// Scans `value` for `${NAME}` references and returns the referenced
/// names in order of occurrence, or `None` when there are none.
pub fn get_variables_dependency(value: &String) -> (r: Option<Vec<String>>)
    ensures
        scan_refs(value@).len() == 0 <==> r is None,
        r matches Some(v) ==> strs_views(v@) == scan_refs(value@),
{
    let cs = crate::chars::chars_of_str(value.as_str());
    let n: usize = cs.len();
    let mut names: Vec<String> = Vec::new();
    let mut i: usize = 0;
    proof {
        assert(cs@.skip(0) =~= cs@);
        assert(strs_views(names@) =~= Seq::<Seq<char>>::empty());
        assert(strs_views(names@) + scan_refs(cs@) =~= scan_refs(cs@));
    }
    while i < n
        invariant
            n == cs@.len(),
            cs@ == value@,
            i <= n,
            scan_refs(value@) == strs_views(names@) + scan_refs(cs@.skip(i as int)),
        decreases n - i,
    {
        let ghost rem = cs@.skip(i as int);
        if i + 1 < n && cs[i] == '$' && cs[i + 1] == '{' {
            proof {
                assert(rem[0] == '$' && rem[1] == '{');
            }
            // scan for the closing brace
            let mut j: usize = i + 2;
            while j < n && cs[j] != '}'
                invariant
                    n == cs@.len(),
                    i + 2 <= j <= n,
                    forall|k: int| i + 2 <= k < j ==> cs@[k] != '}',
                decreases n - j,
            {
                j += 1;
            }
            if j < n {
                // closing brace found at j
                proof {
                    assert(cs@[j as int] == '}');
                    assert forall|k: int| 2 <= k < j - i implies rem[k] != '}' by {
                        assert(rem[k] == cs@[i + k]);
                    }
                    assert(rem[j - i] == cs@[j as int]);
                    lemma_find_char(rem, '}', 2);
                    if find_char(rem, '}', 2) != j - i {
                        let f = find_char(rem, '}', 2);
                        if f == -1 {
                            assert(rem[j - i] != '}');
                        } else if f < j - i {
                            assert(rem[f] != '}');
                        } else {
                            assert(rem[j - i] != '}');
                        }
                        assert(false);
                    }
                }
                if j > i + 2 {
                    // non-empty name
                    let mut name_cs: Vec<char> = Vec::new();
                    let mut k: usize = i + 2;
                    while k < j
                        invariant
                            n == cs@.len(),
                            i + 2 <= k <= j <= n,
                            name_cs@ == cs@.subrange(i + 2, k as int),
                        decreases j - k,
                    {
                        name_cs.push(cs[k]);
                        k += 1;
                        proof {
                            assert(name_cs@ =~= cs@.subrange(i + 2, k as int));
                        }
                    }
                    let name = crate::chars::string_from_chars(&name_cs);
                    let ghost old_names = names@;
                    names.push(name);
                    proof {
                        assert(rem.subrange(2, j - i) =~= cs@.subrange(i + 2, j as int));
                        assert(rem.skip(j - i + 1) =~= cs@.skip(j + 1));
                        assert(scan_refs(rem) == seq![rem.subrange(2, j - i)] + scan_refs(
                            rem.skip(j - i + 1),
                        ));
                        assert(strs_views(names@) =~= strs_views(old_names) + seq![name@]);
                        assert(strs_views(old_names) + (seq![name@] + scan_refs(cs@.skip(j + 1)))
                            =~= (strs_views(old_names) + seq![name@]) + scan_refs(cs@.skip(j + 1)));
                    }
                    i = j + 1;
                } else {
                    // empty ${}: dropped
                    proof {
                        assert(rem.skip(j - i + 1) =~= cs@.skip(j + 1));
                        assert(scan_refs(rem) == scan_refs(rem.skip(j - i + 1)));
                    }
                    i = j + 1;
                }
            } else {
                // unclosed ${ : nothing more is recognized
                proof {
                    assert forall|k: int| 2 <= k < rem.len() implies rem[k] != '}' by {
                        assert(rem[k] == cs@[i + k]);
                    }
                    lemma_find_char(rem, '}', 2);
                    if find_char(rem, '}', 2) != -1 {
                        let f = find_char(rem, '}', 2);
                        assert(rem[f] == '}');
                        assert(false);
                    }
                    assert(scan_refs(rem) =~= Seq::<Seq<char>>::empty());
                    assert(cs@.skip(n as int) =~= Seq::<char>::empty());
                    assert(strs_views(names@) + scan_refs(cs@.skip(n as int)) =~= strs_views(
                        names@,
                    ));
                    assert(strs_views(names@) + scan_refs(rem) =~= strs_views(names@));
                }
                i = n;
            }
        } else {
            proof {
                if rem.len() >= 2 {
                    assert(rem[0] == cs@[i as int]);
                    assert(rem[1] == cs@[i + 1]);
                    assert(!(rem[0] == '$' && rem[1] == '{'));
                } else {
                    assert(scan_refs(rem) =~= Seq::<Seq<char>>::empty());
                    assert(scan_refs(rem.skip(1)) =~= Seq::<Seq<char>>::empty());
                }
                assert(rem.skip(1) =~= cs@.skip(i + 1));
            }
            i += 1;
        }
    }
    proof {
        assert(cs@.skip(n as int) =~= Seq::<char>::empty());
        assert(strs_views(names@) + scan_refs(cs@.skip(n as int)) =~= strs_views(names@));
    }
    if names.len() == 0 {
        proof {
            assert(strs_views(names@) =~= Seq::<Seq<char>>::empty());
        }
        None
    } else {
        proof {
            assert(strs_views(names@).len() == names@.len());
        }
        Some(names)
    }
}

} // verus!
