//! Embedded dynamic expressions: a `@py` token followed by whitespace
//! opens an expression that runs to the next `@py` token, or to the end
//! of the string.  The already-substituted expression text is handed to
//! the Python interpreter, and the textual result replaces the span
//! from the opening token through the trimmed end of the expression
//! body; whitespace separating the body from the next token stays, and
//! a bare token with no whitespace after it is ordinary text.  A
//! failing expression leaves its span unchanged, so one broken
//! expression never aborts job generation.

use vstd::prelude::*;
use crate::chars::{occurs, occurs_at, contains_chars, append_chars, chars_of_str,
    string_from_chars};
use vstd::string::StringSliceAdditionalSpecFns;

verus! {

/// The expression delimiter token.
pub open spec fn pat_py() -> Seq<char> {
    seq!['@', 'p', 'y']
}

/// Builds the delimiter token.
pub fn py_token() -> (r: Vec<char>)
    ensures
        r@ == pat_py(),
{
    let mut r: Vec<char> = Vec::new();
    r.push('@');
    r.push('p');
    r.push('y');
    proof {
        assert(r@ =~= pat_py());
    }
    r
}

/// Whitespace, as the expression grammar understands it.
pub open spec fn is_space(c: char) -> bool {
    c == ' ' || c == '\t' || c == '\n' || c == '\r' || c == '\u{b}' || c == '\u{c}'
}

/// Tests one character for whitespace.
pub fn space_char(c: char) -> (r: bool)
    ensures
        r == is_space(c),
{
    c == ' ' || c == '\t' || c == '\n' || c == '\r' || c == '\u{b}' || c == '\u{c}'
}

/// The index of the first delimiter token at or after `from`, or -1
/// when there is none.
pub open spec fn find_pat(s: Seq<char>, from: int) -> int
    decreases s.len() - from,
{
    if from < 0 || from + 3 > s.len() {
        -1
    } else if s.subrange(from, from + 3) == pat_py() {
        from
    } else {
        find_pat(s, from + 1)
    }
}

/// Characterization of `find_pat`.
pub proof fn lemma_find_pat(s: Seq<char>, from: int)
    requires
        0 <= from,
    ensures
        find_pat(s, from) == -1 ==> forall|k: int|
            from <= k && k + 3 <= s.len() ==> #[trigger] s.subrange(k, k + 3) != pat_py(),
        find_pat(s, from) != -1 ==> {
            let r = find_pat(s, from);
            &&& from <= r && r + 3 <= s.len()
            &&& s.subrange(r, r + 3) == pat_py()
            &&& forall|k: int| from <= k < r ==> #[trigger] s.subrange(k, k + 3) != pat_py()
        },
    decreases s.len() - from,
{
    if from + 3 > s.len() {
    } else if s.subrange(from, from + 3) == pat_py() {
    } else {
        lemma_find_pat(s, from + 1);
    }
}

/// A text without the delimiter token has no token position.
pub proof fn lemma_no_token_no_pat(s: Seq<char>)
    requires
        !occurs(s, pat_py()),
    ensures
        find_pat(s, 0) == -1,
{
    lemma_find_pat(s, 0);
    if find_pat(s, 0) != -1 {
        let r = find_pat(s, 0);
        assert(occurs_at(s, pat_py(), r));
    }
}

/// The end of `s[b..e]` with trailing whitespace dropped.
pub open spec fn trim_end_from(s: Seq<char>, b: int, e: int) -> int
    decreases e - b,
{
    if e <= b {
        e
    } else if is_space(s[e - 1]) {
        trim_end_from(s, b, e - 1)
    } else {
        e
    }
}

/// `s` with its leading whitespace dropped.
pub open spec fn trim_front(s: Seq<char>) -> Seq<char>
    decreases s.len(),
{
    if s.len() > 0 && is_space(s[0]) {
        trim_front(s.skip(1))
    } else {
        s
    }
}

/// `s` with its trailing whitespace dropped.
pub open spec fn trim_back(s: Seq<char>) -> Seq<char>
    decreases s.len(),
{
    if s.len() > 0 && is_space(s[s.len() - 1]) {
        trim_back(s.take(s.len() - 1))
    } else {
        s
    }
}

/// `s` with leading and trailing whitespace dropped.
pub open spec fn trimmed(s: Seq<char>) -> Seq<char> {
    trim_back(trim_front(s))
}

/// The template with each expression span replaced by its outcome:
/// scanning left to right, a token followed by whitespace opens a
/// span that runs to the next token or the end; the region from the
/// opening token through the trimmed end of the expression body is
/// replaced by the outcome's text on success and kept as it stands on
/// failure; a bare token without following whitespace is ordinary
/// text.  Literal text, in particular everything before the first
/// token, is never touched.
pub open spec fn splice(s: Seq<char>, outs: Seq<Option<Seq<char>>>) -> Seq<char>
    decreases s.len(),
{
    let p = find_pat(s, 0);
    if p < 0 || p + 3 > s.len() {
        s
    } else if p + 3 == s.len() || !is_space(s[p + 3]) {
        s.subrange(0, p + 3) + splice(s.skip(p + 3), outs)
    } else if outs.len() == 0 {
        s
    } else {
        let q = find_pat(s, p + 3);
        let qq = if q < 0 || q > s.len() {
            s.len() as int
        } else {
            q
        };
        let te = trim_end_from(s, p + 3, qq);
        let tee = if te < p + 3 {
            p + 3
        } else if te > s.len() {
            s.len() as int
        } else {
            te
        };
        let rep = match outs[0] {
            Some(v) => v,
            None => s.subrange(p, tee),
        };
        s.subrange(0, p) + rep + splice(s.skip(tee), outs.skip(1))
    }
}

/// A text without the delimiter token splices to itself, whatever the
/// outcomes.
pub proof fn lemma_no_token_splice(s: Seq<char>, outs: Seq<Option<Seq<char>>>)
    requires
        !occurs(s, pat_py()),
    ensures
        splice(s, outs) == s,
{
    lemma_no_token_no_pat(s);
}

/// What an evaluated text is: the template with every expression span
/// replaced by some interpreter outcome (a text on success, the span
/// itself on failure), and the unchanged template whenever it holds no
/// delimiter token at all.
pub open spec fn evaluated(template: Seq<char>, out: Seq<char>) -> bool {
    &&& !occurs(template, pat_py()) ==> out == template
    &&& exists|outs: Seq<Option<Seq<char>>>| out == splice(template, outs)
}

/// Appends `s.push(0)` as UTF-8 bytes with a terminating zero, ready
/// for the interpreter.
fn nul_terminated(s: &str) -> (r: Vec<u8>)
    ensures
        r@ == s.spec_bytes().push(0u8),
{
    let mut v = vstd::slice::slice_to_vec(s.as_bytes());
    v.push(0);
    v
}

/// Relies on pyo3's `Python::initialize`, `Python::attach`,
/// `Python::run` and `Python::eval`: runs the zero-terminated `header`
/// snippet, then evaluates the zero-terminated `expr` as one Python
/// expression in the same scope, and returns the result's text, or the
/// interpreter's error text.  A byte vector holding an interior zero is
/// rejected as an error.
#[verifier::external_body]
fn py_eval_raw(header: &Vec<u8>, expr: &Vec<u8>) -> (r: Result<String, String>) {
    pyo3::Python::initialize();
    pyo3::Python::attach(|py| {
        let l = pyo3::types::PyDict::new(py);
        let h = core::ffi::CStr::from_bytes_with_nul(header).map_err(|e| e.to_string())?;
        let x = core::ffi::CStr::from_bytes_with_nul(expr).map_err(|e| e.to_string())?;
        py.run(h, None, Some(&l)).map_err(|e| e.to_string())?;
        Ok(py.eval(x, None, Some(&l)).map_err(|e| e.to_string())?.to_string())
    })
}

/// Trims leading and trailing whitespace off `cs[from..to]`.
pub fn trim_chars(cs: &Vec<char>, from: usize, to: usize) -> (r: Vec<char>)
    requires
        from <= to <= cs@.len(),
    ensures
        r@ == trimmed(cs@.subrange(from as int, to as int)),
{
    let mut a: usize = from;
    let mut b: usize = to;
    proof {
        assert(cs@.subrange(from as int, to as int) =~= cs@.subrange(a as int, to as int));
    }
    while a < b && space_char(cs[a])
        invariant
            from <= a <= b <= cs@.len(),
            b == to,
            trim_front(cs@.subrange(from as int, to as int)) == trim_front(
                cs@.subrange(a as int, to as int),
            ),
        decreases b - a,
    {
        proof {
            let cur = cs@.subrange(a as int, to as int);
            assert(cur[0] == cs@[a as int]);
            assert(cur.skip(1) =~= cs@.subrange(a + 1, to as int));
        }
        a += 1;
    }
    proof {
        let cur = cs@.subrange(a as int, to as int);
        if a < b {
            assert(cur[0] == cs@[a as int]);
            assert(trim_front(cur) == cur);
        } else {
            assert(cur.len() == 0);
            assert(trim_front(cur) == cur);
        }
    }
    while b > a && space_char(cs[b - 1])
        invariant
            from <= a <= b <= to <= cs@.len(),
            trim_front(cs@.subrange(from as int, to as int)) == cs@.subrange(a as int, to as int),
            trim_back(cs@.subrange(a as int, to as int)) == trim_back(
                cs@.subrange(a as int, b as int),
            ),
        decreases b - a,
    {
        proof {
            let cur = cs@.subrange(a as int, b as int);
            assert(cur[cur.len() - 1] == cs@[b - 1]);
            assert(cur.take(cur.len() - 1) =~= cs@.subrange(a as int, b - 1));
        }
        b -= 1;
    }
    proof {
        let cur = cs@.subrange(a as int, b as int);
        if b > a {
            assert(cur[cur.len() - 1] == cs@[b - 1]);
            assert(trim_back(cur) == cur);
        } else {
            assert(cur.len() == 0);
            assert(trim_back(cur) == cur);
        }
        assert(trimmed(cs@.subrange(from as int, to as int)) == cs@.subrange(
            a as int,
            b as int,
        ));
    }
    crate::subst::copy_range(cs, a, b)
}

/// The embedded-expression evaluator.
pub struct PythonEvaluator;

impl PythonEvaluator {
    /// Evaluates every `@py`-delimited expression in `template`,
    /// splicing each textual result over its span; the optional
    /// `python_header` snippet runs first and may define helpers.  The
    /// result is always a splice of the template: literal text is
    /// unchanged, and a span whose evaluation fails stays in place.  A
    /// template without the delimiter token comes back as it went in.
    #[verifier::rlimit(100)]
    #[verifier::spinoff_prover]
    pub fn evaluate(template: &String, python_header: &Option<String>) -> (r: String)
        ensures
            evaluated(template@, r@),
    {
        let cs = chars_of_str(template.as_str());
        let tok = py_token();
        if !contains_chars(&cs, &tok) {
            proof {
                lemma_no_token_splice(template@, Seq::<Option<Seq<char>>>::empty());
            }
            return template.clone();
        }
        let header_z: Vec<u8> = match python_header {
            Some(h) => nul_terminated(h.as_str()),
            None => nul_terminated(""),
        };
        let n: usize = cs.len();
        let mut out: Vec<char> = Vec::new();
        let ghost souts: Seq<Option<Seq<char>>> = Seq::empty();
        let mut souts: Ghost<Seq<Option<Seq<char>>>> = Ghost(souts);
        let mut i: usize = 0;
        proof {
            assert forall|more: Seq<Option<Seq<char>>>| #[trigger] splice(cs@, souts@ + more)
                == out@ + splice(cs@.skip(i as int), more) by {
                assert(souts@ + more =~= more);
                assert(cs@.skip(0) =~= cs@);
                assert(out@ + splice(cs@, more) =~= splice(cs@, more));
            }
        }
        while i < n
            invariant
                n == cs@.len(),
                cs@ == template@,
                i <= n,
                forall|more: Seq<Option<Seq<char>>>| #[trigger] splice(cs@, souts@ + more)
                    == out@ + splice(cs@.skip(i as int), more),
            decreases n - i,
        {
            let ghost rem = cs@.skip(i as int);
            let ghost out_pre = out@;
            let ghost souts_pre = souts@;
            // find the next delimiter token at or after i
            let mut p: usize = i;
            while p < n && !(n - p >= 3 && cs[p] == '@' && cs[p + 1] == 'p' && cs[p + 2] == 'y')
                invariant
                    i <= p <= n,
                    n == cs@.len(),
                    forall|k: int|
                        i <= k < p ==> !(k + 3 <= n && #[trigger] cs@.subrange(k, k + 3)
                            == pat_py()),
                decreases n - p,
            {
                proof {
                    if p + 3 <= n && cs@.subrange(p as int, p + 3) == pat_py() {
                        assert(cs@.subrange(p as int, p + 3)[0] == cs@[p as int]);
                        assert(cs@.subrange(p as int, p + 3)[1] == cs@[p + 1]);
                        assert(cs@.subrange(p as int, p + 3)[2] == cs@[p + 2]);
                        assert(false);
                    }
                }
                p += 1;
            }
            proof {
                // translate the scan result to the suffix the spec reads
                assert forall|k: int|
                    0 <= k < p - i implies !(k + 3 <= rem.len() && #[trigger] rem.subrange(
                    k,
                    k + 3,
                ) == pat_py()) by {
                    if k + 3 <= rem.len() {
                        assert(rem.subrange(k, k + 3) =~= cs@.subrange(i + k, i + k + 3));
                    }
                }
                lemma_find_pat(rem, 0);
                if p < n {
                    assert(rem.subrange(p - i, p - i + 3) =~= cs@.subrange(p as int, p + 3));
                    assert(cs@.subrange(p as int, p + 3) =~= pat_py());
                    if find_pat(rem, 0) != p - i {
                        let f = find_pat(rem, 0);
                        if f == -1 {
                            assert(rem.subrange(p - i, p - i + 3) != pat_py());
                        } else if f < p - i {
                            assert(rem.subrange(f, f + 3) != pat_py());
                        } else {
                            assert(rem.subrange(p - i, p - i + 3) != pat_py());
                        }
                        assert(false);
                    }
                } else {
                    if find_pat(rem, 0) != -1 {
                        let f = find_pat(rem, 0);
                        assert(rem.subrange(f, f + 3) == pat_py());
                        assert(rem.subrange(f, f + 3) =~= cs@.subrange(i + f, i + f + 3));
                        assert(false);
                    }
                }
            }
            if p >= n {
                // no further token: the rest is literal text
                let rest = crate::subst::copy_range(&cs, i, n);
                append_chars(&mut out, &rest);
                proof {
                    assert forall|more: Seq<Option<Seq<char>>>| #[trigger] splice(
                        cs@,
                        souts@ + more,
                    ) == out@ + splice(cs@.skip(n as int), more) by {
                        assert(splice(cs@, souts@ + more) == out_pre + splice(rem, more));
                        assert(splice(rem, more) == rem);
                        assert(out@ =~= out_pre + rem);
                        assert(cs@.skip(n as int) =~= Seq::<char>::empty());
                        assert(find_pat(Seq::<char>::empty(), 0) == -1);
                        assert(splice(Seq::<char>::empty(), more) =~= Seq::<char>::empty());
                        assert(out@ + Seq::<char>::empty() =~= out@);
                    }
                }
                i = n;
            } else if n - p == 3 || !space_char(cs[p + 3]) {
                // a bare token with no whitespace after it is literal
                let lit = crate::subst::copy_range(&cs, i, p + 3);
                append_chars(&mut out, &lit);
                proof {
                    assert(rem.subrange(0, p - i + 3) =~= cs@.subrange(i as int, p + 3));
                    assert(rem.skip(p - i + 3) =~= cs@.skip(p + 3));
                    if p - i + 3 < rem.len() {
                        assert(rem[p - i + 3] == cs@[p + 3]);
                    }
                    assert forall|more: Seq<Option<Seq<char>>>| #[trigger] splice(
                        cs@,
                        souts@ + more,
                    ) == out@ + splice(cs@.skip(p + 3), more) by {
                        assert(splice(cs@, souts@ + more) == out_pre + splice(rem, more));
                        assert(splice(rem, more) == rem.subrange(0, p - i + 3) + splice(
                            rem.skip(p - i + 3),
                            more,
                        ));
                        assert(out@ =~= out_pre + rem.subrange(0, p - i + 3));
                        assert(out_pre + (rem.subrange(0, p - i + 3) + splice(
                            cs@.skip(p + 3),
                            more,
                        )) =~= out@ + splice(cs@.skip(p + 3), more));
                    }
                }
                i = p + 3;
            } else {
                // an expression span: its body runs to the next token
                // or the end of the text
                let mut q: usize = p + 3;
                while q < n && !(n - q >= 3 && cs[q] == '@' && cs[q + 1] == 'p' && cs[q + 2]
                    == 'y')
                    invariant
                        p + 3 <= q <= n,
                        n == cs@.len(),
                        forall|k: int|
                            p + 3 <= k < q ==> !(k + 3 <= n && #[trigger] cs@.subrange(k, k + 3)
                                == pat_py()),
                    decreases n - q,
                {
                    proof {
                        if q + 3 <= n && cs@.subrange(q as int, q + 3) == pat_py() {
                            assert(cs@.subrange(q as int, q + 3)[0] == cs@[q as int]);
                            assert(cs@.subrange(q as int, q + 3)[1] == cs@[q + 1]);
                            assert(cs@.subrange(q as int, q + 3)[2] == cs@[q + 2]);
                            assert(false);
                        }
                    }
                    q += 1;
                }
                proof {
                    assert forall|k: int|
                        p - i + 3 <= k < q - i implies !(k + 3 <= rem.len()
                        && #[trigger] rem.subrange(k, k + 3) == pat_py()) by {
                        if k + 3 <= rem.len() {
                            assert(rem.subrange(k, k + 3) =~= cs@.subrange(i + k, i + k + 3));
                        }
                    }
                    lemma_find_pat(rem, p - i + 3);
                    if q < n {
                        assert(rem.subrange(q - i, q - i + 3) =~= cs@.subrange(q as int, q + 3));
                        assert(cs@.subrange(q as int, q + 3) =~= pat_py());
                        if find_pat(rem, p - i + 3) != q - i {
                            let f = find_pat(rem, p - i + 3);
                            if f == -1 {
                                assert(rem.subrange(q - i, q - i + 3) != pat_py());
                            } else if f < q - i {
                                assert(rem.subrange(f, f + 3) != pat_py());
                            } else {
                                assert(rem.subrange(q - i, q - i + 3) != pat_py());
                            }
                            assert(false);
                        }
                    } else {
                        if find_pat(rem, p - i + 3) != -1 {
                            let f = find_pat(rem, p - i + 3);
                            assert(rem.subrange(f, f + 3) == pat_py());
                            assert(rem.subrange(f, f + 3) =~= cs@.subrange(i + f, i + f + 3));
                            assert(false);
                        }
                    }
                }
                // the replaced region ends at the trimmed body end
                let mut te: usize = q;
                while te > p + 3 && space_char(cs[te - 1])
                    invariant
                        p + 3 <= te <= q <= n,
                        n == cs@.len(),
                        rem == cs@.skip(i as int),
                        i <= p,
                        trim_end_from(rem, p - i + 3, q - i) == trim_end_from(
                            rem,
                            p - i + 3,
                            te - i,
                        ),
                    decreases te,
                {
                    proof {
                        assert(rem[te - i - 1] == cs@[te - 1]);
                    }
                    te -= 1;
                }
                proof {
                    if te > p + 3 {
                        assert(rem[te - i - 1] == cs@[te - 1]);
                        assert(trim_end_from(rem, p - i + 3, te - i) == te - i);
                    } else {
                        assert(trim_end_from(rem, p - i + 3, te - i) == te - i);
                    }
                }
                // the literal text before the token is kept
                let lit = crate::subst::copy_range(&cs, i, p);
                append_chars(&mut out, &lit);
                let body = trim_chars(&cs, p + 3, q);
                let body_s = string_from_chars(&body);
                let expr_z = nul_terminated(body_s.as_str());
                let outcome = py_eval_raw(&header_z, &expr_z);
                let ghost o: Option<Seq<char>> = match &outcome {
                    Ok(v) => Some(v@),
                    Err(_) => None,
                };
                match &outcome {
                    Ok(v) => {
                        let vcs = chars_of_str(v.as_str());
                        append_chars(&mut out, &vcs);
                    },
                    Err(_) => {
                        // evaluation failed: the span stays as it was
                        let span = crate::subst::copy_range(&cs, p, te);
                        append_chars(&mut out, &span);
                    },
                }
                proof {
                    souts@ = souts@.push(o);
                    let rep: Seq<char> = match o {
                        Some(v) => v,
                        None => rem.subrange(p - i, te - i),
                    };
                    assert(rem.subrange(0, p - i) =~= cs@.subrange(i as int, p as int));
                    assert(rem.subrange(p - i, te - i) =~= cs@.subrange(p as int, te as int));
                    assert(rem.skip(te - i) =~= cs@.skip(te as int));
                    assert(rem[p - i + 3] == cs@[p + 3]);
                    assert(out@ =~= out_pre + rem.subrange(0, p - i) + rep);
                    assert forall|more: Seq<Option<Seq<char>>>| #[trigger] splice(
                        cs@,
                        souts@ + more,
                    ) == out@ + splice(cs@.skip(te as int), more) by {
                        assert(souts@ + more =~= souts_pre + (seq![o] + more));
                        assert(splice(cs@, souts_pre + (seq![o] + more)) == out_pre + splice(
                            rem,
                            seq![o] + more,
                        ));
                        assert((seq![o] + more)[0] == o);
                        assert((seq![o] + more).skip(1) =~= more);
                        assert(splice(rem, seq![o] + more) == rem.subrange(0, p - i) + rep
                            + splice(rem.skip(te - i), more));
                        assert(out_pre + (rem.subrange(0, p - i) + rep + splice(
                            cs@.skip(te as int),
                            more,
                        )) =~= out@ + splice(cs@.skip(te as int), more));
                    }
                }
                i = te;
            }
        }
        proof {
            assert(splice(cs@, souts@ + Seq::<Option<Seq<char>>>::empty()) == out@ + splice(
                cs@.skip(n as int),
                Seq::<Option<Seq<char>>>::empty(),
            ));
            assert(souts@ + Seq::<Option<Seq<char>>>::empty() =~= souts@);
            assert(cs@.skip(n as int) =~= Seq::<char>::empty());
            assert(find_pat(Seq::<char>::empty(), 0) == -1);
            assert(splice(Seq::<char>::empty(), Seq::<Option<Seq<char>>>::empty()) =~= Seq::<
                char,
            >::empty());
            assert(out@ + Seq::<char>::empty() =~= out@);
            assert(out@ == splice(template@, souts@));
        }
        string_from_chars(&out)
    }
}

} // verus!
