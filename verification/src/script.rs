//! Clusters, per-cluster configurations and the script text: the
//! interpreter directive, metadata header, working-directory setup,
//! environment exports, and the shell-quoting needed to emit structured
//! log lines from inside a script.

use vstd::prelude::*;
use crate::chars::{append_chars, chars_of_str, string_from_chars};
use crate::numfmt::int_dec;
use crate::refs::find_char;

verus! {

/// A scheduler kind a cluster can use.
#[derive(Clone, Copy, Debug, PartialEq, Eq, Structural)]
pub enum Scheduler {
    Local,
    Slurm,
    Pbs,
}

/// A plain configuration value: flags and environment entries carry
/// text, integers or booleans.
#[derive(Clone, Debug)]
pub enum JsonVal {
    S(String),
    I(i64),
    B(bool),
}

/// A named execution target.
#[derive(Clone, Debug)]
pub struct Cluster {
    pub id: i64,
    pub cluster_name: String,
    pub scheduler: Scheduler,
    pub max_jobs: Option<u32>,
}

/// A named, cluster-scoped bundle of resource flags and environment
/// variables.
#[derive(Clone, Debug)]
pub struct Config {
    pub id: i64,
    pub config_name: String,
    pub cluster_id: i64,
    pub flags: Vec<(String, JsonVal)>,
    pub env: Vec<(String, JsonVal)>,
}

/// One cluster together with one of its configurations.
pub struct ClusterConfig<'a> {
    pub cluster: &'a Cluster,
    pub config: &'a Config,
}

/// How one configuration value renders on an `export` line: text in
/// double quotes, numbers and booleans bare.
pub open spec fn jval_export(v: JsonVal) -> Seq<char> {
    match v {
        JsonVal::S(s) => seq!['"'] + s@ + seq!['"'],
        JsonVal::I(i) => int_dec(i as int),
        JsonVal::B(b) => if b {
            "true"@
        } else {
            "false"@
        },
    }
}

/// One `export NAME=value` line.
pub open spec fn env_export_line(k: Seq<char>, v: JsonVal) -> Seq<char> {
    "export "@ + k + "="@ + jval_export(v) + "\n"@
}

/// The export lines for a whole environment, in entry order.
pub open spec fn env_exports(env: Seq<(String, JsonVal)>) -> Seq<char>
    decreases env.len(),
{
    if env.len() == 0 {
        Seq::empty()
    } else {
        env_export_line(env[0].0@, env[0].1) + env_exports(env.skip(1))
    }
}

/// The script header: interpreter directive, metadata comment naming
/// the cluster and configuration, and the working-directory setup.
pub open spec fn script_header(
    cluster_name: Seq<char>,
    config_name: Seq<char>,
    base_path: Seq<char>,
) -> Seq<char> {
    "#!/bin/bash\n\n# --- Metadata ---\n# Cluster: "@ + cluster_name + "\n# Config: "@
        + config_name + "\n\n# Set Working Directory\ncd \""@ + base_path + "\"\n"@
}

/// Renders one configuration value for an export line.
fn jval_export_chars(v: &JsonVal) -> (r: Vec<char>)
    ensures
        r@ == jval_export(*v),
{
    match v {
        JsonVal::S(s) => {
            let mut r: Vec<char> = Vec::new();
            r.push('"');
            let cs = chars_of_str(s.as_str());
            append_chars(&mut r, &cs);
            r.push('"');
            proof {
                assert(r@ =~= jval_export(*v));
            }
            r
        },
        JsonVal::I(i) => crate::numfmt::i64_to_chars(*i),
        JsonVal::B(b) => {
            if *b {
                chars_of_str("true")
            } else {
                chars_of_str("false")
            }
        },
    }
}

impl<'a> ClusterConfig<'a> {
    /// Pairs a cluster with one of its configurations.
    pub fn new(cluster: &'a Cluster, config: &'a Config) -> (r: ClusterConfig<'a>)
        ensures
            r.cluster == cluster,
            r.config == config,
    {
        ClusterConfig { cluster, config }
    }

    /// Appends one `export NAME=value` line per environment entry, in
    /// entry order; an empty environment adds nothing.
    pub fn add_environment_variables(&self, script: &mut String)
        ensures
            final(script)@ == old(script)@ + env_exports(self.config.env@),
    {
        let ghost orig = script@;
        let n: usize = self.config.env.len();
        let mut i: usize = 0;
        proof {
            assert(self.config.env@.skip(0) =~= self.config.env@);
        }
        while i < n
            invariant
                n == self.config.env@.len(),
                i <= n,
                orig + env_exports(self.config.env@) == script@ + env_exports(
                    self.config.env@.skip(i as int),
                ),
            decreases n - i,
        {
            let ghost rem = self.config.env@.skip(i as int);
            proof {
                assert(rem[0] == self.config.env@[i as int]);
                assert(rem.skip(1) =~= self.config.env@.skip(i + 1));
            }
            let mut line: Vec<char> = chars_of_str("export ");
            let k = chars_of_str(self.config.env[i].0.as_str());
            append_chars(&mut line, &k);
            line.push('=');
            let v = jval_export_chars(&self.config.env[i].1);
            append_chars(&mut line, &v);
            line.push('\n');
            proof {
                reveal_strlit("=");
                reveal_strlit("\n");
                assert(line@ =~= env_export_line(
                    self.config.env@[i as int].0@,
                    self.config.env@[i as int].1,
                ));
            }
            let line_s = string_from_chars(&line);
            let ghost mid = script@;
            script.append(line_s.as_str());
            i += 1;
            proof {
                assert(script@ + env_exports(self.config.env@.skip(i as int)) =~= mid + (
                env_export_line(self.config.env@[i - 1].0@, self.config.env@[i - 1].1)
                    + env_exports(self.config.env@.skip(i as int))));
            }
        }
        proof {
            assert(env_exports(self.config.env@.skip(n as int)) =~= Seq::<char>::empty());
            assert(script@ + Seq::<char>::empty() =~= script@);
        }
    }

    /// Builds the script header for this cluster and configuration,
    /// with `base_path` as the working directory.
    pub fn generate_script_header(&self, base_path: &String) -> (r: String)
        ensures
            r@ == script_header(self.cluster.cluster_name@, self.config.config_name@, base_path@),
    {
        let mut cs: Vec<char> = chars_of_str("#!/bin/bash\n\n# --- Metadata ---\n# Cluster: ");
        let cn = chars_of_str(self.cluster.cluster_name.as_str());
        append_chars(&mut cs, &cn);
        let p2 = chars_of_str("\n# Config: ");
        append_chars(&mut cs, &p2);
        let cfn = chars_of_str(self.config.config_name.as_str());
        append_chars(&mut cs, &cfn);
        let p3 = chars_of_str("\n\n# Set Working Directory\ncd \"");
        append_chars(&mut cs, &p3);
        let bp = chars_of_str(base_path.as_str());
        append_chars(&mut cs, &bp);
        let p4 = chars_of_str("\"\n");
        append_chars(&mut cs, &p4);
        proof {
            assert(cs@ =~= script_header(
                self.cluster.cluster_name@,
                self.config.config_name@,
                base_path@,
            ));
        }
        string_from_chars(&cs)
    }

    /// Looks up the configured wall-clock limit: a string-valued
    /// `time` flag that parses as a time limit; anything else means no
    /// limit.
    pub fn time_limit(&self) -> (r: Option<u64>)
        ensures
            match flag_time(self.config.flags@) {
                Some(t) => {
                    &&& crate::timefmt::valid_time(t) ==> (r matches Some(v) && v
                        == crate::timefmt::time_seconds(t))
                    &&& !crate::timefmt::valid_time(t) ==> r is None
                },
                None => r is None,
            },
    {
        let n: usize = self.config.flags.len();
        let mut i: usize = 0;
        proof {
            assert(self.config.flags@.skip(0) =~= self.config.flags@);
        }
        while i < n
            invariant
                n == self.config.flags@.len(),
                i <= n,
                flag_time(self.config.flags@) == flag_time(self.config.flags@.skip(i as int)),
            decreases n - i,
        {
            let ghost rem = self.config.flags@.skip(i as int);
            proof {
                assert(rem[0] == self.config.flags@[i as int]);
                assert(rem.skip(1) =~= self.config.flags@.skip(i + 1));
            }
            let time_key = String::from_str("time");
            if self.config.flags[i].0 == time_key {
                match &self.config.flags[i].1 {
                    JsonVal::S(s) => {
                        match crate::timefmt::parse_time_to_seconds(s.as_str()) {
                            Ok(v) => {
                                return Some(v);
                            },
                            Err(_) => {
                                return None;
                            },
                        }
                    },
                    _ => {
                        return None;
                    },
                }
            }
            i += 1;
        }
        proof {
            assert(self.config.flags@.skip(n as int) =~= Seq::<(String, JsonVal)>::empty());
        }
        None
    }
}

/// The string value of the first `time` flag, when it is text.
pub open spec fn flag_time(flags: Seq<(String, JsonVal)>) -> Option<Seq<char>>
    decreases flags.len(),
{
    if flags.len() == 0 {
        None
    } else if flags[0].0@ == "time"@ {
        match flags[0].1 {
            JsonVal::S(s) => Some(s@),
            _ => None,
        }
    } else {
        flag_time(flags.skip(1))
    }
}

/// One lowercase hexadecimal digit.
pub open spec fn hex_digit(d: nat) -> char
    recommends
        d < 16,
{
    if d < 10 {
        ((48 + d) as u8) as char
    } else {
        ((87 + d) as u8) as char
    }
}

/// How one character renders inside a JSON string: quote and backslash
/// escaped, the common control characters by letter, other control
/// characters as a `\u00..` sequence, everything else as itself.
pub open spec fn json_escape_char(c: char) -> Seq<char> {
    if c == '"' {
        seq!['\\', '"']
    } else if c == '\\' {
        seq!['\\', '\\']
    } else if c as u32 == 8 {
        seq!['\\', 'b']
    } else if c as u32 == 9 {
        seq!['\\', 't']
    } else if c as u32 == 10 {
        seq!['\\', 'n']
    } else if c as u32 == 12 {
        seq!['\\', 'f']
    } else if c as u32 == 13 {
        seq!['\\', 'r']
    } else if (c as u32) < 32 {
        let hi = hex_digit((c as u32 / 16) as nat);
        let lo = hex_digit((c as u32 % 16) as nat);
        seq!['\\', 'u', '0', '0', hi, lo]
    } else {
        seq![c]
    }
}

/// A whole text rendered for the inside of a JSON string.
pub open spec fn json_escape(s: Seq<char>) -> Seq<char>
    decreases s.len(),
{
    if s.len() == 0 {
        Seq::empty()
    } else {
        json_escape_char(s[0]) + json_escape(s.skip(1))
    }
}

/// A JSON string literal: the escaped text in double quotes.
pub open spec fn json_str(s: Seq<char>) -> Seq<char> {
    seq!['"'] + json_escape(s) + seq!['"']
}

/// Escapes a character vector for the inside of a JSON string.
pub fn json_escape_chars(cs: &Vec<char>) -> (r: Vec<char>)
    ensures
        r@ == json_escape(cs@),
{
    let n: usize = cs.len();
    let mut out: Vec<char> = Vec::new();
    let mut i: usize = 0;
    proof {
        assert(cs@.skip(0) =~= cs@);
        assert(out@ + json_escape(cs@) =~= json_escape(cs@));
    }
    while i < n
        invariant
            n == cs@.len(),
            i <= n,
            json_escape(cs@) == out@ + json_escape(cs@.skip(i as int)),
        decreases n - i,
    {
        let ghost rem = cs@.skip(i as int);
        proof {
            assert(rem[0] == cs@[i as int]);
            assert(rem.skip(1) =~= cs@.skip(i + 1));
        }
        let ghost opre = out@;
        let c = cs[i];
        let cv: u32 = c as u32;
        if c == '"' {
            out.push('\\');
            out.push('"');
        } else if c == '\\' {
            out.push('\\');
            out.push('\\');
        } else if cv == 8 {
            out.push('\\');
            out.push('b');
        } else if cv == 9 {
            out.push('\\');
            out.push('t');
        } else if cv == 10 {
            out.push('\\');
            out.push('n');
        } else if cv == 12 {
            out.push('\\');
            out.push('f');
        } else if cv == 13 {
            out.push('\\');
            out.push('r');
        } else if cv < 32u32 {
            out.push('\\');
            out.push('u');
            out.push('0');
            out.push('0');
            let hi: u32 = cv / 16;
            let lo: u32 = cv % 16;
            let hc: char = if hi < 10 {
                ((48 + hi) as u8) as char
            } else {
                ((87 + hi) as u8) as char
            };
            let lc: char = if lo < 10 {
                ((48 + lo) as u8) as char
            } else {
                ((87 + lo) as u8) as char
            };
            out.push(hc);
            out.push(lc);
            proof {
                assert(hc == hex_digit((c as u32 / 16) as nat));
                assert(lc == hex_digit((c as u32 % 16) as nat));
            }
        } else {
            out.push(c);
        }
        i += 1;
        proof {
            assert(out@ =~= opre + json_escape_char(rem[0]));
            assert(out@ + json_escape(cs@.skip(i as int)) =~= opre + (json_escape_char(rem[0])
                + json_escape(cs@.skip(i as int))));
        }
    }
    proof {
        assert(json_escape(cs@.skip(n as int)) =~= Seq::<char>::empty());
        assert(out@ + Seq::<char>::empty() =~= out@);
    }
    out
}

/// Appends a JSON string literal for `s` to `out`.
pub fn push_json_str(out: &mut Vec<char>, s: &str)
    ensures
        final(out)@ == old(out)@ + json_str(s@),
{
    let ghost orig = out@;
    out.push('"');
    let cs = chars_of_str(s);
    let esc = json_escape_chars(&cs);
    append_chars(out, &esc);
    out.push('"');
    proof {
        assert(out@ =~= orig + json_str(s@));
    }
}

/// The index of the parenthesis closing an already-open group: at
/// nesting `depth`, scanning from `i`; -1 when the group never closes.
pub open spec fn find_close_paren(s: Seq<char>, i: int, depth: int) -> int
    decreases s.len() - i,
{
    if i < 0 || i >= s.len() {
        -1
    } else if s[i] == '(' {
        find_close_paren(s, i + 1, depth + 1)
    } else if s[i] == ')' {
        if depth <= 1 {
            i
        } else {
            find_close_paren(s, i + 1, depth - 1)
        }
    } else {
        find_close_paren(s, i + 1, depth)
    }
}

/// A text quoted for use inside single quotes of a `printf` command:
/// single quotes and backslashes are escaped, while `${...}` variable
/// references and `$(...)` command substitutions are re-opened into
/// double quotes so the shell still expands them.  An unterminated
/// reference or substitution runs to the end of the text.
pub open spec fn printf_escaped(s: Seq<char>) -> Seq<char>
    decreases s.len(),
{
    if s.len() == 0 {
        Seq::empty()
    } else if s[0] == '\'' {
        "'\\''"@ + printf_escaped(s.skip(1))
    } else if s[0] == '\\' {
        "\\\\"@ + printf_escaped(s.skip(1))
    } else if s[0] == '$' && s.len() >= 2 && s[1] == '{' {
        let j = find_char(s, '}', 2);
        if 2 <= j < s.len() {
            "'\"${"@ + s.subrange(2, j) + "}\"'"@ + printf_escaped(s.skip(j + 1))
        } else {
            "'\"${"@ + s.skip(2)
        }
    } else if s[0] == '$' && s.len() >= 2 && s[1] == '(' {
        let m = find_close_paren(s, 2, 1);
        if 2 <= m < s.len() {
            "'\"$("@ + s.subrange(2, m) + ")\"'"@ + printf_escaped(s.skip(m + 1))
        } else {
            "'\"$("@ + s.skip(2)
        }
    } else {
        seq![s[0]] + printf_escaped(s.skip(1))
    }
}

/// Escapes a string for use within single quotes in a `printf`
/// command, keeping `${...}` and `$(...)` expandable by the shell.
#[verifier::rlimit(60)]
pub fn escape_for_printf(s: &str) -> (r: String)
    ensures
        r@ == printf_escaped(s@),
{
    let cs = chars_of_str(s);
    let n: usize = cs.len();
    let mut out: Vec<char> = Vec::new();
    let mut i: usize = 0;
    proof {
        assert(cs@.skip(0) =~= cs@);
        assert(out@ + printf_escaped(cs@) =~= printf_escaped(cs@));
    }
    while i < n
        invariant
            n == cs@.len(),
            cs@ == s@,
            i <= n,
            printf_escaped(s@) == out@ + printf_escaped(cs@.skip(i as int)),
        decreases n - i,
    {
        let ghost rem = cs@.skip(i as int);
        let ghost opre = out@;
        proof {
            assert(rem[0] == cs@[i as int]);
            assert(rem.skip(1) =~= cs@.skip(i + 1));
            reveal_strlit("'\\''");
            reveal_strlit("\\\\");
            reveal_strlit("'\"${");
            reveal_strlit("}\"'");
            reveal_strlit("'\"$(");
            reveal_strlit(")\"'");
        }
        let c = cs[i];
        if c == '\'' {
            out.push('\'');
            out.push('\\');
            out.push('\'');
            out.push('\'');
            i += 1;
            proof {
                assert(out@ =~= opre + "'\\''"@);
                assert(out@ + printf_escaped(cs@.skip(i as int)) =~= opre + ("'\\''"@
                    + printf_escaped(rem.skip(1))));
            }
        } else if c == '\\' {
            out.push('\\');
            out.push('\\');
            i += 1;
            proof {
                assert(out@ =~= opre + "\\\\"@);
                assert(out@ + printf_escaped(cs@.skip(i as int)) =~= opre + ("\\\\"@
                    + printf_escaped(rem.skip(1))));
            }
        } else if c == '$' && i + 1 < n && cs[i + 1] == '{' {
            // a variable reference: re-open double quotes around it
            let mut j: usize = i + 2;
            while j < n && cs[j] != '}'
                invariant
                    n == cs@.len(),
                    i + 2 <= j <= n,
                    forall|k: int| i + 2 <= k < j ==> cs@[k] != '}',
                decreases n - j,
            {
                j += 1;
            }
            proof {
                assert forall|k: int| 2 <= k < j - i implies rem[k] != '}' by {
                    assert(rem[k] == cs@[i + k]);
                }
                crate::refs::lemma_find_char(rem, '}', 2);
                if j < n {
                    assert(rem[j - i] == cs@[j as int]);
                    if find_char(rem, '}', 2) != j - i {
                        let f = find_char(rem, '}', 2);
                        if f == -1 {
                            assert(rem[j - i] != '}');
                        } else if f < j - i {
                            assert(rem[f] != '}');
                        } else {
                            assert(rem[j - i] != '}');
                        }
                        assert(false);
                    }
                } else {
                    if find_char(rem, '}', 2) != -1 {
                        let f = find_char(rem, '}', 2);
                        assert(rem[f] == '}');
                        assert(false);
                    }
                }
            }
            let opener = chars_of_str("'\"${");
            append_chars(&mut out, &opener);
            let inner = crate::subst::copy_range(&cs, i + 2, if j < n {
                j
            } else {
                n
            });
            append_chars(&mut out, &inner);
            if j < n {
                let closer = chars_of_str("}\"'");
                append_chars(&mut out, &closer);
                proof {
                    assert(inner@ =~= rem.subrange(2, j - i));
                    assert(rem.skip(j - i + 1) =~= cs@.skip(j + 1));
                    assert(out@ =~= opre + ("'\"${"@ + rem.subrange(2, j - i) + "}\"'"@));
                    assert(out@ + printf_escaped(cs@.skip(j + 1)) =~= opre + ("'\"${"@
                        + rem.subrange(2, j - i) + "}\"'"@ + printf_escaped(
                        rem.skip(j - i + 1),
                    )));
                }
                i = j + 1;
            } else {
                proof {
                    assert(inner@ =~= rem.skip(2));
                    assert(out@ =~= opre + ("'\"${"@ + rem.skip(2)));
                    assert(cs@.skip(n as int) =~= Seq::<char>::empty());
                    assert(printf_escaped(Seq::<char>::empty()) =~= Seq::<char>::empty());
                    assert(out@ + Seq::<char>::empty() =~= out@);
                }
                i = n;
            }
        } else if c == '$' && i + 1 < n && cs[i + 1] == '(' {
            // a command substitution: match its nested parentheses
            let mut m: usize = i + 2;
            let mut depth: usize = 1;
            while m < n && !(cs[m] == ')' && depth == 1)
                invariant
                    n == cs@.len(),
                    rem == cs@.skip(i as int),
                    i + 2 <= m <= n,
                    1 <= depth <= m - i,
                    find_close_paren(rem, 2, 1) == find_close_paren(
                        rem,
                        m - i,
                        depth as int,
                    ),
                decreases n - m,
            {
                proof {
                    assert(rem[m - i] == cs@[m as int]);
                }
                if cs[m] == '(' {
                    depth += 1;
                } else if cs[m] == ')' {
                    depth -= 1;
                }
                m += 1;
            }
            proof {
                if m < n {
                    assert(rem[m - i] == cs@[m as int]);
                    assert(find_close_paren(rem, 2, 1) == m - i);
                } else {
                    assert(find_close_paren(rem, 2, 1) == find_close_paren(
                        rem,
                        m - i,
                        depth as int,
                    ));
                    assert(find_close_paren(rem, m - i, depth as int) == -1);
                }
            }
            let opener = chars_of_str("'\"$(");
            append_chars(&mut out, &opener);
            let inner = crate::subst::copy_range(&cs, i + 2, if m < n {
                m
            } else {
                n
            });
            append_chars(&mut out, &inner);
            if m < n {
                let closer = chars_of_str(")\"'");
                append_chars(&mut out, &closer);
                proof {
                    assert(inner@ =~= rem.subrange(2, m - i));
                    assert(rem.skip(m - i + 1) =~= cs@.skip(m + 1));
                    assert(out@ =~= opre + ("'\"$("@ + rem.subrange(2, m - i) + ")\"'"@));
                    assert(out@ + printf_escaped(cs@.skip(m + 1)) =~= opre + ("'\"$("@
                        + rem.subrange(2, m - i) + ")\"'"@ + printf_escaped(
                        rem.skip(m - i + 1),
                    )));
                }
                i = m + 1;
            } else {
                proof {
                    assert(inner@ =~= rem.skip(2));
                    assert(out@ =~= opre + ("'\"$("@ + rem.skip(2)));
                    assert(cs@.skip(n as int) =~= Seq::<char>::empty());
                    assert(printf_escaped(Seq::<char>::empty()) =~= Seq::<char>::empty());
                    assert(out@ + Seq::<char>::empty() =~= out@);
                }
                i = n;
            }
        } else {
            out.push(c);
            i += 1;
            proof {
                assert(out@ =~= opre + seq![rem[0]]);
                if rem.len() >= 2 && rem[0] == '$' {
                    assert(rem[1] == cs@[i as int]);
                }
                assert(out@ + printf_escaped(cs@.skip(i as int)) =~= opre + (seq![rem[0]]
                    + printf_escaped(rem.skip(1))));
            }
        }
    }
    proof {
        assert(cs@.skip(n as int) =~= Seq::<char>::empty());
        assert(out@ + Seq::<char>::empty() =~= out@);
    }
    string_from_chars(&out)
}

/// First-match lookup of a configuration by name.
pub open spec fn config_lookup(configs: Seq<Config>, name: Seq<char>) -> Option<Config>
    decreases configs.len(),
{
    if configs.len() == 0 {
        None
    } else if configs[0].config_name@ == name {
        Some(configs[0])
    } else {
        config_lookup(configs.skip(1), name)
    }
}

/// Finds the configuration a job names, first match winning; a name no
/// configuration carries is the hard error that aborts the batch.
pub fn find_config_by_name<'a>(configs: &'a Vec<Config>, name: &String) -> (r: Result<
    &'a Config,
    crate::errors::JobError,
>)
    ensures
        match config_lookup(configs@, name@) {
            Some(c) => r matches Ok(x) && *x == c,
            None => r matches Err(e) && (e matches crate::errors::JobError::ConfigNotFound(m)
                && m@ == name@),
        },
{
    let n: usize = configs.len();
    let mut i: usize = 0;
    proof {
        assert(configs@.skip(0) =~= configs@);
    }
    while i < n
        invariant
            n == configs@.len(),
            i <= n,
            config_lookup(configs@, name@) == config_lookup(configs@.skip(i as int), name@),
        decreases n - i,
    {
        let ghost rem = configs@.skip(i as int);
        proof {
            assert(rem[0] == configs@[i as int]);
            assert(rem.skip(1) =~= configs@.skip(i + 1));
        }
        if configs[i].config_name == *name {
            return Ok(&configs[i]);
        }
        i += 1;
    }
    proof {
        assert(configs@.skip(n as int) =~= Seq::<Config>::empty());
    }
    Err(crate::errors::JobError::ConfigNotFound(name.clone()))
}

} // verus!
