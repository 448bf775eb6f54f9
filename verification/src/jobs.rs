//! One concrete job: its record, the structured log lines that make
//! its lifecycle replayable, and the script each scheduler builds for
//! it.  Every log line is one self-contained JSON object, so a
//! partially written log still yields all complete prior lines.

use vstd::prelude::*;
use crate::chars::{append_chars, chars_of_str, string_from_chars};
use crate::numfmt::{int_dec, nat_dec};
use crate::status::{Status, status_str};
use crate::errors::JobError;
use crate::script::{ClusterConfig, json_str, json_escape, json_escape_char, push_json_str, printf_escaped,
    escape_for_printf, script_header, env_exports, flag_time};
use crate::subst::pairs_views;

verus! {

/// A materialized job: the resolved strings, the binding that produced
/// them, and the lifecycle state.
#[derive(Clone, Debug)]
pub struct Job {
    pub id: i64,
    pub job_name: String,
    pub config_id: i64,
    pub submit_time: Option<i64>,
    pub directory: String,
    pub command: String,
    pub status: Status,
    pub job_id: Option<i64>,
    pub end_time: Option<i64>,
    pub preprocess: Option<String>,
    pub postprocess: Option<String>,
    pub archived: Option<bool>,
    pub variables: Vec<(String, String)>,
}

/// One entry of the structured log.
#[derive(Clone, Debug)]
pub enum JobLog {
    Metadata(Job),
    StatusUpdate(Status),
    BashVariable(String),
    Variable(String, String),
}

/// An optional integer in JSON.
pub open spec fn opt_i64_json(o: Option<i64>) -> Seq<char> {
    match o {
        Some(i) => int_dec(i as int),
        None => "null"@,
    }
}

/// An optional boolean in JSON.
pub open spec fn opt_bool_json(o: Option<bool>) -> Seq<char> {
    match o {
        Some(b) => if b {
            "true"@
        } else {
            "false"@
        },
        None => "null"@,
    }
}

/// An optional string in JSON.
pub open spec fn opt_str_json(o: Option<String>) -> Seq<char> {
    match o {
        Some(s) => json_str(s@),
        None => "null"@,
    }
}

/// The later members of the binding object, each preceded by a comma.
pub open spec fn vars_items_sep(v: Seq<(Seq<char>, Seq<char>)>) -> Seq<char>
    decreases v.len(),
{
    if v.len() == 0 {
        Seq::empty()
    } else {
        seq![','] + json_str(v[0].0) + seq![':'] + json_str(v[0].1) + vars_items_sep(v.skip(1))
    }
}

/// The members of the binding object, `"name":"value"` pairs in
/// binding order, separated by commas.
pub open spec fn vars_items(v: Seq<(Seq<char>, Seq<char>)>) -> Seq<char> {
    if v.len() == 0 {
        Seq::empty()
    } else {
        json_str(v[0].0) + seq![':'] + json_str(v[0].1) + vars_items_sep(v.skip(1))
    }
}

/// The binding as one JSON object.
pub open spec fn vars_obj(v: Seq<(Seq<char>, Seq<char>)>) -> Seq<char> {
    seq!['{'] + vars_items(v) + seq!['}']
}

/// The first third of a job record's JSON text.
pub open spec fn job_json_a(j: Job) -> Seq<char> {
    seq!['{'] + "\"archived\":"@ + opt_bool_json(j.archived) + ",\"command\":"@ + json_str(
        j.command@,
    ) + ",\"config_id\":"@ + int_dec(j.config_id as int) + ",\"directory\":"@ + json_str(
        j.directory@,
    )
}

/// The second third of a job record's JSON text.
pub open spec fn job_json_b(j: Job) -> Seq<char> {
    ",\"end_time\":"@ + opt_i64_json(j.end_time) + ",\"id\":"@ + int_dec(j.id as int)
        + ",\"job_id\":"@ + opt_i64_json(j.job_id) + ",\"job_name\":"@ + json_str(j.job_name@)
}

/// The last third of a job record's JSON text.
pub open spec fn job_json_c(j: Job) -> Seq<char> {
    ",\"postprocess\":"@ + opt_str_json(j.postprocess) + ",\"preprocess\":"@ + opt_str_json(
        j.preprocess,
    ) + ",\"status\":"@ + json_str(status_str(j.status)) + ",\"submit_time\":"@ + opt_i64_json(
        j.submit_time,
    ) + ",\"variables\":"@ + vars_obj(pairs_views(j.variables@)) + seq!['}']
}

/// A job record as one JSON object, fields in name order.
pub open spec fn job_json(j: Job) -> Seq<char> {
    job_json_a(j) + job_json_b(j) + job_json_c(j)
}

/// The `data` member of a logged shell-variable entry: the variable's
/// name mapped to a `${NAME}` reference the shell will expand.
pub open spec fn bash_var_data(name: Seq<char>) -> Seq<char> {
    seq!['{'] + json_str(name) + seq![':'] + json_str("${"@ + name + "}"@) + seq!['}']
}

/// The `data` member of one log entry.
pub open spec fn data_json(log: JobLog) -> Seq<char> {
    match log {
        JobLog::Metadata(j) => job_json(j),
        JobLog::StatusUpdate(st) => json_str(status_str(st)),
        JobLog::BashVariable(name) => bash_var_data(name@),
        JobLog::Variable(k, v) => seq!['['] + json_str(k@) + seq![','] + json_str(v@)
            + seq![']'],
    }
}

/// The variant name recorded as the entry's `type`.
pub open spec fn log_type_name(log: JobLog) -> Seq<char> {
    match log {
        JobLog::Metadata(_) => "Metadata"@,
        JobLog::StatusUpdate(_) => "StatusUpdate"@,
        JobLog::BashVariable(_) => "BashVariable"@,
        JobLog::Variable(_, _) => "Variable"@,
    }
}

/// Everything before the timestamp value, over the rendered data.
pub open spec fn log_before_raw(data: Seq<char>, additional: Option<String>) -> Seq<char> {
    seq!['{'] + (match additional {
        Some(a) => "\"additional\":"@ + a@ + ","@,
        None => Seq::empty(),
    }) + "\"data\":"@ + data + ",\"timestamp\":"@
}

/// Everything of one log line before the timestamp value.
pub open spec fn log_before(log: JobLog, additional: Option<String>) -> Seq<char> {
    log_before_raw(data_json(log), additional)
}

/// Everything after the timestamp value, over the entry's type name.
pub open spec fn log_after_raw(tyname: Seq<char>) -> Seq<char> {
    ",\"type\":"@ + json_str(tyname) + seq!['}']
}

/// Everything of one log line after the timestamp value.
pub open spec fn log_after(log: JobLog) -> Seq<char> {
    log_after_raw(log_type_name(log))
}

/// One log entry with the timestamp placeholder in place.
pub open spec fn log_entry_json(log: JobLog, additional: Option<String>) -> Seq<char> {
    log_before(log, additional) + json_str("__TIMESTAMP__"@) + log_after(log)
}

/// One log entry carrying a concrete timestamp.
pub open spec fn log_entry_with_ts(log: JobLog, additional: Option<String>, ts: Seq<char>) -> Seq<
    char,
> {
    log_before(log, additional) + json_str(ts) + log_after(log)
}

/// Appends the binding object to `out`.
fn push_vars_obj(out: &mut Vec<char>, v: &Vec<(String, String)>)
    ensures
        final(out)@ == old(out)@ + vars_obj(pairs_views(v@)),
{
    let ghost orig = out@;
    out.push('{');
    let n: usize = v.len();
    if n == 0 {
        out.push('}');
        proof {
            assert(vars_items(pairs_views(v@)) =~= Seq::<char>::empty());
            assert(out@ =~= orig + vars_obj(pairs_views(v@)));
        }
        return ;
    }
    push_json_str(out, v[0].0.as_str());
    out.push(':');
    push_json_str(out, v[0].1.as_str());
    proof {
        assert(pairs_views(v@)[0] == (v@[0].0@, v@[0].1@));
        assert(pairs_views(v@).skip(1).skip(0) =~= pairs_views(v@).skip(1));
    }
    let ghost head = orig + seq!['{'] + json_str(pairs_views(v@)[0].0) + seq![':'] + json_str(
        pairs_views(v@)[0].1,
    );
    let mut i: usize = 1;
    proof {
        assert(out@ =~= head);
        assert(pairs_views(v@).skip(i as int) =~= pairs_views(v@).skip(1));
    }
    while i < n
        invariant
            n == v@.len(),
            1 <= i <= n,
            head + vars_items_sep(pairs_views(v@).skip(1)) == out@ + vars_items_sep(
                pairs_views(v@).skip(i as int),
            ),
        decreases n - i,
    {
        let ghost rem = pairs_views(v@).skip(i as int);
        let ghost opre = out@;
        proof {
            assert(rem[0] == pairs_views(v@)[i as int]);
            assert(rem.skip(1) =~= pairs_views(v@).skip(i + 1));
        }
        out.push(',');
        push_json_str(out, v[i].0.as_str());
        out.push(':');
        push_json_str(out, v[i].1.as_str());
        i += 1;
        proof {
            assert(out@ =~= opre + (seq![','] + json_str(rem[0].0) + seq![':'] + json_str(
                rem[0].1,
            )));
            assert(out@ + vars_items_sep(pairs_views(v@).skip(i as int)) =~= opre + (seq![',']
                + json_str(rem[0].0) + seq![':'] + json_str(rem[0].1) + vars_items_sep(
                rem.skip(1),
            )));
        }
    }
    out.push('}');
    proof {
        assert(vars_items_sep(pairs_views(v@).skip(n as int)) =~= Seq::<char>::empty());
        assert(out@ =~= orig + vars_obj(pairs_views(v@)));
    }
}

/// Appends an optional integer to `out`.
fn push_opt_i64(out: &mut Vec<char>, o: &Option<i64>)
    ensures
        final(out)@ == old(out)@ + opt_i64_json(*o),
{
    match o {
        Some(i) => {
            let d = crate::numfmt::i64_to_chars(*i);
            append_chars(out, &d);
        },
        None => {
            let nl = chars_of_str("null");
            append_chars(out, &nl);
        },
    }
}

/// Appends an optional boolean to `out`.
fn push_opt_bool(out: &mut Vec<char>, o: &Option<bool>)
    ensures
        final(out)@ == old(out)@ + opt_bool_json(*o),
{
    match o {
        Some(b) => {
            let t = if *b {
                chars_of_str("true")
            } else {
                chars_of_str("false")
            };
            append_chars(out, &t);
        },
        None => {
            let nl = chars_of_str("null");
            append_chars(out, &nl);
        },
    }
}

/// Appends an optional string to `out`.
fn push_opt_str(out: &mut Vec<char>, o: &Option<String>)
    ensures
        final(out)@ == old(out)@ + opt_str_json(*o),
{
    match o {
        Some(s) => push_json_str(out, s.as_str()),
        None => {
            let nl = chars_of_str("null");
            append_chars(out, &nl);
        },
    }
}

/// Appends a literal fragment to `out`.
fn push_lit(out: &mut Vec<char>, s: &str)
    ensures
        final(out)@ == old(out)@ + s@,
{
    let cs = chars_of_str(s);
    append_chars(out, &cs);
}

/// Appends one job record as JSON to `out`.
#[verifier::rlimit(100)]
#[verifier::spinoff_prover]
fn push_job_json(out: &mut Vec<char>, j: &Job)
    ensures
        final(out)@ == old(out)@ + job_json(*j),
{
    let ghost orig = out@;
    out.push('{');
    push_lit(out, "\"archived\":");
    push_opt_bool(out, &j.archived);
    push_lit(out, ",\"command\":");
    push_json_str(out, j.command.as_str());
    push_lit(out, ",\"config_id\":");
    let d1 = crate::numfmt::i64_to_chars(j.config_id);
    append_chars(out, &d1);
    push_lit(out, ",\"directory\":");
    push_json_str(out, j.directory.as_str());
    proof {
        assert(out@ =~= orig + job_json_a(*j));
    }
    push_lit(out, ",\"end_time\":");
    push_opt_i64(out, &j.end_time);
    push_lit(out, ",\"id\":");
    let d2 = crate::numfmt::i64_to_chars(j.id);
    append_chars(out, &d2);
    push_lit(out, ",\"job_id\":");
    push_opt_i64(out, &j.job_id);
    push_lit(out, ",\"job_name\":");
    push_json_str(out, j.job_name.as_str());
    proof {
        assert(out@ =~= orig + job_json_a(*j) + job_json_b(*j));
    }
    push_lit(out, ",\"postprocess\":");
    push_opt_str(out, &j.postprocess);
    push_lit(out, ",\"preprocess\":");
    push_opt_str(out, &j.preprocess);
    push_lit(out, ",\"status\":");
    let st = j.status.as_str();
    push_json_str(out, st.as_str());
    push_lit(out, ",\"submit_time\":");
    push_opt_i64(out, &j.submit_time);
    push_lit(out, ",\"variables\":");
    push_vars_obj(out, &j.variables);
    out.push('}');
    proof {
        assert(out@ =~= orig + job_json(*j));
    }
}

/// Appends the `data` member of one log entry to `out`.
fn push_data_json(out: &mut Vec<char>, log: &JobLog)
    ensures
        final(out)@ == old(out)@ + data_json(*log),
{
    let ghost orig = out@;
    match log {
        JobLog::Metadata(j) => push_job_json(out, j),
        JobLog::StatusUpdate(st) => {
            let s = st.as_str();
            push_json_str(out, s.as_str());
        },
        JobLog::BashVariable(name) => {
            out.push('{');
            push_json_str(out, name.as_str());
            out.push(':');
            let mut refd: Vec<char> = chars_of_str("${");
            let nm = chars_of_str(name.as_str());
            append_chars(&mut refd, &nm);
            refd.push('}');
            let refs = string_from_chars(&refd);
            push_json_str(out, refs.as_str());
            out.push('}');
            proof {
                reveal_strlit("${");
                reveal_strlit("}");
                assert(refd@ =~= "${"@ + name@ + "}"@);
                assert(out@ =~= orig + data_json(*log));
            }
        },
        JobLog::Variable(k, v) => {
            out.push('[');
            push_json_str(out, k.as_str());
            out.push(',');
            push_json_str(out, v.as_str());
            out.push(']');
            proof {
                assert(out@ =~= orig + data_json(*log));
            }
        },
    }
}

/// Appends everything before the timestamp value to `out`.
fn push_log_before(out: &mut Vec<char>, log: &JobLog, additional: &Option<String>)
    ensures
        final(out)@ == old(out)@ + log_before(*log, *additional),
{
    let ghost orig = out@;
    out.push('{');
    match additional {
        Some(a) => {
            push_lit(out, "\"additional\":");
            let av = chars_of_str(a.as_str());
            append_chars(out, &av);
            push_lit(out, ",");
        },
        None => {},
    }
    push_lit(out, "\"data\":");
    push_data_json(out, log);
    push_lit(out, ",\"timestamp\":");
    proof {
        assert(out@ =~= orig + log_before(*log, *additional));
    }
}

/// Appends everything after the timestamp value to `out`.
fn push_log_after(out: &mut Vec<char>, log: &JobLog)
    ensures
        final(out)@ == old(out)@ + log_after(*log),
{
    let ghost orig = out@;
    push_lit(out, ",\"type\":");
    match log {
        JobLog::Metadata(_) => push_json_str(out, "Metadata"),
        JobLog::StatusUpdate(_) => push_json_str(out, "StatusUpdate"),
        JobLog::BashVariable(_) => push_json_str(out, "BashVariable"),
        JobLog::Variable(_, _) => push_json_str(out, "Variable"),
    }
    out.push('}');
    proof {
        assert(out@ =~= orig + log_after(*log));
    }
}

/// One structured log entry, with the timestamp placeholder that a
/// writer replaces before appending the line.
pub fn serialize_log_entry(log: &JobLog, additional: &Option<String>) -> (r: String)
    ensures
        r@ == log_entry_json(*log, *additional),
{
    let mut out: Vec<char> = Vec::new();
    push_log_before(&mut out, log, additional);
    push_json_str(&mut out, "__TIMESTAMP__");
    push_log_after(&mut out, log);
    proof {
        assert(out@ =~= log_entry_json(*log, *additional));
    }
    string_from_chars(&out)
}

/// One structured log entry carrying a concrete timestamp, ready to be
/// appended to the log as one line.
pub fn log_entry_line(log: &JobLog, additional: &Option<String>, timestamp: &str) -> (r: String)
    ensures
        r@ == log_entry_with_ts(*log, *additional, timestamp@),
{
    let mut out: Vec<char> = Vec::new();
    push_log_before(&mut out, log, additional);
    push_json_str(&mut out, timestamp);
    push_log_after(&mut out, log);
    proof {
        assert(out@ =~= log_entry_with_ts(*log, *additional, timestamp@));
    }
    string_from_chars(&out)
}

/// The path of one file inside the job's directory.
pub open spec fn job_file(j: Job, name: Seq<char>) -> Seq<char> {
    j.directory@ + seq!['/'] + name
}

/// The shell command that appends one structured log line, with the
/// timestamp filled in by the shell at run time, to the job's log.
pub open spec fn log_command_raw(
    data: Seq<char>,
    tyname: Seq<char>,
    additional: Option<String>,
    log_path: Seq<char>,
) -> Seq<char> {
    "\nprintf '%s\"%s\"%s\\n' '"@ + printf_escaped(log_before_raw(data, additional))
        + "' \"$(date +\"%Y-%m-%d %H:%M:%S.%3N\")\" '"@ + printf_escaped(log_after_raw(tyname))
        + "' >> "@ + log_path + "\n"@
}

/// The shell command appending one structured log line for `log`.
pub open spec fn log_command(log: JobLog, additional: Option<String>, log_path: Seq<char>) -> Seq<
    char,
> {
    log_command_raw(data_json(log), log_type_name(log), additional, log_path)
}

/// The pre/main/post command block of a script: preprocessing first
/// when present and non-empty, then the main command (wrapped by a
/// timeout when one is configured) with its exit status captured, then
/// postprocessing.
pub open spec fn job_commands(j: Job, time_limit: Option<u64>) -> Seq<char> {
    (match j.preprocess {
        Some(p) => if p@.len() > 0 {
            "\n# Preprocessing\n"@ + p@ + "\n\n"@
        } else {
            Seq::empty()
        },
        None => Seq::empty(),
    }) + "\n# Main command\n"@ + (match time_limit {
        Some(secs) => "timeout "@ + nat_dec(secs as nat) + "s "@ + j.command@,
        None => j.command@,
    }) + "\n\nSBM_EXIT_CODE=$?"@ + (match j.postprocess {
        Some(p) => if p@.len() > 0 {
            "\n# Postprocessing\n"@ + p@ + "\n"@
        } else {
            Seq::empty()
        },
        None => Seq::empty(),
    })
}

impl Job {
    /// The job's structured log file.
    pub fn get_log_path(&self) -> (r: String)
        ensures
            r@ == job_file(*self, "log.jsonb"@),
    {
        let mut cs = chars_of_str(self.directory.as_str());
        cs.push('/');
        let f = chars_of_str("log.jsonb");
        append_chars(&mut cs, &f);
        proof {
            assert(cs@ =~= job_file(*self, "log.jsonb"@));
        }
        string_from_chars(&cs)
    }

    /// The job's script file.
    pub fn get_script_path(&self) -> (r: String)
        ensures
            r@ == job_file(*self, "job.sh"@),
    {
        let mut cs = chars_of_str(self.directory.as_str());
        cs.push('/');
        let f = chars_of_str("job.sh");
        append_chars(&mut cs, &f);
        proof {
            assert(cs@ =~= job_file(*self, "job.sh"@));
        }
        string_from_chars(&cs)
    }

    /// The job's captured standard output.
    pub fn get_stdout_path(&self) -> (r: String)
        ensures
            r@ == job_file(*self, "stdout.log"@),
    {
        let mut cs = chars_of_str(self.directory.as_str());
        cs.push('/');
        let f = chars_of_str("stdout.log");
        append_chars(&mut cs, &f);
        proof {
            assert(cs@ =~= job_file(*self, "stdout.log"@));
        }
        string_from_chars(&cs)
    }

    /// The job's captured standard error.
    pub fn get_stderr_path(&self) -> (r: String)
        ensures
            r@ == job_file(*self, "stderr.log"@),
    {
        let mut cs = chars_of_str(self.directory.as_str());
        cs.push('/');
        let f = chars_of_str("stderr.log");
        append_chars(&mut cs, &f);
        proof {
            assert(cs@ =~= job_file(*self, "stderr.log"@));
        }
        string_from_chars(&cs)
    }

    /// Appends the pre/main/post command block to the script, the
    /// main command's exit status captured into `SBM_EXIT_CODE`.
    /// Empty preprocessing and postprocessing strings add nothing.
    pub fn add_job_commands(&self, script: &mut String, time_limit: Option<u64>)
        ensures
            final(script)@ == old(script)@ + job_commands(*self, time_limit),
    {
        let ghost orig = script@;
        let mut cs: Vec<char> = Vec::new();
        match &self.preprocess {
            Some(p) => {
                if p.as_str().unicode_len() > 0 {
                    push_lit(&mut cs, "\n# Preprocessing\n");
                    let pc = chars_of_str(p.as_str());
                    append_chars(&mut cs, &pc);
                    push_lit(&mut cs, "\n\n");
                }
            },
            None => {},
        }
        push_lit(&mut cs, "\n# Main command\n");
        match time_limit {
            Some(secs) => {
                push_lit(&mut cs, "timeout ");
                let d = crate::numfmt::u64_to_chars(secs);
                append_chars(&mut cs, &d);
                push_lit(&mut cs, "s ");
                let cc = chars_of_str(self.command.as_str());
                append_chars(&mut cs, &cc);
            },
            None => {
                let cc = chars_of_str(self.command.as_str());
                append_chars(&mut cs, &cc);
            },
        }
        push_lit(&mut cs, "\n\nSBM_EXIT_CODE=$?");
        match &self.postprocess {
            Some(p) => {
                if p.as_str().unicode_len() > 0 {
                    push_lit(&mut cs, "\n# Postprocessing\n");
                    let pc = chars_of_str(p.as_str());
                    append_chars(&mut cs, &pc);
                    push_lit(&mut cs, "\n");
                }
            },
            None => {},
        }
        proof {
            assert(cs@ =~= job_commands(*self, time_limit));
        }
        let s = string_from_chars(&cs);
        script.append(s.as_str());
    }

    /// Appends to the script a shell command that logs one structured
    /// entry with a run-time timestamp to the job's log file.
    pub fn add_log_command(&self, script: &mut String, log: &JobLog, additional: &Option<String>)
        ensures
            final(script)@ == old(script)@ + log_command(
                *log,
                *additional,
                job_file(*self, "log.jsonb"@),
            ),
    {
        let mut before: Vec<char> = Vec::new();
        push_log_before(&mut before, log, additional);
        let before_s = string_from_chars(&before);
        let mut after: Vec<char> = Vec::new();
        push_log_after(&mut after, log);
        let after_s = string_from_chars(&after);
        let before_esc = escape_for_printf(before_s.as_str());
        let after_esc = escape_for_printf(after_s.as_str());
        let mut cs: Vec<char> = Vec::new();
        push_lit(&mut cs, "\nprintf '%s\"%s\"%s\\n' '");
        let be = chars_of_str(before_esc.as_str());
        append_chars(&mut cs, &be);
        push_lit(&mut cs, "' \"$(date +\"%Y-%m-%d %H:%M:%S.%3N\")\" '");
        let ae = chars_of_str(after_esc.as_str());
        append_chars(&mut cs, &ae);
        push_lit(&mut cs, "' >> ");
        let lp = self.get_log_path();
        let lpc = chars_of_str(lp.as_str());
        append_chars(&mut cs, &lpc);
        push_lit(&mut cs, "\n");
        proof {
            assert(cs@ =~= log_command(*log, *additional, job_file(*self, "log.jsonb"@)));
        }
        let s = string_from_chars(&cs);
        script.append(s.as_str());
    }
}

/// The wall-clock limit a configuration carries: its string-valued
/// `time` flag when that parses, else none.
pub open spec fn config_time_limit(flags: Seq<(String, crate::script::JsonVal)>) -> Option<nat> {
    match flag_time(flags) {
        Some(t) => if crate::timefmt::valid_time(t) {
            Some(crate::timefmt::time_seconds(t))
        } else {
            None
        },
        None => None,
    }
}

/// The full script the local scheduler builds for one job: header,
/// environment exports, a Running status log command, the command
/// block, the exit-code log command, and an exit with the captured
/// status.
pub open spec fn local_script(j: Job, cc: ClusterConfig, base_path: Seq<char>) -> Seq<char> {
    let logp = job_file(j, "log.jsonb"@);
    script_header(cc.cluster.cluster_name@, cc.config.config_name@, base_path) + env_exports(
        cc.config.env@,
    ) + "\n# Status update"@ + log_command_raw(
        json_str(status_str(Status::Running)),
        "StatusUpdate"@,
        None,
        logp,
    ) + job_commands(
        j,
        match config_time_limit(cc.config.flags@) {
            Some(s) => Some(s as u64),
            None => None,
        },
    ) + "\n# Export EXIT CODE"@ + log_command_raw(
        bash_var_data("SBM_EXIT_CODE"@),
        "BashVariable"@,
        None,
        logp,
    ) + "\nexit \"${SBM_EXIT_CODE}\""@
}

/// The local scheduler: it runs each job as one blocking process on
/// this machine.
#[derive(Debug)]
pub struct LocalScheduler {
    pub launch_base_path: String,
}

impl LocalScheduler {
    /// A local scheduler launching from the given base directory.
    pub fn new(launch_base_path: String) -> (r: LocalScheduler)
        ensures
            r.launch_base_path == launch_base_path,
    {
        LocalScheduler { launch_base_path }
    }

    /// Builds the full executable script for one job.
    pub fn create_job_script(&self, job: &Job, cluster_config: &ClusterConfig) -> (r: Result<
        String,
        JobError,
    >)
        ensures
            r matches Ok(s) && s@ == local_script(
                *job,
                *cluster_config,
                self.launch_base_path@,
            ),
    {
        let mut script = cluster_config.generate_script_header(&self.launch_base_path);
        cluster_config.add_environment_variables(&mut script);
        script.append("\n# Status update");
        let running = JobLog::StatusUpdate(Status::Running);
        job.add_log_command(&mut script, &running, &None);
        let time_limit = cluster_config.time_limit();
        proof {
            match config_time_limit(cluster_config.config.flags@) {
                Some(s) => {
                    assert(time_limit == Some(s as u64));
                },
                None => {
                    assert(time_limit is None);
                },
            }
        }
        job.add_job_commands(&mut script, time_limit);
        script.append("\n# Export EXIT CODE");
        let exit_var = JobLog::BashVariable(String::from_str("SBM_EXIT_CODE"));
        job.add_log_command(&mut script, &exit_var, &None);
        script.append("\nexit \"${SBM_EXIT_CODE}\"");
        proof {
            assert(script@ =~= local_script(*job, *cluster_config, self.launch_base_path@));
        }
        Ok(script)
    }

    /// The local scheduler keeps no queue: jobs run at once.
    pub fn get_number_of_enqueued_jobs(&self) -> (r: Result<usize, JobError>)
        ensures
            r matches Ok(v) && v == 0,
    {
        Ok(0)
    }
}

/// The batch scheduler reached through `sbatch`; its real submission
/// protocol is a known gap, so its script is empty and its queue count
/// is a stub.
#[derive(Debug)]
pub struct SlurmScheduler;

impl SlurmScheduler {
    /// A placeholder: no script is built yet for this scheduler.
    pub fn create_job_script(&self, _job: &Job, _cluster_config: &ClusterConfig) -> (r: Result<
        String,
        JobError,
    >)
        ensures
            r matches Ok(s) && s@ == Seq::<char>::empty(),
    {
        Ok(String::new())
    }

    /// A stub pending real integration: reports an empty queue.
    pub fn get_number_of_enqueued_jobs(&self) -> (r: Result<usize, JobError>)
        ensures
            r matches Ok(v) && v == 0,
    {
        Ok(0)
    }
}

/// The batch scheduler reached through `qsub`; like the one above, a
/// placeholder.
#[derive(Debug)]
pub struct PbsScheduler;

impl PbsScheduler {
    /// A placeholder: no script is built yet for this scheduler.
    pub fn create_job_script(&self, _job: &Job, _cluster_config: &ClusterConfig) -> (r: Result<
        String,
        JobError,
    >)
        ensures
            r matches Ok(s) && s@ == Seq::<char>::empty(),
    {
        Ok(String::new())
    }

    /// A stub pending real integration: reports an empty queue.
    pub fn get_number_of_enqueued_jobs(&self) -> (r: Result<usize, JobError>)
        ensures
            r matches Ok(v) && v == 0,
    {
        Ok(0)
    }
}

/// The holding scheduler for jobs deferred by the concurrency cap: it
/// launches nothing and builds no script.
#[derive(Debug)]
pub struct VirtualScheduler;

impl VirtualScheduler {
    /// A deferred job gets no script.
    pub fn create_job_script(&self, _job: &Job, _cluster_config: &ClusterConfig) -> (r: Result<
        String,
        JobError,
    >)
        ensures
            r matches Ok(s) && s@ == Seq::<char>::empty(),
    {
        Ok(String::new())
    }

    /// Nothing is ever enqueued natively.
    pub fn get_number_of_enqueued_jobs(&self) -> (r: Result<usize, JobError>)
        ensures
            r matches Ok(v) && v == 0,
    {
        Ok(0)
    }
}

/// A text that stays on one line.
pub open spec fn single_line(s: Seq<char>) -> bool {
    forall|k: int| 0 <= k < s.len() ==> s[k] != '\n'
}

/// One-line texts concatenate to a one-line text.
pub proof fn lemma_single_line_concat(a: Seq<char>, b: Seq<char>)
    requires
        single_line(a),
        single_line(b),
    ensures
        single_line(a + b),
{
    assert forall|k: int| 0 <= k < (a + b).len() implies (a + b)[k] != '\n' by {
        if k < a.len() {
            assert((a + b)[k] == a[k]);
        } else {
            assert((a + b)[k] == b[k - a.len()]);
        }
    }
}

/// JSON escaping never emits a raw newline: the newline itself becomes
/// a two-character escape.
pub proof fn lemma_json_escape_single_line(s: Seq<char>)
    ensures
        single_line(json_escape(s)),
    decreases s.len(),
{
    if s.len() == 0 {
    } else {
        lemma_json_escape_single_line(s.skip(1));
        assert(single_line(json_escape_char(s[0]))) by {
            let c = s[0];
            if c == '"' || c == '\\' || c as u32 == 8 || c as u32 == 9 || c as u32 == 10
                || c as u32 == 12 || c as u32 == 13 {
            } else if (c as u32) < 32 {
                assert(crate::script::hex_digit((c as u32 / 16) as nat) != '\n');
                assert(crate::script::hex_digit((c as u32 % 16) as nat) != '\n');
            } else {
                assert(c as u32 != 10);
            }
        }
        lemma_single_line_concat(json_escape_char(s[0]), json_escape(s.skip(1)));
    }
}

/// A JSON string literal stays on one line whatever text it carries.
pub proof fn lemma_json_str_single_line(s: Seq<char>)
    ensures
        single_line(json_str(s)),
{
    lemma_json_escape_single_line(s);
    lemma_single_line_concat(seq!['"'], json_escape(s));
    lemma_single_line_concat(seq!['"'] + json_escape(s), seq!['"']);
}

/// Decimal numerals stay on one line.
pub proof fn lemma_nat_dec_single_line(n: nat)
    ensures
        single_line(nat_dec(n)),
    decreases n,
{
    if n < 10 {
        assert(crate::numfmt::dec_digit(n) != '\n');
    } else {
        lemma_nat_dec_single_line(n / 10);
        assert(crate::numfmt::dec_digit(n % 10) != '\n');
        lemma_single_line_concat(nat_dec(n / 10), seq![crate::numfmt::dec_digit(n % 10)]);
    }
}

/// Signed decimal numerals stay on one line.
pub proof fn lemma_int_dec_single_line(n: int)
    ensures
        single_line(int_dec(n)),
{
    if n < 0 {
        lemma_nat_dec_single_line((-n) as nat);
        lemma_single_line_concat(seq!['-'], nat_dec((-n) as nat));
    } else {
        lemma_nat_dec_single_line(n as nat);
    }
}

/// Optional fields stay on one line.
proof fn lemma_opt_fields_single_line(oi: Option<i64>, ob: Option<bool>, os: Option<String>)
    ensures
        single_line(opt_i64_json(oi)),
        single_line(opt_bool_json(ob)),
        single_line(opt_str_json(os)),
{
    reveal_strlit("null");
    reveal_strlit("true");
    reveal_strlit("false");
    match oi {
        Some(i) => lemma_int_dec_single_line(i as int),
        None => {},
    }
    match os {
        Some(s) => lemma_json_str_single_line(s@),
        None => {},
    }
}

/// The binding object stays on one line.
proof fn lemma_vars_items_sep_single_line(v: Seq<(Seq<char>, Seq<char>)>)
    ensures
        single_line(vars_items_sep(v)),
    decreases v.len(),
{
    if v.len() == 0 {
    } else {
        lemma_vars_items_sep_single_line(v.skip(1));
        lemma_json_str_single_line(v[0].0);
        lemma_json_str_single_line(v[0].1);
        lemma_single_line_concat(seq![','], json_str(v[0].0));
        lemma_single_line_concat(seq![','] + json_str(v[0].0), seq![':']);
        lemma_single_line_concat(seq![','] + json_str(v[0].0) + seq![':'], json_str(v[0].1));
        lemma_single_line_concat(
            seq![','] + json_str(v[0].0) + seq![':'] + json_str(v[0].1),
            vars_items_sep(v.skip(1)),
        );
    }
}

/// The binding object stays on one line.
proof fn lemma_vars_obj_single_line(v: Seq<(Seq<char>, Seq<char>)>)
    ensures
        single_line(vars_obj(v)),
{
    if v.len() == 0 {
        assert(vars_items(v) =~= Seq::<char>::empty());
        assert(single_line(vars_obj(v))) by {
            assert(vars_obj(v) =~= seq!['{', '}']);
        }
    } else {
        lemma_json_str_single_line(v[0].0);
        lemma_json_str_single_line(v[0].1);
        lemma_vars_items_sep_single_line(v.skip(1));
        lemma_single_line_concat(json_str(v[0].0), seq![':']);
        lemma_single_line_concat(json_str(v[0].0) + seq![':'], json_str(v[0].1));
        lemma_single_line_concat(
            json_str(v[0].0) + seq![':'] + json_str(v[0].1),
            vars_items_sep(v.skip(1)),
        );
        lemma_single_line_concat(seq!['{'], vars_items(v));
        lemma_single_line_concat(seq!['{'] + vars_items(v), seq!['}']);
    }
}

/// A job record's JSON stays on one line.
proof fn lemma_job_json_single_line(j: Job)
    ensures
        single_line(job_json(j)),
{
    reveal_strlit("\"archived\":");
    reveal_strlit(",\"command\":");
    reveal_strlit(",\"config_id\":");
    reveal_strlit(",\"directory\":");
    reveal_strlit(",\"end_time\":");
    reveal_strlit(",\"id\":");
    reveal_strlit(",\"job_id\":");
    reveal_strlit(",\"job_name\":");
    reveal_strlit(",\"postprocess\":");
    reveal_strlit(",\"preprocess\":");
    reveal_strlit(",\"status\":");
    reveal_strlit(",\"submit_time\":");
    reveal_strlit(",\"variables\":");
    lemma_opt_fields_single_line(j.end_time, j.archived, j.postprocess);
    lemma_opt_fields_single_line(j.job_id, None, j.preprocess);
    lemma_opt_fields_single_line(j.submit_time, None, None);
    lemma_int_dec_single_line(j.config_id as int);
    lemma_int_dec_single_line(j.id as int);
    lemma_json_str_single_line(j.command@);
    lemma_json_str_single_line(j.directory@);
    lemma_json_str_single_line(j.job_name@);
    lemma_json_str_single_line(status_str(j.status));
    lemma_vars_obj_single_line(pairs_views(j.variables@));
    assert(single_line(job_json_a(j))) by {
        assert forall|k: int| 0 <= k < job_json_a(j).len() implies job_json_a(j)[k] != '\n' by {}
    }
    assert(single_line(job_json_b(j))) by {
        assert forall|k: int| 0 <= k < job_json_b(j).len() implies job_json_b(j)[k] != '\n' by {}
    }
    assert(single_line(job_json_c(j))) by {
        assert forall|k: int| 0 <= k < job_json_c(j).len() implies job_json_c(j)[k] != '\n' by {}
    }
    lemma_single_line_concat(job_json_a(j), job_json_b(j));
    lemma_single_line_concat(job_json_a(j) + job_json_b(j), job_json_c(j));
}

/// Each structured log entry is exactly one line: as long as the
/// timestamp and any raw additional text hold no newline, neither does
/// the rendered entry, so the log stays line-delimited and every
/// complete prior line of a partially written file remains parseable.
pub proof fn lemma_log_entry_single_line(log: JobLog, additional: Option<String>, ts: Seq<char>)
    requires
        single_line(ts),
        additional matches Some(a) ==> single_line(a@),
    ensures
        single_line(log_entry_with_ts(log, additional, ts)),
{
    reveal_strlit("\"additional\":");
    reveal_strlit(",");
    reveal_strlit("\"data\":");
    reveal_strlit(",\"timestamp\":");
    reveal_strlit(",\"type\":");
    reveal_strlit("Metadata");
    reveal_strlit("StatusUpdate");
    reveal_strlit("BashVariable");
    reveal_strlit("Variable");
    assert(single_line(data_json(log))) by {
        match log {
            JobLog::Metadata(j) => lemma_job_json_single_line(j),
            JobLog::StatusUpdate(st) => lemma_json_str_single_line(status_str(st)),
            JobLog::BashVariable(name) => {
                lemma_json_str_single_line(name@);
                lemma_json_str_single_line("${"@ + name@ + "}"@);
                assert forall|k: int| 0 <= k < data_json(log).len() implies data_json(log)[k]
                    != '\n' by {}
            },
            JobLog::Variable(k2, v2) => {
                lemma_json_str_single_line(k2@);
                lemma_json_str_single_line(v2@);
                assert forall|k: int| 0 <= k < data_json(log).len() implies data_json(log)[k]
                    != '\n' by {}
            },
        }
    }
    assert(single_line(log_before_raw(data_json(log), additional))) by {
        assert forall|k: int|
            0 <= k < log_before_raw(data_json(log), additional).len() implies log_before_raw(
            data_json(log),
            additional,
        )[k] != '\n' by {}
    }
    lemma_json_str_single_line(ts);
    assert(single_line(log_after_raw(log_type_name(log)))) by {
        lemma_json_str_single_line(log_type_name(log));
        assert forall|k: int|
            0 <= k < log_after_raw(log_type_name(log)).len() implies log_after_raw(
            log_type_name(log),
        )[k] != '\n' by {}
    }
    lemma_single_line_concat(log_before_raw(data_json(log), additional), json_str(ts));
    lemma_single_line_concat(
        log_before_raw(data_json(log), additional) + json_str(ts),
        log_after_raw(log_type_name(log)),
    );
}

} // verus!
