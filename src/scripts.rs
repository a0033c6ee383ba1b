//! The scripts that run after an update: which, in what order, and what each
//! outcome reports.
use vstd::prelude::*;

use crate::config::Config;
use crate::profiles::str_views;

verus! {

/// The path of a per-profile script: the profile's directory, a `/`, and the
/// script as configured.
pub open spec fn profile_script(base: Seq<char>, script: Seq<char>) -> Seq<char> {
    base + seq!['/'] + script
}

/// The scripts of an update, in order: the global scripts as given, then the
/// per-profile scripts under the profile's directory `base`.
pub open spec fn scripts_of(
    global: Seq<Seq<char>>,
    per_profile: Seq<Seq<char>>,
    base: Seq<char>,
) -> Seq<Seq<char>> {
    global + per_profile.map_values(|s: Seq<char>| profile_script(base, s))
}

/// How a script ended.
#[derive(Debug, Clone)]
pub enum ScriptOutcome {
    /// It ran and exited; `success` where its exit status was zero, and
    /// `status` the status as reported.
    Exited { success: bool, status: String },
    /// It could not be started; the reason.
    NotStarted(String),
}

/// The report of a script: a success line, or the reason it failed.
pub open spec fn script_report(script: Seq<char>, outcome: ScriptOutcome) -> Result<
    Seq<char>,
    Seq<char>,
> {
    match outcome {
        ScriptOutcome::Exited { success, status } => if success {
            Ok("Executed script "@ + script)
        } else {
            Err("script exited with status: "@ + status@)
        },
        ScriptOutcome::NotStarted(reason) => Err(reason@),
    }
}

pub open spec fn result_view(r: Result<String, String>) -> Result<Seq<char>, Seq<char>> {
    match r {
        Ok(s) => Ok(s@),
        Err(e) => Err(e@),
    }
}

/// The path of a per-profile script (see `profile_script`).
pub fn profile_script_path(base: &str, script: &str) -> (r: String)
    ensures
        r@ == profile_script(base@, script@),
{
    let mut r = base.to_owned();
    proof {
        reveal_strlit("/");
    }
    r.append("/");
    r.append(script);
    r
}

/// The scripts of an update for the profile directory `base` (see
/// `scripts_of`).
pub fn scripts_to_run(config: &Config, base: &str) -> (r: Vec<String>)
    ensures
        str_views(r@) == scripts_of(
            str_views(config.global_scripts@),
            str_views(config.per_profile_scripts@),
            base@,
        ),
{
    let mut r: Vec<String> = Vec::new();
    let mut i: usize = 0;
    while i < config.global_scripts.len()
        invariant
            i <= config.global_scripts.len(),
            str_views(r@) == str_views(config.global_scripts@).subrange(0, i as int),
        decreases config.global_scripts.len() - i,
    {
        let ghost prev = r@;
        let s = config.global_scripts[i].clone();
        r.push(s);
        assert(str_views(r@) =~= str_views(prev).push(s@));
        assert(str_views(r@) =~= str_views(config.global_scripts@).subrange(0, i + 1));
        i = i + 1;
    }
    let ghost g = str_views(config.global_scripts@);
    assert(g.subrange(0, g.len() as int) =~= g);
    let mut j: usize = 0;
    while j < config.per_profile_scripts.len()
        invariant
            j <= config.per_profile_scripts.len(),
            g == str_views(config.global_scripts@),
            str_views(r@) == scripts_of(
                g,
                str_views(config.per_profile_scripts@).subrange(0, j as int),
                base@,
            ),
        decreases config.per_profile_scripts.len() - j,
    {
        let ghost prev = r@;
        let s = profile_script_path(base, config.per_profile_scripts[j].as_str());
        r.push(s);
        assert(str_views(r@) =~= str_views(prev).push(s@));
        let ghost pp = str_views(config.per_profile_scripts@);
        assert(pp.subrange(0, j + 1) =~= pp.subrange(0, j as int).push(pp[j as int]));
        assert(pp.subrange(0, j + 1).map_values(|t: Seq<char>| profile_script(base@, t))
            =~= pp.subrange(0, j as int).map_values(|t: Seq<char>| profile_script(base@, t)).push(
            s@,
        ));
        assert(str_views(r@) =~= scripts_of(
            g,
            str_views(config.per_profile_scripts@).subrange(0, j + 1),
            base@,
        ));
        j = j + 1;
    }
    assert(str_views(config.per_profile_scripts@).subrange(
        0,
        config.per_profile_scripts.len() as int,
    ) =~= str_views(config.per_profile_scripts@));
    r
}

/// The report of `script` for how it ended (see `script_report`).
pub fn script_result(script: &str, outcome: &ScriptOutcome) -> (r: Result<String, String>)
    ensures
        result_view(r) == script_report(script@, *outcome),
{
    match outcome {
        ScriptOutcome::Exited { success, status } => {
            if *success {
                let mut m = "Executed script ".to_owned();
                m.append(script);
                Ok(m)
            } else {
                let mut m = "script exited with status: ".to_owned();
                m.append(status.as_str());
                Err(m)
            }
        },
        ScriptOutcome::NotStarted(reason) => Err(reason.clone()),
    }
}

/// The scripts of an update still to run, one after the other.
pub struct ScriptQueue {
    scripts: Vec<String>,
    next: usize,
}

impl ScriptQueue {
    /// The scripts still to run, in order.
    pub closed spec fn remaining(&self) -> Seq<Seq<char>> {
        str_views(self.scripts@).skip(self.next as int)
    }

    pub closed spec fn wf(&self) -> bool {
        self.next <= self.scripts.len()
    }

    /// The queue of the scripts of an update for the profile directory
    /// `base`.
    pub fn new(config: &Config, base: &str) -> (r: ScriptQueue)
        ensures
            r.wf(),
            r.remaining() == scripts_of(
                str_views(config.global_scripts@),
                str_views(config.per_profile_scripts@),
                base@,
            ),
    {
        let scripts = scripts_to_run(config, base);
        let r = ScriptQueue { scripts, next: 0 };
        assert(r.remaining() =~= str_views(r.scripts@));
        r
    }

    /// The next script to run, if any is left.
    pub fn next_script(&self) -> (r: Option<String>)
        requires
            self.wf(),
        ensures
            self.remaining().len() == 0 ==> r is None,
            self.remaining().len() > 0 ==> (r matches Some(s) && s@ == self.remaining()[0]),
    {
        if self.next < self.scripts.len() {
            Some(self.scripts[self.next].clone())
        } else {
            None
        }
    }

    /// Takes note of how the next script ended and reports it under `ran`,
    /// the path that was run (the script with `~/` expanded). Whatever the
    /// outcome, the queue moves on to the script after it: a failing script
    /// never keeps the others from running.
    pub fn record(&mut self, ran: &str, outcome: &ScriptOutcome) -> (r: Result<String, String>)
        requires
            old(self).wf(),
            old(self).remaining().len() > 0,
        ensures
            final(self).wf(),
            final(self).remaining() == old(self).remaining().drop_first(),
            result_view(r) == script_report(ran@, *outcome),
    {
        let r = script_result(ran, outcome);
        self.next = self.next + 1;
        assert(self.remaining() =~= old(self).remaining().drop_first());
        r
    }
}

/// The lines of a preview that name the scripts an update would run: each
/// global script, then each per-profile script under `base`.
pub open spec fn preview_script_lines(
    global: Seq<Seq<char>>,
    per_profile: Seq<Seq<char>>,
    base: Seq<char>,
) -> Seq<Seq<char>> {
    global.map_values(|s: Seq<char>| "Would run global executable: "@ + s) + per_profile.map_values(
        |s: Seq<char>| "Would run profile executable: "@ + profile_script(base, s),
    )
}

/// The lines of a preview that name the scripts an update would run (see
/// `preview_script_lines`); nothing is run.
pub fn preview_scripts(config: &Config, base: &str) -> (r: Vec<String>)
    ensures
        str_views(r@) == preview_script_lines(
            str_views(config.global_scripts@),
            str_views(config.per_profile_scripts@),
            base@,
        ),
{
    let ghost g = str_views(config.global_scripts@);
    let ghost pp = str_views(config.per_profile_scripts@);
    let mut r: Vec<String> = Vec::new();
    let mut i: usize = 0;
    while i < config.global_scripts.len()
        invariant
            i <= config.global_scripts.len(),
            g == str_views(config.global_scripts@),
            str_views(r@) == g.subrange(0, i as int).map_values(
                |s: Seq<char>| "Would run global executable: "@ + s,
            ),
        decreases config.global_scripts.len() - i,
    {
        let ghost prev = r@;
        let mut line = "Would run global executable: ".to_owned();
        line.append(config.global_scripts[i].as_str());
        r.push(line);
        assert(str_views(r@) =~= str_views(prev).push(line@));
        assert(g.subrange(0, i + 1) =~= g.subrange(0, i as int).push(g[i as int]));
        assert(str_views(r@) =~= g.subrange(0, i + 1).map_values(
            |s: Seq<char>| "Would run global executable: "@ + s,
        ));
        i = i + 1;
    }
    assert(g.subrange(0, g.len() as int) =~= g);
    let mut j: usize = 0;
    while j < config.per_profile_scripts.len()
        invariant
            j <= config.per_profile_scripts.len(),
            g == str_views(config.global_scripts@),
            pp == str_views(config.per_profile_scripts@),
            str_views(r@) == preview_script_lines(g, pp.subrange(0, j as int), base@),
        decreases config.per_profile_scripts.len() - j,
    {
        let ghost prev = r@;
        let path = profile_script_path(base, config.per_profile_scripts[j].as_str());
        let mut line = "Would run profile executable: ".to_owned();
        line.append(path.as_str());
        r.push(line);
        assert(str_views(r@) =~= str_views(prev).push(line@));
        assert(pp.subrange(0, j + 1) =~= pp.subrange(0, j as int).push(pp[j as int]));
        assert(str_views(r@) =~= preview_script_lines(g, pp.subrange(0, j + 1), base@));
        j = j + 1;
    }
    assert(pp.subrange(0, pp.len() as int) =~= pp);
    r
}

} // verus!
