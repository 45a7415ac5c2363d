//! Child-session templates and lifecycle rules.
//!
//! A [`Hamelin`] value is the immutable launch template: the command
//! path and its base argument list.  From it the adapter derives a
//! [`LaunchPlan`] — command, arguments and the environment entries the
//! child must see — which the surrounding application hands to the
//! operating system.  [`SessionLife`] keeps the lifecycle honest (a
//! session ends exactly once, stdin closes at most once), and
//! [`kill_decision`] drives the two-stage termination with its grace
//! window.

use vstd::prelude::*;
use vstd::slice::slice_index_get;
use vstd::string::StringExecFns;

verus! {

/// The views of a sequence of strings.
pub open spec fn str_views(ss: Seq<String>) -> Seq<Seq<char>> {
    ss.map(|i: int, s: String| s@)
}

/// The views of a sequence of environment entries.
pub open spec fn pair_views(ps: Seq<(String, String)>) -> Seq<(Seq<char>, Seq<char>)> {
    ps.map(|i: int, p: (String, String)| (p.0@, p.1@))
}

/// The value `key` ends up with when the entries are applied in
/// order: the last entry with that key wins, and a key no entry
/// names keeps whatever the inherited environment gave it.
pub open spec fn env_value(ps: Seq<(Seq<char>, Seq<char>)>, key: Seq<char>) -> Option<Seq<char>>
    decreases ps.len(),
{
    if ps.len() == 0 {
        None
    } else if ps.last().0 == key {
        Some(ps.last().1)
    } else {
        env_value(ps.drop_last(), key)
    }
}

/// Clone a borrowed argument list.
fn clone_strings(a: &[String]) -> (r: Vec<String>)
    ensures
        str_views(r@) == str_views(a@),
{
    let mut r: Vec<String> = Vec::new();
    let mut i: usize = 0;
    while i < a.len()
        invariant
            i <= a@.len(),
            r@.len() == i,
            forall|j: int| 0 <= j < i ==> r@[j]@ == a@[j]@,
        decreases a@.len() - i,
    {
        r.push(slice_index_get(a, i).clone());
        i = i + 1;
    }
    proof {
        assert(str_views(r@) =~= str_views(a@));
    }
    r
}

/// Clone a borrowed list of environment entries.
fn clone_pairs(ps: &Vec<(String, String)>) -> (r: Vec<(String, String)>)
    ensures
        pair_views(r@) == pair_views(ps@),
{
    let mut r: Vec<(String, String)> = Vec::new();
    let mut i: usize = 0;
    while i < ps.len()
        invariant
            i <= ps@.len(),
            r@.len() == i,
            forall|j: int| 0 <= j < i ==> r@[j].0@ == ps@[j].0@ && r@[j].1@ == ps@[j].1@,
        decreases ps@.len() - i,
    {
        let p = vstd::std_specs::vec::vec_index(ps, i);
        r.push((p.0.clone(), p.1.clone()));
        i = i + 1;
    }
    proof {
        assert(pair_views(r@) =~= pair_views(ps@));
    }
    r
}

/// A launch template: the hosted command and its base arguments.
/// Immutable after construction and safe to share.
pub struct Hamelin {
    child: String,
    args: Option<Vec<String>>,
}

/// Everything the application needs to start one child: the command,
/// its arguments, and the environment entries to apply, in order, on
/// top of the inherited environment.
pub struct LaunchPlan {
    pub command: String,
    pub args: Vec<String>,
    pub env: Vec<(String, String)>,
}

impl Hamelin {
    /// The command path of the template.
    pub closed spec fn command(&self) -> Seq<char> {
        self.child@
    }

    /// The argument list of the template, if one was given.
    pub closed spec fn arg_list(&self) -> Option<Seq<Seq<char>>> {
        match self.args {
            Some(a) => Some(str_views(a@)),
            None => None,
        }
    }

    /// The arguments a launch gets: the template's list, or an
    /// empty one.
    pub open spec fn launch_args(&self) -> Seq<Seq<char>> {
        match self.arg_list() {
            Some(a) => a,
            None => Seq::empty(),
        }
    }

    /// Constructs a template from the child command and optionally
    /// arguments.
    pub fn new(child: &str, args: Option<&[String]>) -> (h: Hamelin)
        ensures
            h.command() == child@,
            match args {
                Some(a) => h.arg_list() == Some(str_views(a@)),
                None => h.arg_list() is None,
            },
    {
        let owned: Option<Vec<String>> = match args {
            Some(a) => Some(clone_strings(a)),
            None => None,
        };
        Hamelin { child: child.to_owned(), args: owned }
    }

    /// The plan for a plain launch: template command and arguments,
    /// and an environment holding exactly the version tag.
    pub fn spawn_plan(&self) -> (p: LaunchPlan)
        ensures
            p.command@ == self.command(),
            str_views(p.args@) == self.launch_args(),
            pair_views(p.env@) == seq![("H-VERSION"@, "hamelin.rs"@)],
    {
        let p = self.spawn_plan_with_env(&Vec::new());
        proof {
            assert(pair_views(Seq::<(String, String)>::empty()).push(
                ("H-VERSION"@, "hamelin.rs"@),
            ) =~= seq![("H-VERSION"@, "hamelin.rs"@)]);
        }
        p
    }

    /// The plan for a launch with adapter-provided environment
    /// entries: they are applied in order, and the version tag comes
    /// last, so every child sees `H-VERSION` whatever the adapter
    /// chose.
    pub fn spawn_plan_with_env(&self, extra: &Vec<(String, String)>) -> (p: LaunchPlan)
        ensures
            p.command@ == self.command(),
            str_views(p.args@) == self.launch_args(),
            pair_views(p.env@) == pair_views(extra@).push(("H-VERSION"@, "hamelin.rs"@)),
    {
        let args: Vec<String> = match &self.args {
            Some(a) => clone_strings(a.as_slice()),
            None => Vec::new(),
        };
        proof {
            if self.arg_list() is None {
                assert(str_views(Seq::<String>::empty()) =~= Seq::<Seq<char>>::empty());
            }
        }
        let mut env = clone_pairs(extra);
        env.push((String::from_str("H-VERSION"), String::from_str("hamelin.rs")));
        proof {
            assert(pair_views(env@) =~= pair_views(extra@).push(("H-VERSION"@, "hamelin.rs"@)));
        }
        LaunchPlan { command: self.child.clone(), args, env }
    }
}

/// The version tag reaches every child: after any plan, `H-VERSION`
/// resolves to the implementation tag, and every other key keeps the
/// value the adapter entries gave it.
pub proof fn lemma_env_version(extra: Seq<(Seq<char>, Seq<char>)>, key: Seq<char>)
    ensures
        env_value(extra.push(("H-VERSION"@, "hamelin.rs"@)), "H-VERSION"@) == Some("hamelin.rs"@),
        key != "H-VERSION"@ ==> env_value(extra.push(("H-VERSION"@, "hamelin.rs"@)), key)
            == env_value(extra, key),
{
    let whole = extra.push(("H-VERSION"@, "hamelin.rs"@));
    assert(whole.last() == ("H-VERSION"@, "hamelin.rs"@));
    assert(whole.drop_last() =~= extra);
}

/// The lifecycle of one hosted child, as the adapter may drive it:
/// stdin closes at most once and never after the session ended; the
/// session ends exactly once.
pub struct SessionLife {
    stdin_open: bool,
    ended: bool,
}

impl SessionLife {
    /// Whether the child's stdin is still open.
    pub closed spec fn stdin_is_open(&self) -> bool {
        self.stdin_open
    }

    /// Whether the session has ended (was waited for or killed).
    pub closed spec fn has_ended(&self) -> bool {
        self.ended
    }

    /// A fresh session: stdin open, not ended.
    pub fn begin() -> (s: SessionLife)
        ensures
            s.stdin_is_open(),
            !s.has_ended(),
    {
        SessionLife { stdin_open: true, ended: false }
    }

    /// Closing the child's stdin: idempotent while the session is
    /// alive, and a failure once the child is gone.
    pub fn close_input(&mut self) -> (ok: bool)
        ensures
            ok == !old(self).has_ended(),
            final(self).has_ended() == old(self).has_ended(),
            final(self).stdin_is_open() == (old(self).has_ended() && old(self).stdin_is_open()),
    {
        if self.ended {
            false
        } else {
            self.stdin_open = false;
            true
        }
    }

    /// The session ends: at most once, whether by wait or by kill.
    pub fn end(&mut self)
        requires
            !old(self).has_ended(),
        ensures
            final(self).has_ended(),
            !final(self).stdin_is_open(),
    {
        self.stdin_open = false;
        self.ended = true;
    }
}

/// The grace the polite termination signal gets before escalation,
/// in milliseconds.
pub const KILL_GRACE_MS: u64 = 1000;

/// One decision of the kill loop.
#[derive(Clone, Copy, PartialEq, Eq, Structural, Debug)]
pub enum KillStep {
    /// Stay in the current phase and poll again.
    Wait,
    /// The grace window has passed: send the unconditional signal.
    Escalate,
    /// The child is gone; reap it and return.
    Finished,
}

/// What the kill loop does next, given when the polite signal was
/// sent, the time now, whether the child still runs, and whether the
/// unconditional signal already went out.
pub open spec fn kill_decision(start_ms: u64, now_ms: u64, alive: bool, escalated: bool) -> KillStep {
    if !alive {
        KillStep::Finished
    } else if !escalated && now_ms - start_ms >= KILL_GRACE_MS {
        KillStep::Escalate
    } else {
        KillStep::Wait
    }
}

/// One decision of the kill loop, as [`kill_decision`] rules.
pub fn kill_decide(start_ms: u64, now_ms: u64, alive: bool, escalated: bool) -> (r: KillStep)
    requires
        start_ms <= now_ms,
    ensures
        r == kill_decision(start_ms, now_ms, alive, escalated),
{
    if !alive {
        KillStep::Finished
    } else if !escalated && now_ms - start_ms >= KILL_GRACE_MS {
        KillStep::Escalate
    } else {
        KillStep::Wait
    }
}

/// The grace window holds: the unconditional signal is never ordered
/// before the polite signal has had its full grace.
pub proof fn lemma_kill_grace(start_ms: u64, now_ms: u64, alive: bool, escalated: bool)
    requires
        start_ms <= now_ms,
        kill_decision(start_ms, now_ms, alive, escalated) is Escalate,
    ensures
        now_ms >= start_ms + KILL_GRACE_MS,
{
}

/// The kill loop only returns over a dead child: a `Finished`
/// decision means the last aliveness poll came back negative.
pub proof fn lemma_kill_finishes_dead(start_ms: u64, now_ms: u64, alive: bool, escalated: bool)
    requires
        kill_decision(start_ms, now_ms, alive, escalated) is Finished,
    ensures
        !alive,
{
}

} // verus!
