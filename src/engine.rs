//! Decisions on what the container engine reports: health polls, command
//! output and exit codes, process tables, the sweep of leftover containers
//! and image build events.

use vstd::prelude::*;

use crate::backoff::{timeout_text, Backoff, RetryStep, DEFAULT_ATTEMPTS};
use crate::error::{Error, ErrorKind};
use crate::string_map::StringMap;
use crate::text::{join_pair, push_char, split_char, split_on, strings_view};

verus! {

/// The health status that the engine reports for a container.
#[derive(Debug, Clone, Copy, PartialEq, Eq, Structural)]
pub enum HealthStatus {
    Empty,
    NoHealthcheck,
    Starting,
    Healthy,
    Unhealthy,
}

/// Whether `c` is white space, as `char::is_whitespace` defines it.
pub open spec fn is_white(c: char) -> bool {
    let u = c as u32;
    ||| u == 32
    ||| (9 <= u <= 13)
    ||| u == 0x85
    ||| u == 0xa0
    ||| u == 0x1680
    ||| (0x2000 <= u <= 0x200a)
    ||| u == 0x2028
    ||| u == 0x2029
    ||| u == 0x202f
    ||| u == 0x205f
    ||| u == 0x3000
}

/// The first index at or after `i` that holds no white space, or `s.len()`.
pub open spec fn lead_end(s: Seq<char>, i: int) -> int
    decreases s.len() - i,
{
    if i >= s.len() {
        s.len() as int
    } else if !is_white(s[i]) {
        i
    } else {
        lead_end(s, i + 1)
    }
}

/// One past the last index below `j` that holds no white space, or 0.
pub open spec fn trail_start(s: Seq<char>, j: int) -> int
    decreases j,
{
    if j <= 0 {
        0
    } else if !is_white(s[j - 1]) {
        j
    } else {
        trail_start(s, j - 1)
    }
}

/// `s` without white space at either end.
pub open spec fn trimmed(s: Seq<char>) -> Seq<char> {
    let a = lead_end(s, 0);
    if a >= s.len() {
        seq![]
    } else {
        s.subrange(a, trail_start(s, s.len() as int))
    }
}

proof fn lemma_lead_end(s: Seq<char>, i: int)
    requires
        0 <= i <= s.len(),
    ensures
        i <= lead_end(s, i) <= s.len(),
        lead_end(s, i) < s.len() ==> !is_white(s[lead_end(s, i)]),
    decreases s.len() - i,
{
    if i < s.len() && is_white(s[i]) {
        lemma_lead_end(s, i + 1);
    }
}

proof fn lemma_trail_start(s: Seq<char>, j: int, a: int)
    requires
        0 <= a < j <= s.len(),
        !is_white(s[a]),
    ensures
        a < trail_start(s, j) <= j,
    decreases j,
{
    if is_white(s[j - 1]) {
        lemma_trail_start(s, j - 1, a);
    }
}

/// `s` without white space at either end, as `str::trim` gives it.
pub fn trim(s: &str) -> (r: String)
    ensures
        r@ == trimmed(s@),
{
    let n = s.unicode_len();
    let mut i: usize = 0;
    while i < n && is_white_char(s.get_char(i))
        invariant
            n == s@.len(),
            i <= n,
            lead_end(s@, 0) == lead_end(s@, i as int),
        decreases n - i,
    {
        i = i + 1;
    }
    if i >= n {
        return String::new();
    }
    let mut j: usize = n;
    proof {
        lemma_trail_start(s@, n as int, i as int);
    }
    while j > 0 && is_white_char(s.get_char(j - 1))
        invariant
            n == s@.len(),
            i < n,
            !is_white(s@[i as int]),
            i < j <= n,
            trail_start(s@, n as int) == trail_start(s@, j as int),
        decreases j,
    {
        j = j - 1;
    }
    String::from_str(s.substring_char(i, j))
}

fn is_white_char(c: char) -> (r: bool)
    ensures
        r == is_white(c),
{
    let u = c as u32;
    u == 32 || (9 <= u && u <= 13) || u == 0x85 || u == 0xa0 || u == 0x1680 || (0x2000 <= u && u <= 0x200a)
        || u == 0x2028 || u == 0x2029 || u == 0x202f || u == 0x205f || u == 0x3000
}

pub open spec fn digit_char(d: nat) -> char {
    ((d + 48) as u8) as char
}

/// The decimal digits of `n`.
pub open spec fn digits(n: nat) -> Seq<char>
    decreases n,
{
    if n < 10 {
        seq![digit_char(n)]
    } else {
        digits(n / 10).push(digit_char(n % 10))
    }
}

/// `n` in decimal, with a leading `-` when negative.
pub open spec fn decimal_text(n: int) -> Seq<char> {
    if n < 0 {
        seq!['-'] + digits((-n) as nat)
    } else {
        digits(n as nat)
    }
}

fn push_digits(out: &mut String, n: u64)
    ensures
        final(out)@ == old(out)@ + digits(n as nat),
    decreases n,
{
    if n >= 10 {
        push_digits(out, n / 10);
    }
    push_char(out, ((n % 10) as u8 + 48) as char);
}

/// `n` in decimal, as `i64::to_string` gives it.
pub fn decimal(n: i64) -> (r: String)
    ensures
        r@ == decimal_text(n as int),
{
    let mut out = String::new();
    if n < 0 {
        push_char(&mut out, '-');
        let m: u64 = if n == i64::MIN {
            9223372036854775808u64
        } else {
            (-n) as u64
        };
        push_digits(&mut out, m);
    } else {
        push_digits(&mut out, n as u64);
    }
    out
}

/// `Container `, the container's id, then `rest`.
pub open spec fn container_text(id: Seq<char>, rest: Seq<char>) -> Seq<char> {
    seq!['C', 'o', 'n', 't', 'a', 'i', 'n', 'e', 'r', ' '] + id + rest
}

pub open spec fn not_healthy_text() -> Seq<char> {
    seq![' ', 'n', 'o', 't', ' ', 'y', 'e', 't', ' ', 'h', 'e', 'a', 'l', 't', 'h', 'y']
}

pub open spec fn not_ready_text(cause: Seq<char>) -> Seq<char> {
    seq![' ', 'n', 'o', 't', ' ', 'r', 'e', 'a', 'd', 'y', ':', ' '] + cause
}

/// The result of one health poll of container `id`: success exactly when the
/// engine reports `healthy`. Any other status, no health check, or a failed
/// inspection is a transient failure that names the container.
pub fn health_outcome(id: &str, inspected: Result<Option<HealthStatus>, Error>) -> (r: Result<(), Error>)
    ensures
        r is Ok <==> inspected == Ok::<Option<HealthStatus>, Error>(Some(HealthStatus::Healthy)),
        r matches Err(e) ==> e.kind == ErrorKind::Transient && match inspected {
            Ok(_) => e.description@ == container_text(id@, not_healthy_text()),
            Err(cause) => e.description@ == container_text(id@, not_ready_text(cause.description@)),
        },
{
    proof {
        reveal_strlit("Container ");
        reveal_strlit(" not yet healthy");
        reveal_strlit(" not ready: ");
    }
    match inspected {
        Ok(Some(HealthStatus::Healthy)) => Ok(()),
        Ok(_) => {
            let d = join_pair("Container ", id, " not yet healthy");
            Err(Error::new(ErrorKind::Transient, d))
        },
        Err(cause) => {
            let mut d = join_pair("Container ", id, " not ready: ");
            d.append(cause.description.as_str());
            Err(Error::new(ErrorKind::Transient, d))
        },
    }
}

/// The lines of the collected output: each chunk split at `\n`, each line
/// trimmed, in order.
pub open spec fn output_lines(chunks: Seq<Seq<char>>) -> Seq<Seq<char>>
    decreases chunks.len(),
{
    if chunks.len() == 0 {
        seq![]
    } else {
        output_lines(chunks.drop_last()) + split_on(chunks.last(), '\n').map_values(|l: Seq<char>| trimmed(l))
    }
}

pub open spec fn exit_code_text(code: i64) -> Seq<char> {
    seq!['U', 'n', 'e', 'x', 'p', 'e', 'c', 't', 'e', 'd', ' ', 'e', 'x', 'i', 't', ' ', 'c', 'o', 'd', 'e', ':', ' ']
        + decimal_text(code as int)
}

/// The result of a command run in a container, from the output it wrote and
/// the exit code it ended with: the output lines, trimmed, when the exit
/// code is the expected one, else an exit-code error that gives the code.
pub fn exec_outcome(chunks: &Vec<String>, exit_code: i64, expected_exit_code: u32) -> (r: Result<Vec<String>, Error>)
    ensures
        r is Ok <==> exit_code == expected_exit_code as i64,
        r matches Ok(lines) ==> strings_view(lines@) == output_lines(strings_view(chunks@)),
        r matches Err(e) ==> e.kind == ErrorKind::ExitCode && e.description@ == exit_code_text(exit_code),
{
    if exit_code != expected_exit_code as i64 {
        let mut d = String::from_str("Unexpected exit code: ");
        proof {
            reveal_strlit("Unexpected exit code: ");
        }
        d.append(decimal(exit_code).as_str());
        return Err(Error::new(ErrorKind::ExitCode, d));
    }
    let mut out: Vec<String> = Vec::new();
    let mut i: usize = 0;
    while i < chunks.len()
        invariant
            i <= chunks@.len(),
            strings_view(out@) == output_lines(strings_view(chunks@.take(i as int))),
        decreases chunks.len() - i,
    {
        let pieces = split_char(chunks[i].as_str(), '\n');
        let ghost before = strings_view(out@);
        let mut j: usize = 0;
        while j < pieces.len()
            invariant
                j <= pieces@.len(),
                strings_view(out@) == before + strings_view(pieces@).take(j as int).map_values(|l: Seq<char>| trimmed(l)),
            decreases pieces.len() - j,
        {
            let line = trim(pieces[j].as_str());
            let ghost mid = strings_view(out@);
            out.push(line);
            proof {
                assert(strings_view(out@) =~= mid.push(line@));
                assert(strings_view(pieces@).take(j + 1).map_values(|l: Seq<char>| trimmed(l)) =~= strings_view(pieces@).take(
                    j as int,
                ).map_values(|l: Seq<char>| trimmed(l)).push(trimmed(pieces@[j as int]@)));
            }
            j = j + 1;
        }
        proof {
            let cs = strings_view(chunks@.take(i + 1));
            assert(cs.drop_last() =~= strings_view(chunks@.take(i as int)));
            assert(cs.last() == chunks@[i as int]@);
            assert(strings_view(pieces@).take(pieces@.len() as int) =~= strings_view(pieces@));
        }
        i = i + 1;
    }
    assert(chunks@.take(chunks@.len() as int) =~= chunks@);
    Ok(out)
}

/// The first index of `title` among `titles`, or `titles.len()`.
pub open spec fn column_of(titles: Seq<Seq<char>>, title: Seq<char>, i: int) -> int
    decreases titles.len() - i,
{
    if i >= titles.len() {
        titles.len() as int
    } else if titles[i] == title {
        i
    } else {
        column_of(titles, title, i + 1)
    }
}

fn find_column(titles: &Vec<String>, title: &str) -> (r: usize)
    ensures
        r == column_of(strings_view(titles@), title@, 0),
        r <= titles@.len(),
{
    let ghost ts = strings_view(titles@);
    let wanted = String::from_str(title);
    let mut i: usize = 0;
    while i < titles.len()
        invariant
            wanted@ == title@,
            ts == strings_view(titles@),
            i <= titles@.len(),
            column_of(ts, title@, 0) == column_of(ts, title@, i as int),
        decreases titles.len() - i,
    {
        if titles[i] == wanted {
            proof {
                assert(ts[i as int] == titles@[i as int]@);
            }
            return i;
        }
        proof {
            assert(ts[i as int] == titles@[i as int]@);
        }
        i = i + 1;
    }
    i
}

pub open spec fn pid_title() -> Seq<char> {
    seq!['P', 'I', 'D']
}

pub open spec fn cmd_title() -> Seq<char> {
    seq!['C', 'M', 'D']
}

/// Every row has cells at both columns.
pub open spec fn rows_reach(rows: Seq<Vec<String>>, p: int, c: int) -> bool {
    forall|i: int| 0 <= i < rows.len() ==> p < (#[trigger] rows[i])@.len() && c < rows[i]@.len()
}

/// The process table as a map from command to process id; a later row for
/// the same command wins.
pub open spec fn table_map(rows: Seq<Vec<String>>, p: int, c: int) -> Map<Seq<char>, Seq<char>>
    decreases rows.len(),
{
    if rows.len() == 0 {
        Map::empty()
    } else {
        table_map(rows.drop_last(), p, c).insert(rows.last()@[c]@, rows.last()@[p]@)
    }
}

/// The processes of a container, by command, from the engine's process
/// table. The columns are found by their titles, `PID` and `CMD`. Fails when
/// a title is missing or a row is too short for one of the columns.
pub fn process_table(titles: &Vec<String>, processes: &Vec<Vec<String>>) -> (r: Result<StringMap, Error>)
    ensures
        ({
            let ts = strings_view(titles@);
            let p = column_of(ts, pid_title(), 0);
            let c = column_of(ts, cmd_title(), 0);
            &&& r is Ok <==> (p < ts.len() && c < ts.len() && rows_reach(processes@, p, c))
            &&& r matches Ok(m) ==> m.wf() && m@ == table_map(processes@, p, c)
            &&& r matches Err(e) ==> e.kind == ErrorKind::Engine
        }),
{
    proof {
        reveal_strlit("PID");
        reveal_strlit("CMD");
        assert("PID"@ =~= pid_title());
        assert("CMD"@ =~= cmd_title());
        assert(strings_view(titles@).len() == titles@.len());
    }
    let p = find_column(titles, "PID");
    let c = find_column(titles, "CMD");
    if p >= titles.len() || c >= titles.len() {
        return Err(Error::new(ErrorKind::Engine, String::from_str("Process table lacks a PID or CMD column")));
    }
    let mut m = StringMap::new();
    let mut i: usize = 0;
    while i < processes.len()
        invariant
            i <= processes@.len(),
            m.wf(),
            p == column_of(strings_view(titles@), pid_title(), 0),
            c == column_of(strings_view(titles@), cmd_title(), 0),
            p < titles@.len(),
            c < titles@.len(),
            strings_view(titles@).len() == titles@.len(),
            rows_reach(processes@.take(i as int), p as int, c as int),
            m@ == table_map(processes@.take(i as int), p as int, c as int),
        decreases processes.len() - i,
    {
        let row = &processes[i];
        if p >= row.len() || c >= row.len() {
            proof {
                assert(processes@[i as int] == *row);
                assert(!(p < processes@[i as int]@.len() && c < processes@[i as int]@.len()));
                assert(!rows_reach(processes@, p as int, c as int));
            }
            return Err(Error::new(ErrorKind::Engine, String::from_str("Process table row is too short")));
        }
        m.insert(String::from_str(row[c].as_str()), String::from_str(row[p].as_str()));
        proof {
            let t = processes@.take(i + 1);
            assert(t.drop_last() =~= processes@.take(i as int));
            assert(t.last() == *row);
            assert forall|k: int| 0 <= k < t.len() implies p < (#[trigger] t[k])@.len() && c < t[k]@.len() by {
                if k < i {
                    assert(t[k] == processes@.take(i as int)[k]);
                }
            }
        }
        i = i + 1;
    }
    assert(processes@.take(processes@.len() as int) =~= processes@);
    Ok(m)
}

/// What the engine reported when a leftover container was inspected.
#[derive(Debug, Clone, Copy, PartialEq, Eq, Structural)]
pub enum Inspection {
    /// The inspection failed: the container is already gone.
    Gone,
    /// The engine reported no state for the container.
    NoState,
    /// The container's state; `running` tells whether it still runs.
    State { running: bool },
}

/// What the cleanup does to one leftover container.
#[derive(Debug, Clone)]
pub enum CleanupStep {
    /// Force-stop the container, then remove it.
    StopAndRemove { id: String },
    /// Remove the container.
    Remove { id: String },
}

pub open spec fn step_id(s: CleanupStep) -> Seq<char> {
    match s {
        CleanupStep::StopAndRemove { id } => id@,
        CleanupStep::Remove { id } => id@,
    }
}

/// The step for one container, as (stop first, id); none for a container
/// that is gone or has no state.
pub open spec fn step_for(id: Seq<char>, inspection: Inspection) -> Option<(bool, Seq<char>)> {
    match inspection {
        Inspection::State { running } => Some((running, id)),
        _ => None,
    }
}

pub open spec fn step_view(s: CleanupStep) -> (bool, Seq<char>) {
    match s {
        CleanupStep::StopAndRemove { id } => (true, id@),
        CleanupStep::Remove { id } => (false, id@),
    }
}

/// The steps of a sweep, container by container, in order.
pub open spec fn plan_of(cs: Seq<(String, Inspection)>) -> Seq<(bool, Seq<char>)>
    decreases cs.len(),
{
    if cs.len() == 0 {
        seq![]
    } else {
        match step_for(cs.last().0@, cs.last().1) {
            Some(s) => plan_of(cs.drop_last()).push(s),
            None => plan_of(cs.drop_last()),
        }
    }
}

/// The step for one leftover container: a running one is stopped before it
/// is removed; one that is gone, or has no state, is left alone.
pub fn cleanup_step(id: &str, inspection: Inspection) -> (r: Option<CleanupStep>)
    ensures
        match r {
            Some(s) => step_for(id@, inspection) == Some(step_view(s)),
            None => step_for(id@, inspection) is None,
        },
{
    match inspection {
        Inspection::State { running } => {
            let id = String::from_str(id);
            if running {
                Some(CleanupStep::StopAndRemove { id })
            } else {
                Some(CleanupStep::Remove { id })
            }
        },
        _ => None,
    }
}

/// The steps of a sweep over the leftover test containers, in order.
pub fn cleanup_plan(containers: &Vec<(String, Inspection)>) -> (r: Vec<CleanupStep>)
    ensures
        r@.map_values(|s: CleanupStep| step_view(s)) == plan_of(containers@),
{
    let mut out: Vec<CleanupStep> = Vec::new();
    let mut i: usize = 0;
    while i < containers.len()
        invariant
            i <= containers@.len(),
            out@.map_values(|s: CleanupStep| step_view(s)) == plan_of(containers@.take(i as int)),
        decreases containers.len() - i,
    {
        let ghost before = out@.map_values(|s: CleanupStep| step_view(s));
        let ghost t = containers@.take(i + 1);
        proof {
            assert(t.drop_last() =~= containers@.take(i as int));
            assert(t.last() == containers@[i as int]);
        }
        match cleanup_step(containers[i].0.as_str(), containers[i].1) {
            Some(step) => {
                out.push(step);
                assert(out@.map_values(|s: CleanupStep| step_view(s)) =~= before.push(step_view(step)));
            },
            None => {},
        }
        i = i + 1;
    }
    assert(containers@.take(containers@.len() as int) =~= containers@);
    out
}

/// A sweep cleans every container whose state could still be read, whatever
/// became of the others: each has a step, and a running one is stopped first.
pub proof fn lemma_sweep_cleans_resolvable(cs: Seq<(String, Inspection)>, i: int)
    requires
        0 <= i < cs.len(),
        cs[i].1 matches Inspection::State { running: _ },
    ensures
        plan_of(cs).contains(
            (
                match cs[i].1 {
                    Inspection::State { running } => running,
                    _ => false,
                },
                cs[i].0@,
            ),
        ),
    decreases cs.len(),
{
    let s = match cs[i].1 {
        Inspection::State { running } => running,
        _ => false,
    };
    let init = cs.drop_last();
    if i == cs.len() - 1 {
        assert(plan_of(cs) == plan_of(init).push((s, cs[i].0@)));
        assert(plan_of(cs)[plan_of(init).len() as int] == (s, cs[i].0@));
    } else {
        assert(init[i] == cs[i]);
        lemma_sweep_cleans_resolvable(init, i);
        let k = choose|k: int| 0 <= k < plan_of(init).len() && plan_of(init)[k] == (s, cs[i].0@);
        match step_for(cs.last().0@, cs.last().1) {
            Some(x) => {
                assert(plan_of(cs)[k] == plan_of(init)[k]);
            },
            None => {},
        }
    }
}

/// The reference of an image: its name, `:`, its tag.
pub fn image_reference(name: &str, tag: &str) -> (r: String)
    ensures
        r@ == name@ + seq![':'] + tag@,
{
    proof {
        reveal_strlit(":");
    }
    join_pair(name, ":", tag)
}

/// The verdict on one event of an image build's log: an event that carries
/// an error ends the build with that error; any other event lets it go on.
pub fn build_event_outcome(error: &Option<String>) -> (r: Result<(), Error>)
    ensures
        r is Err <==> error is Some,
        r matches Err(e) ==> e.kind == ErrorKind::Build && e.description@ == error->Some_0@,
{
    match error {
        Some(e) => Err(Error::new(ErrorKind::Build, e.clone())),
        None => Ok(()),
    }
}

/// What to do after one health poll.
#[derive(Debug, Clone)]
pub enum WaitStep {
    /// The container is healthy: the wait is over.
    Healthy,
    /// Sleep, then poll again.
    Sleep { sleep_ms: u64 },
    /// Sleep, then give up with `error`, a timeout that names the container.
    TimedOut { sleep_ms: u64, error: Error },
}

/// The decisions of a wait for a container to become healthy, polled under
/// the default backoff policy: 300 polls, 100 ms apart.
#[derive(Debug, Clone)]
pub struct HealthWait {
    pub id: String,
    pub backoff: Backoff,
}

impl HealthWait {
    /// Within the default policy's budget, and the polls made so far counted.
    pub open spec fn wf(&self) -> bool {
        &&& self.backoff.wf()
        &&& self.backoff.maximum_attempts == DEFAULT_ATTEMPTS
        &&& self.backoff.attempts <= DEFAULT_ATTEMPTS
    }

    /// The number of polls that found the container not healthy.
    pub open spec fn failed_polls(&self) -> nat {
        self.backoff.attempts as nat
    }

    /// A wait on container `id` before its first poll.
    pub fn new(id: &str) -> (r: HealthWait)
        ensures
            r.wf(),
            r.id@ == id@,
            r.failed_polls() == 0,
    {
        HealthWait { id: String::from_str(id), backoff: Backoff::default() }
    }

    /// Takes the result of one poll. A healthy report ends the wait. Any
    /// other report is one more failed poll: the wait sleeps and polls again
    /// until 300 polls have failed, then times out with an error whose
    /// description holds the container's id.
    pub fn on_poll(&mut self, inspected: Result<Option<HealthStatus>, Error>) -> (step: WaitStep)
        requires
            old(self).wf(),
            old(self).failed_polls() < DEFAULT_ATTEMPTS,
        ensures
            final(self).wf(),
            final(self).id == old(self).id,
            step is Healthy <==> inspected == Ok::<Option<HealthStatus>, Error>(Some(HealthStatus::Healthy)),
            step is Healthy ==> final(self).failed_polls() == old(self).failed_polls(),
            !(step is Healthy) ==> final(self).failed_polls() == old(self).failed_polls() + 1,
            step is TimedOut <==> (!(step is Healthy) && final(self).failed_polls() == DEFAULT_ATTEMPTS),
            step matches WaitStep::TimedOut { error, .. } ==> {
                &&& error.kind == ErrorKind::Timeout
                &&& error.description@.subrange(27, 27 + old(self).id@.len() as int) == old(self).id@
            },
    {
        match health_outcome(self.id.as_str(), inspected) {
            Ok(()) => WaitStep::Healthy,
            Err(cause) => {
                let ghost id = self.id@;
                let ghost text = cause.description@;
                match self.backoff.record_failure(cause) {
                    RetryStep::Retry { sleep_ms } => WaitStep::Sleep { sleep_ms },
                    RetryStep::GiveUp { sleep_ms, error } => {
                        proof {
                            let d = timeout_text(text);
                            assert(d.subrange(27, 27 + id.len() as int) =~= id);
                        }
                        WaitStep::TimedOut { sleep_ms, error }
                    },
                }
            },
        }
    }
}

} // verus!
