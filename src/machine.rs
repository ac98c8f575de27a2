//! The line state machine: reads the log one line at a time and hands records to a sink.
use vstd::prelude::*;
use crate::change::{assemble, change_of, Change, ChangeView};
use crate::line::{header_fields, stat_fields, Header, ParseFailure, PathStat};

verus! {

/// A header's sha, author and timestamp.
pub type HeaderFields = (Seq<char>, Seq<char>, Seq<char>);

/// A statistics line's additions, deletions and path.
pub type StatFields = (nat, nat, Seq<char>);

/// The machine's state as plain values.
pub enum Phase {
    Reset,
    Next(HeaderFields),
    Emit(HeaderFields, StatFields),
}

/// Expecting a header; holding a header and expecting a path; holding a record to emit.
pub enum State {
    Reset,
    Next(Header),
    Emit(Header, PathStat),
}

/// A header's fields as plain values.
pub open spec fn header_view(h: Header) -> HeaderFields {
    (h.sha@, h.author@, h.timestamp@)
}

/// A statistics line's fields as plain values.
pub open spec fn stat_view(p: PathStat) -> StatFields {
    (p.additions as nat, p.deletions as nat, p.path@)
}

impl State {
    /// The state as plain values.
    pub open spec fn phase(self) -> Phase {
        match self {
            State::Reset => Phase::Reset,
            State::Next(h) => Phase::Next(header_view(h)),
            State::Emit(h, p) => Phase::Emit(header_view(h), stat_view(p)),
        }
    }
}

/// Which grammar a rejected line failed.
#[derive(PartialEq, Eq, Structural, Debug, Clone, Copy)]
pub enum Fault {
    Header,
    Path,
}

/// An optional record as plain values.
pub open spec fn change_view(c: Option<Change>) -> Option<ChangeView> {
    match c {
        Some(c) => Some(c@),
        None => None,
    }
}

/// One transition: the next phase and the record to emit, or the grammar the line failed.
///
/// A pending record is emitted on the line after its statistics line, whatever that line
/// holds; the line itself only decides whether the commit goes on (non-empty) or ends.
pub open spec fn step_spec(repo: Seq<char>, ph: Phase, line: Seq<char>) -> Result<
    (Phase, Option<ChangeView>),
    Fault,
> {
    match ph {
        Phase::Reset => match header_fields(line) {
            Some(h) => Ok((Phase::Next(h), None)),
            None => Err(Fault::Header),
        },
        Phase::Next(h) => if line.len() == 0 {
            Ok((Phase::Reset, None))
        } else if line[0] == '-' {
            Ok((Phase::Next(h), None))
        } else {
            match stat_fields(line) {
                Some(p) => Ok((Phase::Emit(h, p), None)),
                None => match header_fields(line) {
                    Some(h2) => Ok((Phase::Next(h2), None)),
                    None => Err(Fault::Path),
                },
            }
        },
        Phase::Emit(h, p) => Ok(
            (
                if line.len() == 0 {
                    Phase::Reset
                } else {
                    Phase::Next(h)
                },
                Some(change_of(repo, h, p)),
            ),
        ),
    }
}

/// The machine after the first `n` lines, with a sink that never fails: its phase, the
/// records emitted with the index of the line that emitted each, and the first rejected line.
pub struct Replay {
    pub phase: Phase,
    pub out: Seq<(int, ChangeView)>,
    pub failed: Option<(int, Fault)>,
}

pub open spec fn replay(repo: Seq<char>, lines: Seq<Seq<char>>, n: nat) -> Replay
    decreases n,
{
    if n == 0 {
        Replay { phase: Phase::Reset, out: Seq::empty(), failed: None }
    } else {
        let r = replay(repo, lines, (n - 1) as nat);
        if r.failed is Some {
            r
        } else {
            match step_spec(repo, r.phase, lines[n - 1]) {
                Err(f) => Replay { phase: r.phase, out: r.out, failed: Some(((n - 1) as int, f)) },
                Ok((ph, c)) => Replay {
                    phase: ph,
                    out: match c {
                        Some(c) => r.out.push(((n - 1) as int, c)),
                        None => r.out,
                    },
                    failed: None,
                },
            }
        }
    }
}

/// A sink's report that it could not take a record.
pub struct SinkFailure {
    pub message: String,
}

/// Receives the records, in order; it may refuse one, which stops the run.
pub trait Emitter {
    /// The records the sink has taken so far, in order.
    spec fn taken(&self) -> Seq<ChangeView>;

    /// Takes one record, or refuses it and keeps what it had.
    fn emit(&mut self, change: Change) -> (r: Result<(), SinkFailure>)
        ensures
            r is Ok ==> final(self).taken() == old(self).taken().push(change@),
            r is Err ==> final(self).taken() == old(self).taken(),
    ;
}

/// A sink that keeps the records it is given, up to `capacity` of them, and refuses any
/// record beyond that.
pub struct Collect {
    pub changes: Vec<Change>,
    pub capacity: usize,
}

impl Collect {
    /// A sink with room for every record.
    pub fn new() -> (r: Collect)
        ensures
            r.changes@.len() == 0,
            r.capacity == usize::MAX,
    {
        Collect { changes: Vec::new(), capacity: usize::MAX }
    }

    /// A sink that refuses every record after the first `capacity`.
    pub fn with_capacity(capacity: usize) -> (r: Collect)
        ensures
            r.changes@.len() == 0,
            r.capacity == capacity,
    {
        Collect { changes: Vec::new(), capacity }
    }
}

impl Emitter for Collect {
    open spec fn taken(&self) -> Seq<ChangeView> {
        self.changes@.map_values(|c: Change| c@)
    }

    fn emit(&mut self, change: Change) -> (r: Result<(), SinkFailure>) {
        if self.changes.len() >= self.capacity {
            return Err(SinkFailure { message: String::from_str("the sink is full") });
        }
        let ghost v = change@;
        self.changes.push(change);
        assert(self.changes@.map_values(|c: Change| c@) =~= old(self).changes@.map_values(
            |c: Change| c@,
        ).push(v));
        Ok(())
    }
}

/// Why a run stopped early; `line` is the index of the line being processed.
pub enum RunError {
    HeaderParse { line: usize, failure: ParseFailure },
    PathParse { line: usize, failure: ParseFailure },
    Sink { line: usize, record: usize, cause: SinkFailure },
}

/// One transition of the machine on one line.
pub fn step(repo: &String, state: State, line: &str) -> (r: Result<(State, Option<Change>), Fault>)
    ensures
        match r {
            Ok((s, c)) => step_spec(repo@, state.phase(), line@) == Ok::<
                (Phase, Option<ChangeView>),
                Fault,
            >((s.phase(), change_view(c))),
            Err(f) => step_spec(repo@, state.phase(), line@) == Err::<
                (Phase, Option<ChangeView>),
                Fault,
            >(f),
        },
{
    match state {
        State::Reset => match Header::parse(line) {
            Ok(h) => Ok((State::Next(h), None)),
            Err(_) => Err(Fault::Header),
        },
        State::Next(h) => {
            if line.is_empty() {
                Ok((State::Reset, None))
            } else if line.get_char(0) == '-' {
                Ok((State::Next(h), None))
            } else {
                match PathStat::parse(line) {
                    Ok(p) => Ok((State::Emit(h, p), None)),
                    Err(_) => match Header::parse(line) {
                        Ok(h2) => Ok((State::Next(h2), None)),
                        Err(_) => Err(Fault::Path),
                    },
                }
            }
        },
        State::Emit(h, p) => {
            let c = assemble(repo.clone(), h.duplicate(), p);
            if line.is_empty() {
                Ok((State::Reset, Some(c)))
            } else {
                Ok((State::Next(h), Some(c)))
            }
        },
    }
}

/// The text of each line.
pub open spec fn lines_view(lines: Seq<String>) -> Seq<Seq<char>> {
    lines.map_values(|l: String| l@)
}

/// The records of a replay, without their line indices.
pub open spec fn records(out: Seq<(int, ChangeView)>) -> Seq<ChangeView> {
    out.map_values(|e: (int, ChangeView)| e.1)
}

/// What `run` returns, given the records the sink had taken before (`before`) and after it.
///
/// The sink is handed the records that the machine emits on the lines, in order. The run
/// stops at the first line that the machine rejects, with every record before it taken, or
/// at the first record that the sink refuses: `record` counts the records taken before it,
/// and `line` is the index of the line that emitted it. Otherwise it succeeds once the lines
/// are exhausted, every record taken; a record still pending then is not emitted.
pub open spec fn run_result(
    repo: Seq<char>,
    lines: Seq<Seq<char>>,
    before: Seq<ChangeView>,
    after: Seq<ChangeView>,
    r: Result<(), RunError>,
) -> bool {
    let rp = replay(repo, lines, lines.len());
    match r {
        Ok(()) => rp.failed is None && after == before + records(rp.out),
        Err(RunError::HeaderParse { line, failure }) => rp.failed == Some(
            (line as int, Fault::Header),
        ) && failure.line@ == lines[line as int] && after == before + records(rp.out),
        Err(RunError::PathParse { line, failure }) => rp.failed == Some(
            (line as int, Fault::Path),
        ) && failure.line@ == lines[line as int] && after == before + records(rp.out),
        Err(RunError::Sink { line, record, .. }) => record < rp.out.len() && rp.out[record as int].0
            == line && after == before + records(rp.out.subrange(0, record as int)),
    }
}

/// Replaying more lines only adds records, and nothing after the first rejected line.
pub proof fn lemma_replay_grows(repo: Seq<char>, lines: Seq<Seq<char>>, m: nat, n: nat)
    requires
        m <= n,
    ensures
        replay(repo, lines, m).out.len() <= replay(repo, lines, n).out.len(),
        replay(repo, lines, m).out =~= replay(repo, lines, n).out.subrange(
            0,
            replay(repo, lines, m).out.len() as int,
        ),
        replay(repo, lines, m).failed is Some ==> replay(repo, lines, n) == replay(
            repo,
            lines,
            m,
        ),
    decreases n - m,
{
    if m < n {
        lemma_replay_grows(repo, lines, m, (n - 1) as nat);
        let a = replay(repo, lines, m);
        let b = replay(repo, lines, (n - 1) as nat);
        let c = replay(repo, lines, n);
        assert(a.out =~= c.out.subrange(0, a.out.len() as int)) by {
            assert forall|i: int| 0 <= i < a.out.len() implies a.out[i] == c.out[i] by {
                assert(a.out[i] == b.out[i]);
            }
        }
    }
}

/// Runs the machine over `lines`, handing each record it emits to `emitter`; see
/// `run_result`.
pub fn run<E: Emitter>(repository: String, lines: &Vec<String>, emitter: &mut E) -> (r: Result<
    (),
    RunError,
>)
    ensures
        run_result(
            repository@,
            lines_view(lines@),
            old(emitter).taken(),
            final(emitter).taken(),
            r,
        ),
{
    let ghost repo = repository@;
    let ghost ls = lines_view(lines@);
    let ghost before = emitter.taken();
    let n = lines.len();
    let mut state = State::Reset;
    let mut t: usize = 0;
    let mut emitted: usize = 0;
    while t < n
        invariant
            n == lines@.len(),
            ls == lines_view(lines@),
            repo == repository@,
            t <= n,
            replay(repo, ls, t as nat).failed is None,
            state.phase() == replay(repo, ls, t as nat).phase,
            emitted == replay(repo, ls, t as nat).out.len(),
            emitted <= t,
            before == old(emitter).taken(),
            emitter.taken() == before + records(replay(repo, ls, t as nat).out),
        decreases n - t,
    {
        let ghost rt = replay(repo, ls, t as nat);
        proof {
            lemma_replay_grows(repo, ls, (t + 1) as nat, n as nat);
            lemma_replay_grows(repo, ls, t as nat, n as nat);
            assert(ls[t as int] == lines@[t as int]@);
        }
        let line = lines[t].as_str();
        match step(&repository, state, line) {
            Err(f) => {
                let failure = ParseFailure { line: line.to_owned() };
                return match f {
                    Fault::Header => Err(RunError::HeaderParse { line: t, failure }),
                    Fault::Path => Err(RunError::PathParse { line: t, failure }),
                };
            },
            Ok((next, c)) => {
                match c {
                    None => {},
                    Some(c) => {
                        proof {
                            let r1 = replay(repo, ls, (t + 1) as nat);
                            let rp = replay(repo, ls, n as nat);
                            assert(r1.out == rt.out.push((t as int, c@)));
                            assert(rp.out[emitted as int] == r1.out[emitted as int]);
                        }
                        match emitter.emit(c) {
                            Ok(()) => {
                                assert(records(rt.out.push((t as int, c@))) =~= records(
                                    rt.out,
                                ).push(c@));
                            },
                            Err(e) => {
                                assert(rt.out =~= replay(repo, ls, n as nat).out.subrange(
                                    0,
                                    emitted as int,
                                ));
                                return Err(RunError::Sink { line: t, record: emitted, cause: e });
                            },
                        }
                        emitted = emitted + 1;
                    },
                }
                state = next;
                t += 1;
            },
        }
    }
    Ok(())
}

} // verus!
