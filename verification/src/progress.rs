//! The status line: which run is on, how far it is, and the lines that a program
//! prints meanwhile.
use crate::bytes::{lossy, utf8_lossy};
use crate::numbers::{decimal, decimal_string};
use crate::patterns::{
    first_match, group_at, group_named, group_names, group_texts, law_named_group_is_at_its_place,
    named, numbered, regex_match, regex_names, regex_source,
};
use crate::text::{cat2, cat4, join, join_texts, lemma_texts_push, texts};
use vstd::prelude::*;

verus! {

/// The side that a run measures.
#[derive(Clone, Copy, Debug, PartialEq, Eq, Structural)]
pub enum Side {
    Base,
    Candidate,
}

impl Side {
    pub open spec fn name(self) -> Seq<char> {
        match self {
            Side::Base => "base"@,
            Side::Candidate => "candidate"@,
        }
    }

    pub fn as_str(self) -> (r: &'static str)
        ensures
            r@ == self.name(),
    {
        match self {
            Side::Base => "base",
            Side::Candidate => "candidate",
        }
    }
}

// ---------------------------------------------------------------------------
// Runs
// ---------------------------------------------------------------------------

/// The side of a run: the runs are counted from one and alternate, the base
/// first.
pub open spec fn run_side(run: int) -> Side {
    if run % 2 == 1 {
        Side::Base
    } else {
        Side::Candidate
    }
}

pub fn side_for_run(run: u32) -> (r: Side)
    ensures
        r == run_side(run as int),
{
    if run % 2 == 1 {
        Side::Base
    } else {
        Side::Candidate
    }
}

/// The sides of the runs behind `run`, up to the last.
pub fn remaining_sides(run: u32, total: u32) -> (r: Vec<Side>)
    requires
        run < u32::MAX,
    ensures
        r@ == Seq::new(
            (if run < total {
                total - run
            } else {
                0
            }) as nat,
            |i: int| run_side(run + 1 + i),
        ),
{
    let mut out: Vec<Side> = Vec::new();
    let mut k: u32 = run;
    while k < total
        invariant
            run <= k,
            k <= total || k == run,
            out@.len() == k - run,
            forall|i: int| 0 <= i < out@.len() ==> out@[i] == run_side(run + 1 + i),
        decreases total - k,
    {
        k = k + 1;
        out.push(side_for_run(k));
    }
    out
}

/// Whose mean stands in for a run that has not been timed.
#[derive(Clone, Copy, Debug, PartialEq, Eq, Structural)]
pub enum MeanOf {
    OneSide,
    BothSides,
    Nothing,
}

/// A side that has been timed goes by its own mean, another by that of all runs,
/// and without any run there is none.
pub fn mean_for(base_runs: usize, candidate_runs: usize, side: Side) -> (r: MeanOf)
    ensures
        ({
            let own = match side {
                Side::Base => base_runs,
                Side::Candidate => candidate_runs,
            };
            r == (if own > 0 {
                MeanOf::OneSide
            } else if base_runs > 0 || candidate_runs > 0 {
                MeanOf::BothSides
            } else {
                MeanOf::Nothing
            })
        }),
{
    let own: usize = match side {
        Side::Base => base_runs,
        Side::Candidate => candidate_runs,
    };
    if own > 0 {
        MeanOf::OneSide
    } else if base_runs > 0 || candidate_runs > 0 {
        MeanOf::BothSides
    } else {
        MeanOf::Nothing
    }
}

// ---------------------------------------------------------------------------
// The line
// ---------------------------------------------------------------------------

/// A number below a hundred with two digits.
pub open spec fn two_digits(n: nat) -> Seq<char> {
    if n < 10 {
        "0"@ + decimal(n)
    } else {
        decimal(n)
    }
}

fn padded(n: u64) -> (r: String)
    ensures
        r@ == two_digits(n as nat),
{
    if n < 10 {
        cat2("0", &decimal_string(n))
    } else {
        decimal_string(n)
    }
}

/// A duration in words: below a minute as given, below an hour in minutes and
/// seconds, else in hours and minutes.
pub open spec fn duration_text(secs: nat, short: Seq<char>) -> Seq<char> {
    if secs < 60 {
        short
    } else if secs < 3600 {
        decimal(secs / 60) + "m"@ + two_digits(secs % 60) + "s"@
    } else {
        decimal(secs / 60 / 60) + "h"@ + two_digits(secs / 60 % 60) + "m"@
    }
}

/// A duration of `secs` whole seconds in words. `short` is how it is written
/// where it is below a minute.
pub fn fmt_duration(secs: u64, short: &str) -> (r: String)
    ensures
        r@ == duration_text(secs as nat, short@),
{
    if secs < 60 {
        short.to_owned()
    } else if secs < 3600 {
        cat4(&decimal_string(secs / 60), "m", &padded(secs % 60), "s")
    } else {
        let mins: u64 = secs / 60;
        cat4(&decimal_string(mins / 60), "h", &padded(mins % 60), "m")
    }
}

/// The parts of the status line.
pub open spec fn line_parts(
    run: u32,
    total: u32,
    side: Side,
    percent: Option<u32>,
    elapsed: Seq<char>,
    eta: Option<Seq<char>>,
) -> Seq<Seq<char>> {
    let head = seq!["run "@ + decimal(run as nat) + "/"@ + decimal(total as nat), side.name()];
    let middle = match percent {
        Some(p) => seq![decimal(p as nat) + "%"@],
        None => seq![],
    };
    let tail = match eta {
        Some(text) => seq!["eta ~"@ + text],
        None => seq![],
    };
    head + middle + seq![elapsed] + tail
}

/// The status line: the run, the side, how far the run is, how long it took and
/// how long is left. The durations are given in words.
pub fn compose_line(
    run: u32,
    total: u32,
    side: Side,
    percent: Option<u32>,
    elapsed: &str,
    eta: Option<&str>,
) -> (r: String)
    ensures
        r@ == join_texts(
            line_parts(
                run,
                total,
                side,
                percent,
                elapsed@,
                match eta {
                    Some(text) => Some(text@),
                    None => None,
                },
            ),
            " · "@,
        ),
{
    let mut parts: Vec<String> = Vec::new();
    parts.push(cat4("run ", &decimal_string(run as u64), "/", &decimal_string(total as u64)));
    parts.push(side.as_str().to_owned());
    if let Some(p) = percent {
        parts.push(cat2(&decimal_string(p as u64), "%"));
    }
    parts.push(elapsed.to_owned());
    if let Some(text) = eta {
        parts.push(cat2("eta ~", text));
    }
    assert(texts(parts@) =~= line_parts(
        run,
        total,
        side,
        percent,
        elapsed@,
        match eta {
            Some(text) => Some(text@),
            None => None,
        },
    ));
    join(&parts, " · ")
}

/// A run on the screen.
#[derive(Clone, Copy, Debug, PartialEq, Eq, Structural)]
pub struct Current {
    pub run: u32,
    pub total: u32,
    pub side: Side,
}

/// What reaches the painter.
#[derive(Clone, Copy, Debug, PartialEq, Eq, Structural)]
pub enum Signal {
    /// A run begins.
    RunStart(Current),
    /// The run has got further.
    Fraction,
    /// The run is over.
    RunEnd,
    /// Nothing happened for a while.
    Quiet,
    /// There are no more runs.
    Closed,
}

/// What the painter does on a signal.
#[derive(Clone, Copy, Debug, PartialEq, Eq, Structural)]
pub struct Reaction {
    /// Keep how far the current run is.
    pub keep_fraction: bool,
    /// Keep how long the run of this side took.
    pub timed: Option<Side>,
    /// Paint the line of this run.
    pub paint: Option<Current>,
    /// Erase the line.
    pub erase: bool,
    /// Stop.
    pub stop: bool,
}

/// The run on the screen, and whether anything was painted.
#[derive(Clone, Copy, Debug, PartialEq, Eq, Structural)]
pub struct Screen {
    pub current: Option<Current>,
    pub painted: bool,
}

impl Screen {
    pub fn new() -> (r: Screen)
        ensures
            r == (Screen { current: None, painted: false }),
    {
        Screen { current: None, painted: false }
    }

    /// The run that is on after a signal.
    pub open spec fn run_after(self, signal: Signal) -> Option<Current> {
        match signal {
            Signal::RunStart(run) => Some(run),
            Signal::RunEnd => None,
            _ => self.current,
        }
    }

    /// Whether the line is painted on a signal: a run is on, and it has just
    /// begun or the line is due.
    pub open spec fn paints(self, signal: Signal, due: bool) -> bool {
        !(signal is Closed) && (signal is RunStart || due) && self.run_after(signal) is Some
    }

    /// Takes a signal. `due` says that the line is old enough to be painted
    /// again.
    pub fn render(&mut self, signal: Signal, due: bool) -> (r: Reaction)
        ensures
            final(self).current == old(self).run_after(signal),
            final(self).painted == (old(self).painted || old(self).paints(signal, due)),
            r.keep_fraction == (signal is Fraction && old(self).current is Some),
            r.timed == (match (signal, old(self).current) {
                (Signal::RunEnd, Some(run)) => Some(run.side),
                _ => None,
            }),
            r.paint == (if old(self).paints(signal, due) {
                old(self).run_after(signal)
            } else {
                None
            }),
            r.erase == (signal is Closed && old(self).painted),
            r.stop == (signal is Closed),
    {
        let mut reaction: Reaction = Reaction {
            keep_fraction: false,
            timed: None,
            paint: None,
            erase: false,
            stop: false,
        };
        let mut force: bool = false;
        match signal {
            Signal::RunStart(run) => {
                self.current = Some(run);
                force = true;
            },
            Signal::Fraction => {
                reaction.keep_fraction = self.current.is_some();
            },
            Signal::RunEnd => {
                if let Some(run) = self.current {
                    reaction.timed = Some(run.side);
                }
                self.current = None;
            },
            Signal::Quiet => {},
            Signal::Closed => {
                reaction.erase = self.painted;
                reaction.stop = true;
                return reaction;
            },
        }
        if (force || due) && self.current.is_some() {
            reaction.paint = self.current;
            self.painted = true;
        }
        reaction
    }
}

// ---------------------------------------------------------------------------
// How far a run is
// ---------------------------------------------------------------------------

/// How far a run is, as its output says it.
pub enum Extent {
    /// So much is done of so much.
    Ratio { done: String, total: String },
    /// So many percent are done.
    Percent(String),
}

/// What an `Extent` says.
pub ghost enum ExtentText {
    Ratio(Seq<char>, Seq<char>),
    Percent(Seq<char>),
}

pub open spec fn extent_text(r: Option<Extent>) -> Option<ExtentText> {
    match r {
        Some(Extent::Ratio { done, total }) => Some(ExtentText::Ratio(done@, total@)),
        Some(Extent::Percent(p)) => Some(ExtentText::Percent(p@)),
        None => None,
    }
}

/// How far a run is, out of a match: the groups `done` and `total` if both take
/// part; else, with two groups or more, the first two; else the group `percent`,
/// or the first group.
pub open spec fn extent_of(names: Seq<Option<Seq<char>>>, groups: Seq<Option<Seq<char>>>) -> Option<
    ExtentText,
> {
    match (named(names, groups, "done"@), named(names, groups, "total"@)) {
        (Some(done), Some(total)) => Some(ExtentText::Ratio(done, total)),
        _ => if groups.len() >= 3 {
            match (numbered(groups, 1), numbered(groups, 2)) {
                (Some(done), Some(total)) => Some(ExtentText::Ratio(done, total)),
                _ => None,
            }
        } else {
            match (named(names, groups, "percent"@), numbered(groups, 1)) {
                (Some(p), _) => Some(ExtentText::Percent(p)),
                (None, Some(p)) => Some(ExtentText::Percent(p)),
                (None, None) => None,
            }
        },
    }
}

/// How far a run is, out of the names of the groups and what they hold.
pub fn read_extent(names: &[Option<String>], groups: &[Option<String>]) -> (r: Option<Extent>)
    ensures
        extent_text(r) == extent_of(group_texts(names@), group_texts(groups@)),
{
    let done: Option<String> = group_named(names, groups, "done");
    let total: Option<String> = group_named(names, groups, "total");
    if let (Some(done), Some(total)) = (done, total) {
        return Some(Extent::Ratio { done, total });
    }
    if groups.len() >= 3 {
        return match (group_at(groups, 1), group_at(groups, 2)) {
            (Some(done), Some(total)) => Some(Extent::Ratio { done, total }),
            _ => None,
        };
    }
    match group_named(names, groups, "percent") {
        Some(p) => Some(Extent::Percent(p)),
        None => match group_at(groups, 1) {
            Some(p) => Some(Extent::Percent(p)),
            None => None,
        },
    }
}

/// How far a run is, out of a line that it printed.
pub fn progress_extent(pattern: &regex::Regex, line: &str) -> (r: Option<Extent>)
    ensures
        extent_text(r) == (match regex_match(regex_source(*pattern), line@) {
            Some(groups) => extent_of(regex_names(regex_source(*pattern)), groups),
            None => None,
        }),
{
    match first_match(pattern, line) {
        Some(groups) => read_extent(&group_names(pattern), &groups),
        None => None,
    }
}

// ---------------------------------------------------------------------------
// Lines out of chunks
// ---------------------------------------------------------------------------

/// The longest line that is kept, in bytes.
pub const LINE_LIMIT: usize = 65536;

/// A scanner and the lines that it has handed out.
pub ghost struct Scan {
    pub partial: Seq<u8>,
    pub discarding: bool,
    pub lines: Seq<Seq<char>>,
}

/// One byte: a line feed or a carriage return ends a line, which is handed out
/// unless it is empty or was too long; another byte is kept until the line is
/// too long.
pub open spec fn scan_byte(s: Scan, byte: u8) -> Scan {
    if byte == 10u8 || byte == 13u8 {
        Scan {
            partial: seq![],
            discarding: false,
            lines: if !s.discarding && s.partial.len() > 0 {
                s.lines.push(utf8_lossy(s.partial))
            } else {
                s.lines
            },
        }
    } else if s.discarding {
        s
    } else if s.partial.len() + 1 > LINE_LIMIT {
        Scan { partial: seq![], discarding: true, lines: s.lines }
    } else {
        Scan { partial: s.partial.push(byte), discarding: false, lines: s.lines }
    }
}

/// A run of bytes, one after the other.
pub open spec fn scan_bytes(s: Scan, bytes: Seq<u8>) -> Scan
    decreases bytes.len(),
{
    if bytes.len() == 0 {
        s
    } else {
        scan_byte(scan_bytes(s, bytes.drop_last()), bytes.last())
    }
}

/// Puts lines together out of chunks of bytes.
pub struct LineScanner {
    pub partial: Vec<u8>,
    pub discarding: bool,
}

impl Default for LineScanner {
    fn default() -> (r: LineScanner)
        ensures
            r.partial@.len() == 0,
            !r.discarding,
    {
        LineScanner { partial: Vec::new(), discarding: false }
    }
}

impl LineScanner {
    /// The scanner, with no line handed out.
    pub open spec fn state(self) -> Scan {
        Scan { partial: self.partial@, discarding: self.discarding, lines: seq![] }
    }

    /// Takes a chunk, and hands out the lines that end in it.
    pub fn push(&mut self, chunk: &[u8]) -> (r: Vec<String>)
        ensures
            ({
                let end = scan_bytes(old(self).state(), chunk@);
                &&& texts(r@) == end.lines
                &&& final(self).partial@ == end.partial
                &&& final(self).discarding == end.discarding
            }),
    {
        let ghost start = self.state();
        let mut out: Vec<String> = Vec::new();
        let n: usize = chunk.len();
        let mut i: usize = 0;
        assert(texts(out@) =~= start.lines);
        assert(chunk@.take(0) =~= seq![]);
        while i < n
            invariant
                n == chunk@.len(),
                i <= n,
                scan_bytes(start, chunk@.take(i as int)) == (Scan {
                    partial: self.partial@,
                    discarding: self.discarding,
                    lines: texts(out@),
                }),
            decreases n - i,
        {
            broadcast use lemma_texts_push;

            let byte: u8 = chunk[i];
            let ghost before = scan_bytes(start, chunk@.take(i as int));
            proof {
                assert(chunk@.take(i + 1).drop_last() =~= chunk@.take(i as int));
                assert(chunk@.take(i + 1).last() == byte);
            }
            if byte == 10u8 || byte == 13u8 {
                if !self.discarding && self.partial.len() > 0 {
                    out.push(lossy(&self.partial));
                }
                self.partial = Vec::new();
                self.discarding = false;
                assert(self.partial@ =~= seq![]);
            } else if !self.discarding {
                if self.partial.len() >= LINE_LIMIT {
                    self.partial = Vec::new();
                    self.discarding = true;
                    assert(self.partial@ =~= seq![]);
                } else {
                    self.partial.push(byte);
                }
            }
            i = i + 1;
        }
        assert(chunk@.take(n as int) =~= chunk@);
        out
    }

    /// Hands out the line that nothing ended, if there is one.
    pub fn finish(&mut self) -> (r: Option<String>)
        ensures
            final(self).partial@.len() == 0,
            !final(self).discarding,
            match r {
                Some(line) => !old(self).discarding && old(self).partial@.len() > 0 && line@
                    == utf8_lossy(old(self).partial@),
                None => old(self).discarding || old(self).partial@.len() == 0,
            },
    {
        let r: Option<String> = if !self.discarding && self.partial.len() > 0 {
            Some(lossy(&self.partial))
        } else {
            None
        };
        self.partial = Vec::new();
        self.discarding = false;
        r
    }
}

proof fn lemma_scan_on(s: Scan, a: Seq<u8>, b: Seq<u8>)
    ensures
        scan_bytes(s, a + b) == scan_bytes(scan_bytes(s, a), b),
    decreases b.len(),
{
    if b.len() == 0 {
        assert(a + b =~= a);
    } else {
        assert((a + b).drop_last() =~= a + b.drop_last());
        lemma_scan_on(s, a, b.drop_last());
    }
}

proof fn lemma_scan_lines(s: Scan, bytes: Seq<u8>)
    ensures
        scan_bytes(s, bytes) == (Scan {
            lines: s.lines + scan_bytes(Scan { lines: seq![], ..s }, bytes).lines,
            ..scan_bytes(Scan { lines: seq![], ..s }, bytes)
        }),
    decreases bytes.len(),
{
    let none: Seq<Seq<char>> = seq![];
    let bare = Scan { lines: none, ..s };
    if bytes.len() == 0 {
        assert(s.lines + none =~= s.lines);
    } else {
        let front = bytes.drop_last();
        lemma_scan_lines(s, front);
        let e = scan_bytes(bare, front);
        let line = utf8_lossy(e.partial);
        assert(s.lines + e.lines.push(line) =~= (s.lines + e.lines).push(line));
    }
}

/// How the bytes are cut into chunks does not matter: two chunks leave the
/// scanner as their whole does, and hand out, one after the other, the lines that
/// the whole hands out.
pub proof fn law_chunks_do_not_matter(scanner: LineScanner, a: Seq<u8>, b: Seq<u8>)
    ensures
        ({
            let middle = scan_bytes(scanner.state(), a);
            let end = scan_bytes(Scan { lines: seq![], ..middle }, b);
            scan_bytes(scanner.state(), a + b) == (Scan {
                partial: end.partial,
                discarding: end.discarding,
                lines: middle.lines + end.lines,
            })
        }),
{
    lemma_scan_on(scanner.state(), a, b);
    lemma_scan_lines(scan_bytes(scanner.state(), a), b);
}

/// No byte of a line ends it.
pub open spec fn unbroken(line: Seq<u8>) -> bool {
    forall|i: int| 0 <= i < line.len() ==> line[i] != 10u8 && line[i] != 13u8
}

proof fn lemma_scan_line(s: Scan, line: Seq<u8>)
    requires
        s.partial.len() == 0,
        !s.discarding,
        unbroken(line),
    ensures
        scan_bytes(s, line) == (if line.len() <= LINE_LIMIT {
            Scan { partial: line, discarding: false, lines: s.lines }
        } else {
            Scan { partial: seq![], discarding: true, lines: s.lines }
        }),
    decreases line.len(),
{
    if line.len() == 0 {
        assert(s.partial =~= line);
    } else {
        let front = line.drop_last();
        assert forall|i: int| 0 <= i < front.len() implies front[i] != 10u8 && front[i]
            != 13u8 by {
            assert(front[i] == line[i]);
        }
        lemma_scan_line(s, front);
        assert(line.last() != 10u8 && line.last() != 13u8);
        assert(front.push(line.last()) =~= line);
    }
}

/// Between lines, a line with its end is handed out as it is; it is dropped where
/// it is empty or longer than the limit, and the scanner is between lines again.
pub proof fn law_whole_line_comes_out(s: Scan, line: Seq<u8>, end: u8)
    requires
        s.partial.len() == 0,
        !s.discarding,
        unbroken(line),
        end == 10u8 || end == 13u8,
    ensures
        scan_bytes(s, line.push(end)) == (Scan {
            partial: seq![],
            discarding: false,
            lines: if 0 < line.len() <= LINE_LIMIT {
                s.lines.push(utf8_lossy(line))
            } else {
                s.lines
            },
        }),
{
    lemma_scan_line(s, line);
    assert(line.push(end).drop_last() =~= line);
}

/// A scanner never holds more than the limit.
pub proof fn law_scanner_stays_small(s: Scan, bytes: Seq<u8>)
    requires
        s.partial.len() <= LINE_LIMIT,
    ensures
        scan_bytes(s, bytes).partial.len() <= LINE_LIMIT,
    decreases bytes.len(),
{
    if bytes.len() > 0 {
        law_scanner_stays_small(s, bytes.drop_last());
    }
}

// ---------------------------------------------------------------------------
// What holds of the status line
// ---------------------------------------------------------------------------

/// Runs alternate: the first is of the base, and each is of the other side than the
/// one before it.
pub proof fn law_sides_alternate(run: int)
    requires
        run >= 1,
    ensures
        run_side(1) is Base,
        run_side(run) is Base <==> run_side(run + 1) is Candidate,
        run_side(run) is Candidate <==> run_side(run + 1) is Base,
{
}

/// A duration from a minute up to an hour is written in whole minutes and the
/// seconds that are left, from an hour on in whole hours and the minutes that are
/// left, the smaller of the two with two digits; what is below a minute is left as
/// it was written.
pub proof fn law_durations_add_up(secs: nat, short: Seq<char>, big: nat, small: nat)
    requires
        small < 60,
    ensures
        secs < 60 ==> duration_text(secs, short) == short,
        60 <= secs < 3600 && secs == 60 * big + small ==> duration_text(secs, short) == decimal(
            big,
        ) + "m"@ + (if small < 10 {
            "0"@ + decimal(small)
        } else {
            decimal(small)
        }) + "s"@,
        3600 <= secs && 3600 * big + 60 * small <= secs < 3600 * big + 60 * small + 60
            ==> duration_text(secs, short) == decimal(big) + "h"@ + (if small < 10 {
            "0"@ + decimal(small)
        } else {
            decimal(small)
        }) + "m"@,
{
    if 3600 <= secs && 3600 * big + 60 * small <= secs < 3600 * big + 60 * small + 60 {
        assert(secs / 60 == 60 * big + small);
        assert(secs / 60 / 60 == big);
        assert(secs / 60 % 60 == small);
    }
}

/// The status line tells, in this order, the number of the run and of all runs, the
/// side, how far the run is if that is known, how long it has taken, and how long is
/// left if that is known.
pub proof fn law_status_line_is_in_order(
    run: u32,
    total: u32,
    side: Side,
    percent: Option<u32>,
    elapsed: Seq<char>,
    eta: Option<Seq<char>>,
)
    ensures
        ({
            let parts = line_parts(run, total, side, percent, elapsed, eta);
            let p = if percent is Some {
                1int
            } else {
                0
            };
            &&& parts.len() == 3 + p + (if eta is Some {
                1int
            } else {
                0
            })
            &&& parts[0] == "run "@ + decimal(run as nat) + "/"@ + decimal(total as nat)
            &&& parts[1] == (match side {
                Side::Base => "base"@,
                Side::Candidate => "candidate"@,
            })
            &&& percent matches Some(n) ==> parts[2] == decimal(n as nat) + "%"@
            &&& parts[2 + p] == elapsed
            &&& eta matches Some(text) ==> parts[3 + p] == "eta ~"@ + text
        }),
{
}

/// How far a run is, is told by the groups named `done` and `total`, at places `d`
/// and `t`, where both take part. Where not, and there are two groups or more, the
/// first two tell it, if both take part. With one group it is a percentage: that of
/// the group named `percent`, at place `p`, if it takes part, else that of the
/// group.
pub proof fn law_groups_tell_the_extent(
    names: Seq<Option<Seq<char>>>,
    groups: Seq<Option<Seq<char>>>,
    d: int,
    t: int,
    p: int,
)
    requires
        0 <= d <= names.len() && 0 <= t <= names.len() && 0 <= p <= names.len(),
        d < names.len() ==> names[d] == Some("done"@),
        t < names.len() ==> names[t] == Some("total"@),
        p < names.len() ==> names[p] == Some("percent"@),
        forall|j: int| 0 <= j < d ==> #[trigger] names[j] != Some("done"@),
        forall|j: int| 0 <= j < t ==> #[trigger] names[j] != Some("total"@),
        forall|j: int| 0 <= j < p ==> #[trigger] names[j] != Some("percent"@),
    ensures
        ({
            let holds = |i: int| i < names.len() && i < groups.len() && groups[i] is Some;
            let extent = extent_of(names, groups);
            if holds(d) && holds(t) {
                extent == Some(ExtentText::Ratio(groups[d]->0, groups[t]->0))
            } else if groups.len() >= 3 {
                if groups[1] is Some && groups[2] is Some {
                    extent == Some(ExtentText::Ratio(groups[1]->0, groups[2]->0))
                } else {
                    extent is None
                }
            } else if holds(p) {
                extent == Some(ExtentText::Percent(groups[p]->0))
            } else if groups.len() == 2 && groups[1] is Some {
                extent == Some(ExtentText::Percent(groups[1]->0))
            } else {
                extent is None
            }
        }),
{
    law_named_group_is_at_its_place(names, groups, "done"@, d);
    law_named_group_is_at_its_place(names, groups, "total"@, t);
    law_named_group_is_at_its_place(names, groups, "percent"@, p);
}

/// The line is painted for the run that is on, when the run begins and whenever it
/// is due, and never once there are no more runs.
pub proof fn law_only_a_run_is_painted(screen: Screen, signal: Signal, due: bool)
    ensures
        signal matches Signal::RunStart(run) ==> screen.paints(signal, due) && screen.run_after(
            signal,
        ) == Some(run),
        signal is RunEnd || signal is Closed ==> !screen.paints(signal, due),
        signal is RunEnd ==> screen.run_after(signal) is None,
        signal is Fraction || signal is Quiet ==> screen.run_after(signal) == screen.current
            && screen.paints(signal, due) == (due && screen.current is Some),
        signal is Closed ==> screen.run_after(signal) == screen.current,
{
}

/// A line of up to 64 KiB is handed out when it ends; a longer one is dropped, as is
/// an empty one, and the next line is not touched by that.
pub proof fn law_only_long_lines_are_dropped(s: Scan, line: Seq<u8>, next: Seq<u8>)
    requires
        s.partial.len() == 0,
        !s.discarding,
        unbroken(line),
        unbroken(next),
        0 < next.len() <= 65536,
    ensures
        line.len() > 65536 || line.len() == 0 ==> scan_bytes(
            scan_bytes(s, line.push(10u8)),
            next.push(10u8),
        ).lines == s.lines.push(utf8_lossy(next)),
        0 < line.len() <= 65536 ==> scan_bytes(
            scan_bytes(s, line.push(10u8)),
            next.push(10u8),
        ).lines == s.lines.push(utf8_lossy(line)).push(utf8_lossy(next)),
{
    law_whole_line_comes_out(s, line, 10u8);
    law_whole_line_comes_out(scan_bytes(s, line.push(10u8)), next, 10u8);
}

} // verus!
