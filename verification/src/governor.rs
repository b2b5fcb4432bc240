//! CPU governors: which ones are set, and setting one for a run.
use crate::isolation::Reply;
use crate::numbers::{
    decimal, decimal_string, lemma_decimal_reads_back, parse_number, parse_u32,
};
use crate::order::{set_of, text_set};
use crate::paths::{components_of, joined, law_join_sets_one_slash, lies_below};
use crate::text::{
    behind, cat2, cat3, cat5, chars_of, has_text, join, join_texts, law_behind_is_the_rest,
    law_trim_is_stable,
    lemma_texts_push, same_text, strings_of, strip_prefix, texts, trim_end_text, trim_start_text,
    trim_text, trimmed, words, words_of,
};
use vstd::prelude::*;

verus! {

/// Where Linux describes its CPUs.
pub const SYSFS_CPU: &'static str = "/sys/devices/system/cpu";

pub open spec fn core_dir(sysfs: Seq<char>, core: u32) -> Seq<char> {
    joined(sysfs, "cpu"@ + decimal(core as nat))
}

/// The file that holds a core's governor.
pub open spec fn governor_file(sysfs: Seq<char>, core: u32) -> Seq<char> {
    joined(joined(core_dir(sysfs, core), "cpufreq"@), "scaling_governor"@)
}

/// The directory of a core.
pub fn core_path(sysfs: &str, core: u32) -> (r: String)
    ensures
        r@ == core_dir(sysfs@, core),
{
    crate::paths::join(sysfs, &cat2("cpu", &decimal_string(core as u64)))
}

pub fn governor_path(sysfs: &str, core: u32) -> (r: String)
    ensures
        r@ == governor_file(sysfs@, core),
{
    crate::paths::join(
        &crate::paths::join(&core_path(sysfs, core), "cpufreq"),
        "scaling_governor",
    )
}

/// The file that lists the governors that a core can have.
pub fn available_governors_path(sysfs: &str, core: u32) -> (r: String)
    ensures
        r@ == joined(
            joined(core_dir(sysfs@, core), "cpufreq"@),
            "scaling_available_governors"@,
        ),
{
    crate::paths::join(
        &crate::paths::join(&core_path(sysfs, core), "cpufreq"),
        "scaling_available_governors",
    )
}

/// A core's governor, out of what its file holds.
pub open spec fn governor_text(read: Option<Seq<char>>) -> Option<Seq<char>> {
    match read {
        Some(s) => Some(trim_text(s)),
        None => None,
    }
}

pub open spec fn read_text(read: Option<&str>) -> Option<Seq<char>> {
    match read {
        Some(s) => Some(s@),
        None => None,
    }
}

/// A core's governor, out of what its file holds; none where there is no file.
pub fn governor_of(read: Option<&str>) -> (r: Option<String>)
    ensures
        match r {
            Some(s) => governor_text(read_text(read)) == Some(s@),
            None => governor_text(read_text(read)) is None,
        },
{
    match read {
        Some(s) => Some(trimmed(s)),
        None => None,
    }
}

// ---------------------------------------------------------------------------
// The cores
// ---------------------------------------------------------------------------

/// The core that a directory stands for.
pub open spec fn core_named(name: Seq<char>) -> Option<u32> {
    match behind(name, "cpu"@) {
        Some(digits) => match parse_number(digits, u32::MAX as nat) {
            Some(n) => Some(n as u32),
            None => None,
        },
        None => None,
    }
}

/// An ordered list with `core` behind everything that is not greater.
pub open spec fn core_inserted(list: Seq<u32>, core: u32) -> Seq<u32>
    decreases list.len(),
{
    if list.len() > 0 && core < list.last() {
        core_inserted(list.drop_last(), core).push(list.last())
    } else {
        list.push(core)
    }
}

/// The cores that directories stand for, in order.
pub open spec fn cores_named(names: Seq<Seq<char>>) -> Seq<u32>
    decreases names.len(),
{
    if names.len() == 0 {
        seq![]
    } else {
        let before = cores_named(names.drop_last());
        match core_named(names.last()) {
            Some(core) => core_inserted(before, core),
            None => before,
        }
    }
}

proof fn lemma_core_inserted_at(list: Seq<u32>, core: u32, i: int)
    requires
        0 <= i <= list.len(),
        forall|j: int| i <= j < list.len() ==> core < list[j],
        i > 0 ==> !(core < list[i - 1]),
    ensures
        core_inserted(list, core) == list.insert(i, core),
    decreases list.len(),
{
    if i < list.len() {
        let front = list.drop_last();
        lemma_core_inserted_at(front, core, i);
        assert(front.insert(i, core).push(list.last()) =~= list.insert(i, core));
    } else {
        assert(list.push(core) =~= list.insert(i, core));
    }
}

/// The cores of a machine, out of the names in the directory that describes them:
/// `cpu` and a number, in the order of the numbers.
pub fn online_cores(names: &[String]) -> (r: Vec<u32>)
    ensures
        r@ == cores_named(texts(names@)),
{
    let ghost all = texts(names@);
    let mut out: Vec<u32> = Vec::new();
    let n: usize = names.len();
    let mut k: usize = 0;
    assert(out@ =~= cores_named(all.take(0)));
    while k < n
        invariant
            n == names@.len(),
            k <= n,
            all == texts(names@),
            out@ == cores_named(all.take(k as int)),
        decreases n - k,
    {
        assert(all.take(k + 1).drop_last() =~= all.take(k as int));
        let chars: Vec<char> = chars_of(&names[k]);
        if let Some(digits) = strip_prefix(&chars, "cpu") {
            if let Some(core) = parse_u32(digits) {
                let ghost before = out@;
                let mut i: usize = out.len();
                while i > 0 && core < out[i - 1]
                    invariant
                        i <= out@.len(),
                        forall|j: int| i <= j < out@.len() ==> core < out@[j],
                    decreases i,
                {
                    i = i - 1;
                }
                out.insert(i, core);
                proof {
                    lemma_core_inserted_at(before, core, i as int);
                }
            }
        }
        k = k + 1;
    }
    assert(all.take(n as int) =~= all);
    out
}

/// The cores come in order.
pub proof fn law_cores_are_sorted(names: Seq<Seq<char>>)
    ensures
        forall|i: int, j: int|
            0 <= i < j < cores_named(names).len() ==> cores_named(names)[i] <= cores_named(names)[j],
    decreases names.len(),
{
    if names.len() > 0 {
        law_cores_are_sorted(names.drop_last());
        if let Some(core) = core_named(names.last()) {
            lemma_core_inserted(cores_named(names.drop_last()), core);
        }
    }
}

proof fn lemma_core_inserted(list: Seq<u32>, core: u32)
    requires
        forall|i: int, j: int| 0 <= i < j < list.len() ==> list[i] <= list[j],
    ensures
        ({
            let out = core_inserted(list, core);
            &&& forall|i: int, j: int| 0 <= i < j < out.len() ==> out[i] <= out[j]
            &&& forall|i: int|
                0 <= i < out.len() ==> (#[trigger] out[i]) == core || list.contains(out[i])
        }),
    decreases list.len(),
{
    let out = core_inserted(list, core);
    if list.len() > 0 && core < list.last() {
        let front = list.drop_last();
        let rest = core_inserted(front, core);
        lemma_core_inserted(front, core);
        assert forall|i: int, j: int| 0 <= i < j < out.len() implies out[i] <= out[j] by {
            if j == out.len() - 1 {
                assert(rest[i] == core || front.contains(rest[i]));
                if rest[i] != core {
                    let k = choose|k: int| 0 <= k < front.len() && front[k] == rest[i];
                    assert(list[k] <= list.last());
                }
            } else {
                assert(out[i] == rest[i] && out[j] == rest[j]);
            }
        }
        assert forall|i: int| 0 <= i < out.len() implies (#[trigger] out[i]) == core
            || list.contains(out[i]) by {
            if i < rest.len() {
                assert(out[i] == rest[i]);
                if rest[i] != core {
                    let k = choose|k: int| 0 <= k < front.len() && front[k] == rest[i];
                    assert(list[k] == out[i]);
                }
            } else {
                assert(list[list.len() - 1] == out[i]);
            }
        }
    } else {
        assert forall|i: int, j: int| 0 <= i < j < out.len() implies out[i] <= out[j] by {
            if j == list.len() && i < list.len() - 1 {
                assert(list[i] <= list.last());
            }
        }
        assert forall|i: int| 0 <= i < out.len() implies (#[trigger] out[i]) == core
            || list.contains(out[i]) by {
            if i < list.len() {
                assert(list[i] == out[i]);
            }
        }
    }
}

/// Whether runs can be bound to a core: it exists, or the machine does not
/// describe its cores.
pub fn validate_core(core: u32, sysfs_exists: bool, core_exists: bool) -> (r: Result<(), String>)
    ensures
        match r {
            Ok(_) => !sysfs_exists || core_exists,
            Err(e) => sysfs_exists && !core_exists && e@ == "--runs-on-core "@ + decimal(
                core as nat,
            ) + ": core does not exist on this machine"@,
        },
{
    if sysfs_exists && !core_exists {
        Err(
            cat3(
                "--runs-on-core ",
                &decimal_string(core as u64),
                ": core does not exist on this machine",
            ),
        )
    } else {
        Ok(())
    }
}

// ---------------------------------------------------------------------------
// Warnings
// ---------------------------------------------------------------------------

pub open spec fn reads(list: Seq<Option<String>>) -> Seq<Option<Seq<char>>> {
    Seq::new(
        list.len(),
        |i: int|
            match list[i] {
                Some(s) => Some(s@),
                None => None,
            },
    )
}

/// The governors that are known, in the order of the cores.
pub open spec fn known_governors(list: Seq<Option<Seq<char>>>) -> Seq<Seq<char>>
    decreases list.len(),
{
    if list.len() == 0 {
        seq![]
    } else {
        let before = known_governors(list.drop_last());
        match governor_text(list.last()) {
            Some(governor) => before.push(governor),
            None => before,
        }
    }
}

/// Those of a list that are not `performance`.
pub open spec fn slow_ones(list: Seq<Seq<char>>) -> Seq<Seq<char>>
    decreases list.len(),
{
    if list.len() == 0 {
        seq![]
    } else if list.last() == "performance"@ {
        slow_ones(list.drop_last())
    } else {
        slow_ones(list.drop_last()).push(list.last())
    }
}

/// The warning about the governor of the core that runs are bound to.
pub open spec fn core_warning(core: u32, read: Option<Seq<char>>) -> Option<Seq<char>> {
    match governor_text(read) {
        Some(governor) => if governor == "performance"@ {
            None
        } else {
            Some(
                "CPU governor on core "@ + decimal(core as nat) + " is '"@ + governor
                    + "', not 'performance'; results may be noisy"@,
            )
        },
        None => None,
    }
}

/// The warning about the governors of all cores.
pub open spec fn all_warning(list: Seq<Option<Seq<char>>>) -> Option<Seq<char>> {
    let known = known_governors(list);
    let slow = slow_ones(known);
    if slow.len() == 0 {
        None
    } else {
        Some(
            "CPU governor is not 'performance' on "@ + decimal(slow.len()) + " of "@ + decimal(
                known.len(),
            ) + " cores ("@ + join_texts(text_set(slow), ", "@) + "); results may be noisy"@,
        )
    }
}

/// The warning about governors, if there is one. `list` is what the governor
/// files hold: that of the core where runs are bound to one, else those of all
/// cores.
pub open spec fn warning_text(pinned_core: Option<u32>, list: Seq<Option<Seq<char>>>) -> Option<
    Seq<char>,
> {
    match pinned_core {
        Some(core) => if list.len() > 0 {
            core_warning(core, list[0])
        } else {
            None
        },
        None => all_warning(list),
    }
}

fn warn_core(core: u32, read: &Option<String>) -> (r: Option<String>)
    ensures
        match r {
            Some(text) => core_warning(
                core,
                match *read {
                    Some(s) => Some(s@),
                    None => None,
                },
            ) == Some(text@),
            None => core_warning(
                core,
                match *read {
                    Some(s) => Some(s@),
                    None => None,
                },
            ) is None,
        },
{
    match read {
        None => None,
        Some(s) => {
            let governor: String = trimmed(s);
            if same_text(&governor, "performance") {
                None
            } else {
                Some(
                    cat5(
                        "CPU governor on core ",
                        &decimal_string(core as u64),
                        " is '",
                        &governor,
                        "', not 'performance'; results may be noisy",
                    ),
                )
            }
        },
    }
}

/// The warning about governors, if there is one. `list` is what the governor
/// files hold: that of the core where runs are bound to one, else those of all
/// cores.
pub fn governor_warning(pinned_core: Option<u32>, list: &[Option<String>]) -> (r: Option<String>)
    ensures
        match r {
            Some(text) => warning_text(pinned_core, reads(list@)) == Some(text@),
            None => warning_text(pinned_core, reads(list@)) is None,
        },
{
    if let Some(core) = pinned_core {
        if list.len() == 0 {
            return None;
        }
        assert(reads(list@)[0] == (match list@[0] {
            Some(s) => Some(s@),
            None => None,
        }));
        return warn_core(core, &list[0]);
    }
    let ghost all = reads(list@);
    let mut known: usize = 0;
    let mut slow: Vec<String> = Vec::new();
    let n: usize = list.len();
    let mut i: usize = 0;
    assert(texts(slow@) =~= slow_ones(known_governors(all.take(0))));
    while i < n
        invariant
            n == list@.len(),
            i <= n,
            all == reads(list@),
            known <= i,
            known == known_governors(all.take(i as int)).len(),
            texts(slow@) == slow_ones(known_governors(all.take(i as int))),
        decreases n - i,
    {
        broadcast use lemma_texts_push;

        assert(all.take(i + 1).drop_last() =~= all.take(i as int));
        assert(all.take(i + 1).last() == (match list@[i as int] {
            Some(s) => Some(s@),
            None => None,
        }));
        if let Some(s) = &list[i] {
            let governor: String = trimmed(s);
            known = known + 1;
            let ghost before = known_governors(all.take(i as int));
            assert(before.push(governor@).drop_last() =~= before);
            if !same_text(&governor, "performance") {
                slow.push(governor);
            }
        }
        i = i + 1;
    }
    assert(all.take(n as int) =~= all);
    if slow.len() == 0 {
        return None;
    }
    assert(slow@.len() == texts(slow@).len());
    let mut text: String = cat5(
        "CPU governor is not 'performance' on ",
        &decimal_string(slow.len() as u64),
        " of ",
        &decimal_string(known as u64),
        " cores (",
    );
    text.append(&join(&set_of(&slow), ", "));
    text.append("); results may be noisy");
    Some(text)
}

// ---------------------------------------------------------------------------
// Setting
// ---------------------------------------------------------------------------

/// A file and what is written to it.
pub struct FileWrite {
    pub path: String,
    pub value: String,
}

/// What a `FileWrite` says.
pub ghost struct FileText {
    pub path: Seq<char>,
    pub value: Seq<char>,
}

impl View for FileWrite {
    type V = FileText;

    open spec fn view(&self) -> FileText {
        FileText { path: self.path@, value: self.value@ }
    }
}

/// A core's governor is set by writing it to its file.
pub open spec fn governor_write(sysfs: Seq<char>, core: u32, value: Seq<char>) -> FileText {
    FileText { path: governor_file(sysfs, core), value }
}

fn write_of(sysfs: &str, core: u32, value: &str) -> (r: FileWrite)
    ensures
        r@ == governor_write(sysfs@, core, value@),
{
    FileWrite { path: governor_path(sysfs, core), value: value.to_owned() }
}

/// What restores a core's governor when the runs are over.
pub struct GovernorGuard {
    pub sysfs: String,
    pub core: u32,
    pub previous: String,
}

impl GovernorGuard {
    /// The governor to restore.
    pub fn previous(&self) -> (r: &str)
        ensures
            r@ == self.previous@,
    {
        &self.previous
    }

    /// What restores it.
    pub open spec fn restoring(self) -> FileText {
        governor_write(self.sysfs@, self.core, self.previous@)
    }

    /// What restores it: the governor that was read is written again.
    pub fn restore(&self) -> (r: FileWrite)
        ensures
            r@ == self.restoring(),
    {
        write_of(&self.sysfs, self.core, &self.previous)
    }

    /// The warning where it could not be restored, for the reason given.
    pub fn restore_warning(&self, reason: &str) -> (r: String)
        ensures
            r@ == "warning: failed to restore CPU governor on core "@ + decimal(self.core as nat)
                + " to '"@ + self.previous@ + "': "@ + reason@ + ". Fix manually: echo "@
                + self.previous@ + " | sudo tee "@ + governor_file(self.sysfs@, self.core),
    {
        let mut text: String = cat5(
            "warning: failed to restore CPU governor on core ",
            &decimal_string(self.core as u64),
            " to '",
            &self.previous,
            "': ",
        );
        text.append(reason);
        text.append(". Fix manually: echo ");
        text.append(&self.previous);
        text.append(" | sudo tee ");
        text.append(&governor_path(&self.sysfs, self.core));
        text
    }
}

/// How setting a governor ended.
pub enum SetOutcome {
    Changed(GovernorGuard),
    AlreadyPerformance,
    Skipped(String),
}

/// What follows on the way to the governor `performance`.
pub enum SetStep {
    /// Write it.
    Write(FileWrite),
    /// Nothing: this is how it ended.
    Done(SetOutcome),
}

/// Setting the governor `performance`: it is written only where the core has
/// another one and, as far as that is known, can have it.
pub open spec fn set_step(
    sysfs: Seq<char>,
    core: u32,
    read: Option<Seq<char>>,
    available: Option<Seq<char>>,
    written: Option<Result<(), Seq<char>>>,
    step: SetStep,
) -> bool {
    match governor_text(read) {
        None => step matches SetStep::Done(SetOutcome::Skipped(reason)) && reason@
            == "no cpufreq support on core "@ + decimal(core as nat),
        Some(previous) => if previous == "performance"@ {
            step == SetStep::Done(SetOutcome::AlreadyPerformance)
        } else if available matches Some(list) && !words_of(list, false).contains(
            "performance"@,
        ) {
            step matches SetStep::Done(SetOutcome::Skipped(reason)) && reason@
                == "'performance' not offered by this driver (available: "@ + join_texts(
                words_of(available->0, false),
                " "@,
            ) + ")"@
        } else {
            match written {
                None => step matches SetStep::Write(write) && write@ == governor_write(
                    sysfs,
                    core,
                    "performance"@,
                ),
                Some(Ok(_)) => {
                    &&& step matches SetStep::Done(SetOutcome::Changed(guard))
                    &&& guard.sysfs@ == sysfs
                    &&& guard.core == core
                    &&& guard.previous@ == previous
                },
                Some(Err(e)) => step matches SetStep::Done(SetOutcome::Skipped(reason)) && reason@
                    == e,
            }
        },
    }
}

pub open spec fn written_text(written: Option<Result<(), String>>) -> Option<Result<(), Seq<char>>> {
    match written {
        None => None,
        Some(Ok(_)) => Some(Ok(())),
        Some(Err(e)) => Some(Err(e@)),
    }
}

/// What follows on the way to the governor `performance` on a core. `read` is
/// what its governor file holds, `available` what the list of governors holds,
/// and `written` how the write went, once it was made.
pub fn set_performance(
    sysfs: &str,
    core: u32,
    read: Option<&str>,
    available: Option<&str>,
    written: Option<Result<(), String>>,
) -> (r: SetStep)
    ensures
        set_step(
            sysfs@,
            core,
            read_text(read),
            read_text(available),
            written_text(written),
            r,
        ),
{
    let previous: String = match governor_of(read) {
        Some(previous) => previous,
        None => {
            return SetStep::Done(
                SetOutcome::Skipped(
                    cat2("no cpufreq support on core ", &decimal_string(core as u64)),
                ),
            );
        },
    };
    if same_text(&previous, "performance") {
        return SetStep::Done(SetOutcome::AlreadyPerformance);
    }
    if let Some(list) = available {
        let chars: Vec<char> = chars_of(list);
        let governors: Vec<String> = strings_of(&words(&chars, false));
        if !has_text(&governors, "performance") {
            return SetStep::Done(
                SetOutcome::Skipped(
                    cat3(
                        "'performance' not offered by this driver (available: ",
                        &join(&governors, " "),
                        ")",
                    ),
                ),
            );
        }
    }
    match written {
        None => SetStep::Write(write_of(sysfs, core, "performance")),
        Some(Ok(_)) => SetStep::Done(
            SetOutcome::Changed(GovernorGuard { sysfs: sysfs.to_owned(), core, previous }),
        ),
        Some(Err(e)) => SetStep::Done(SetOutcome::Skipped(e)),
    }
}

/// How writing a file went.
#[derive(Clone, Copy, Debug, PartialEq, Eq, Structural)]
pub enum Written {
    Yes,
    /// The user may not.
    Denied,
    /// Something else went wrong.
    Failed,
}

/// What follows on the way to a governor that is written.
pub enum WriteStep {
    /// Write the file.
    Direct(FileWrite),
    /// Print the line and let sudo write the file: `tee` with the path, which
    /// reads the value.
    AskSudo { line: String, write: FileWrite },
    /// Nothing: this is how it went.
    Done(Result<(), String>),
}

/// Writing a governor: by oneself first, and with sudo only where the user may
/// not and the file belongs to the system.
pub open spec fn write_step(
    sysfs: Seq<char>,
    core: u32,
    value: Seq<char>,
    direct: Option<Written>,
    sudo: Option<Reply>,
    step: WriteStep,
) -> bool {
    let path = governor_file(sysfs, core);
    match direct {
        None => step matches WriteStep::Direct(write) && write@ == governor_write(
            sysfs,
            core,
            value,
        ),
        Some(Written::Yes) => step == WriteStep::Done(Ok(())),
        Some(direct) => if direct is Failed || !lies_below(sysfs, "/sys"@) {
            step matches WriteStep::Done(Err(e)) && e@ == "failed to write "@ + path
        } else {
            match sudo {
                None => step matches WriteStep::AskSudo { line, write } && line@
                    == "requesting sudo to write the CPU governor (will be restored on exit)"@
                    && write@ == governor_write(sysfs, core, value),
                Some(reply) => if !reply.started {
                    step matches WriteStep::Done(Err(e)) && e@ == "failed to run sudo tee"@
                } else if reply.ok {
                    step == WriteStep::Done(Ok(()))
                } else if reply.text@.len() > 0 {
                    step matches WriteStep::Done(Err(e)) && e@ == reply.text@
                } else {
                    step matches WriteStep::Done(Err(e)) && e@ == "sudo tee "@ + path + " failed"@
                },
            }
        },
    }
}

/// What follows on the way to a governor that is written. `direct` is how the
/// write went without sudo, `sudo` how it went with sudo, once they were tried.
pub fn write_governor(
    sysfs: &str,
    core: u32,
    value: &str,
    direct: Option<Written>,
    sudo: Option<Reply>,
) -> (r: WriteStep)
    ensures
        write_step(sysfs@, core, value@, direct, sudo, r),
{
    match direct {
        None => {
            return WriteStep::Direct(write_of(sysfs, core, value));
        },
        Some(Written::Yes) => {
            return WriteStep::Done(Ok(()));
        },
        Some(Written::Failed) => {
            return WriteStep::Done(Err(cat2("failed to write ", &governor_path(sysfs, core))));
        },
        Some(Written::Denied) => {},
    }
    if !crate::paths::starts_with(sysfs, "/sys") {
        return WriteStep::Done(Err(cat2("failed to write ", &governor_path(sysfs, core))));
    }
    match sudo {
        None => WriteStep::AskSudo {
            line: "requesting sudo to write the CPU governor (will be restored on exit)".to_owned(),
            write: write_of(sysfs, core, value),
        },
        Some(reply) => {
            if !reply.started {
                WriteStep::Done(Err("failed to run sudo tee".to_owned()))
            } else if reply.ok {
                WriteStep::Done(Ok(()))
            } else if !reply.text.as_str().is_empty() {
                WriteStep::Done(Err(reply.text))
            } else {
                WriteStep::Done(Err(cat3("sudo tee ", &governor_path(sysfs, core), " failed")))
            }
        },
    }
}

/// What files hold once one is written.
pub open spec fn after_write(
    files: Map<Seq<char>, Seq<char>>,
    write: FileText,
) -> Map<Seq<char>, Seq<char>> {
    files.insert(write.path, write.value)
}

/// A core's governor, where files hold what they hold.
pub open spec fn governor_in(
    files: Map<Seq<char>, Seq<char>>,
    sysfs: Seq<char>,
    core: u32,
) -> Option<Seq<char>> {
    let path = governor_file(sysfs, core);
    governor_text(
        if files.contains_key(path) {
            Some(files[path])
        } else {
            None
        },
    )
}

/// From the write that sets a governor to the one that restores it the core has
/// the governor `performance`; then it has the one that it had before. No other
/// file changes.
pub proof fn law_governor_is_restored(
    files: Map<Seq<char>, Seq<char>>,
    sysfs: Seq<char>,
    core: u32,
    available: Option<Seq<char>>,
    write: FileWrite,
    guard: GovernorGuard,
)
    requires
        files.contains_key(governor_file(sysfs, core)),
        set_step(
            sysfs,
            core,
            Some(files[governor_file(sysfs, core)]),
            available,
            None,
            SetStep::Write(write),
        ),
        set_step(
            sysfs,
            core,
            Some(files[governor_file(sysfs, core)]),
            available,
            Some(Ok(())),
            SetStep::Done(SetOutcome::Changed(guard)),
        ),
    ensures
        ({
            let path = governor_file(sysfs, core);
            let during = after_write(files, write@);
            let after = after_write(during, guard.restoring());
            &&& governor_in(during, sysfs, core) == Some("performance"@)
            &&& governor_in(files, sysfs, core) == Some(guard.previous@)
            &&& governor_in(after, sysfs, core) == governor_in(files, sysfs, core)
            &&& during.remove(path) == files.remove(path)
            &&& after.remove(path) == files.remove(path)
        }),
{
    reveal_strlit("performance");
    let path = governor_file(sysfs, core);
    let during = after_write(files, write@);
    let after = after_write(during, guard.restoring());
    let word = "performance"@;
    assert(word[0] == 'p' && word.last() == 'e');
    assert(trim_start_text(word) == word);
    assert(trim_end_text(word) == word);
    law_trim_is_stable(files[path]);
    assert(during.remove(path) =~= files.remove(path));
    assert(after.remove(path) =~= files.remove(path));
}

/// Nothing is written where the governor is not known, is `performance` already,
/// or cannot be had; and what is restored is what was read.
pub proof fn law_set_writes_only_what_is_needed(
    sysfs: Seq<char>,
    core: u32,
    read: Option<Seq<char>>,
    available: Option<Seq<char>>,
    written: Option<Result<(), Seq<char>>>,
    step: SetStep,
)
    requires
        set_step(sysfs, core, read, available, written, step),
    ensures
        step matches SetStep::Write(write) ==> {
            &&& write@ == governor_write(sysfs, core, "performance"@)
            &&& governor_text(read) matches Some(previous) && previous != "performance"@
            &&& available matches Some(list) ==> words_of(list, false).contains("performance"@)
            &&& written is None
        },
        step matches SetStep::Done(SetOutcome::Changed(guard)) ==> governor_text(read) == Some(
            guard.previous@,
        ) && guard.previous@ != "performance"@,
{
}

/// A core's governor stands in a file of its own, below the directory that is named
/// after the core.
pub proof fn law_governor_file_is_the_cores(sysfs: Seq<char>, core: u32)
    requires
        sysfs.len() > 0,
        sysfs.last() != '/',
    ensures
        core_dir(sysfs, core) == sysfs + "/cpu"@ + decimal(core as nat),
        governor_file(sysfs, core) == sysfs + "/cpu"@ + decimal(core as nat)
            + "/cpufreq/scaling_governor"@,
{
    reveal_strlit("cpu");
    reveal_strlit("/cpu");
    reveal_strlit("cpufreq");
    reveal_strlit("scaling_governor");
    reveal_strlit("/cpufreq/scaling_governor");
    let name = "cpu"@ + decimal(core as nat);
    lemma_decimal_reads_back(core as nat);
    law_join_sets_one_slash(sysfs, name);
    assert(name[0] == 'c');
    let dir = joined(sysfs, name);
    assert(dir =~= sysfs + "/cpu"@ + decimal(core as nat));
    assert(dir.last() == decimal(core as nat).last());
    assert(crate::numbers::is_digit(decimal(core as nat)[decimal(core as nat).len() - 1]));
    law_join_sets_one_slash(dir, "cpufreq"@);
    let freq = joined(dir, "cpufreq"@);
    assert(freq =~= dir + seq!['/'] + "cpufreq"@);
    assert(freq.last() == 'q');
    law_join_sets_one_slash(freq, "scaling_governor"@);
    assert(governor_file(sysfs, core) =~= sysfs + "/cpu"@ + decimal(core as nat)
        + "/cpufreq/scaling_governor"@);
}

/// A directory stands for a core exactly where its name is `cpu` and then spells the
/// number of the core.
pub proof fn law_directories_of_cores(name: Seq<char>, core: u32)
    ensures
        core_named("cpu"@ + decimal(core as nat)) == Some(core),
        core_named(name) == Some(core) <==> exists|digits: Seq<char>|
            name == #[trigger] ("cpu"@ + digits) && parse_number(digits, u32::MAX as nat) == Some(
                core as nat,
            ),
{
    let own = "cpu"@ + decimal(core as nat);
    lemma_decimal_reads_back(core as nat);
    law_behind_is_the_rest(own, "cpu"@, decimal(core as nat));
    if core_named(name) == Some(core) {
        let digits = behind(name, "cpu"@)->0;
        law_behind_is_the_rest(name, "cpu"@, digits);
        assert(name == "cpu"@ + digits);
    }
    if exists|digits: Seq<char>|
        name == #[trigger] ("cpu"@ + digits) && parse_number(digits, u32::MAX as nat) == Some(
            core as nat,
        ) {
        let digits = choose|digits: Seq<char>|
            name == #[trigger] ("cpu"@ + digits) && parse_number(digits, u32::MAX as nat) == Some(
                core as nat,
            );
        law_behind_is_the_rest(name, "cpu"@, digits);
    }
}

proof fn lemma_inserted_members(list: Seq<u32>, core: u32)
    ensures
        core_inserted(list, core).to_multiset() == list.to_multiset().insert(core),
    decreases list.len(),
{
    broadcast use vstd::seq_lib::group_to_multiset_ensures;

    if list.len() > 0 && core < list.last() {
        let front = list.drop_last();
        lemma_inserted_members(front, core);
        assert(list =~= front.push(list.last()));
        assert(front.to_multiset().insert(core).insert(list.last())
            =~= front.to_multiset().insert(list.last()).insert(core));
    }
}

/// The cores of a machine are those that its directories stand for, each as often as
/// there is a directory for it, and nothing else, the smallest first.
pub proof fn law_every_core_is_found(names: Seq<Seq<char>>)
    ensures
        cores_named(names).to_multiset() == names.filter_map(
            |name: Seq<char>| core_named(name),
        ).to_multiset(),
        forall|i: int, j: int|
            0 <= i < j < cores_named(names).len() ==> cores_named(names)[i] <= cores_named(names)[j],
    decreases names.len(),
{
    broadcast use vstd::seq_lib::group_to_multiset_ensures;

    let found = |name: Seq<char>| core_named(name);
    law_cores_are_sorted(names);
    if names.len() > 0 {
        let front = names.drop_last();
        law_every_core_is_found(front);
        if let Some(core) = core_named(names.last()) {
            lemma_inserted_members(cores_named(front), core);
            assert(front.filter_map(found) + seq![core] =~= front.filter_map(found).push(core));
        }
    } else {
        assert(cores_named(names) =~= names.filter_map(found));
    }
}

proof fn lemma_known_governors(list: Seq<Option<Seq<char>>>)
    ensures
        known_governors(list) == list.filter_map(
            |read: Option<Seq<char>>|
                match read {
                    Some(s) => Some(trim_text(s)),
                    None => None,
                },
        ),
    decreases list.len(),
{
    let governor = |read: Option<Seq<char>>|
        match read {
            Some(s) => Some(trim_text(s)),
            None => None,
        };
    if list.len() > 0 {
        lemma_known_governors(list.drop_last());
        assert(known_governors(list) =~= list.filter_map(governor));
    } else {
        assert(known_governors(list) =~= list.filter_map(governor));
    }
}

proof fn lemma_slow_ones(list: Seq<Seq<char>>)
    ensures
        slow_ones(list) == list.filter(|governor: Seq<char>| governor != "performance"@),
    decreases list.len(),
{
    reveal(Seq::filter);
    if list.len() > 0 {
        lemma_slow_ones(list.drop_last());
    } else {
        assert(slow_ones(list) =~= list);
    }
}

/// Where runs are bound to no core there is a warning exactly where some governor that
/// is known is not `performance`. It tells how many of the known ones are not, and
/// which they are, each once and in order.
pub proof fn law_slow_cores_are_counted(list: Seq<Option<Seq<char>>>)
    ensures
        ({
            let known = list.filter_map(
                |read: Option<Seq<char>>|
                    match read {
                        Some(s) => Some(trim_text(s)),
                        None => None,
                    },
            );
            let slow = known.filter(|governor: Seq<char>| governor != "performance"@);
            &&& slow.len() == 0 ==> warning_text(None, list) is None
            &&& slow.len() > 0 ==> warning_text(None, list) == Some(
                "CPU governor is not 'performance' on "@ + decimal(slow.len()) + " of "@ + decimal(
                    known.len(),
                ) + " cores ("@ + join_texts(text_set(slow), ", "@) + "); results may be noisy"@,
            )
        }),
{
    lemma_known_governors(list);
    lemma_slow_ones(known_governors(list));
}

/// Where runs are bound to a core there is a warning exactly where its governor is
/// known and is not `performance`, and the warning names both.
pub proof fn law_slow_core_is_named(core: u32, read: Option<Seq<char>>)
    ensures
        warning_text(Some(core), seq![]) is None,
        read is None ==> warning_text(Some(core), seq![read]) is None,
        read matches Some(s) ==> warning_text(Some(core), seq![read]) == (if trim_text(s)
            == "performance"@ {
            None
        } else {
            Some(
                "CPU governor on core "@ + decimal(core as nat) + " is '"@ + trim_text(s)
                    + "', not 'performance'; results may be noisy"@,
            )
        }),
{
}

/// A governor is set in these ways only. One that cannot be read is left alone, and so
/// is `performance`, and one that the driver cannot replace by it. All others are
/// written, once; what came of it counts, and the one that was read is kept.
pub proof fn law_set_goes_by_what_is_read(
    sysfs: Seq<char>,
    core: u32,
    read: Seq<char>,
    available: Option<Seq<char>>,
    written: Option<Result<(), Seq<char>>>,
    step: SetStep,
)
    requires
        set_step(sysfs, core, Some(read), available, written, step),
    ensures
        ({
            let offered = available matches Some(list) ==> words_of(list, false).contains(
                "performance"@,
            );
            let slow = trim_text(read) != "performance"@;
            &&& !slow ==> step == SetStep::Done(SetOutcome::AlreadyPerformance)
            &&& slow && !offered ==> (step matches SetStep::Done(SetOutcome::Skipped(reason))
                && reason@ == "'performance' not offered by this driver (available: "@ + join_texts(
                words_of(available->0, false),
                " "@,
            ) + ")"@)
            &&& slow && offered && written is None ==> (step matches SetStep::Write(write)
                && write.path@ == governor_file(sysfs, core) && write.value@ == "performance"@)
            &&& slow && offered && written == Some(Ok::<(), Seq<char>>(())) ==> (
            step matches SetStep::Done(SetOutcome::Changed(guard)) && guard.sysfs@ == sysfs
                && guard.core == core && guard.previous@ == trim_text(read))
            &&& slow && offered ==> (written matches Some(Err(e)) ==> (step matches SetStep::Done(
                SetOutcome::Skipped(reason),
            ) && reason@ == e))
        }),
{
}

/// Where no governor can be read, nothing is written.
pub proof fn law_unknown_governor_is_left_alone(
    sysfs: Seq<char>,
    core: u32,
    available: Option<Seq<char>>,
    written: Option<Result<(), Seq<char>>>,
    step: SetStep,
)
    requires
        set_step(sysfs, core, None, available, written, step),
    ensures
        step matches SetStep::Done(SetOutcome::Skipped(reason)) && reason@
            == "no cpufreq support on core "@ + decimal(core as nat),
{
}

/// What restores a governor writes the one that was read to the file of its core.
pub proof fn law_restoring_writes_the_previous(guard: GovernorGuard)
    ensures
        guard.restoring().path == governor_file(guard.sysfs@, guard.core),
        guard.restoring().value == guard.previous@,
{
}

/// A governor is written without sudo first. With sudo it is written only where that
/// was denied and the directory lies below that of the system; the value and the file
/// are the same. What came of the last attempt counts.
pub proof fn law_sudo_only_where_denied(
    sysfs: Seq<char>,
    core: u32,
    value: Seq<char>,
    direct: Option<Written>,
    sudo: Option<Reply>,
    step: WriteStep,
)
    requires
        write_step(sysfs, core, value, direct, sudo, step),
    ensures
        ({
            let parts = components_of(sysfs);
            let of_system = components_of("/sys"@);
            let below = of_system.len() <= parts.len() && forall|i: int|
                0 <= i < of_system.len() ==> parts[i] == of_system[i];
            let path = governor_file(sysfs, core);
            let asks = direct == Some(Written::Denied) && below;
            &&& direct is None ==> (step matches WriteStep::Direct(write) && write.path@ == path
                && write.value@ == value)
            &&& direct == Some(Written::Yes) ==> step == WriteStep::Done(Ok(()))
            &&& direct is Some && direct != Some(Written::Yes) && !asks ==> (
            step matches WriteStep::Done(Err(e)) && e@ == "failed to write "@ + path)
            &&& asks && sudo is None ==> (step matches WriteStep::AskSudo { line, write }
                && write.path@ == path && write.value@ == value && line@
                == "requesting sudo to write the CPU governor (will be restored on exit)"@)
            &&& asks ==> (sudo matches Some(reply) ==> {
                &&& !reply.started ==> (step matches WriteStep::Done(Err(e)) && e@
                    == "failed to run sudo tee"@)
                &&& reply.started && reply.ok ==> step == WriteStep::Done(Ok(()))
                &&& reply.started && !reply.ok && reply.text@.len() > 0 ==> (
                step matches WriteStep::Done(Err(e)) && e@ == reply.text@)
                &&& reply.started && !reply.ok && reply.text@.len() == 0 ==> (
                step matches WriteStep::Done(Err(e)) && e@ == "sudo tee "@ + path + " failed"@)
            })
        }),
{
    let a = components_of(sysfs);
    let b = components_of("/sys"@);
    if b.len() <= a.len() {
        if a.take(b.len() as int) == b {
            assert forall|i: int| 0 <= i < b.len() implies a[i] == b[i] by {
                assert(a.take(b.len() as int)[i] == b[i]);
            }
        }
        if forall|i: int| 0 <= i < b.len() ==> a[i] == b[i] {
            assert(a.take(b.len() as int) =~= b);
        }
    }
}

/// What was read of a file says what it holds, or that there is no such file.
pub proof fn law_reads_are_the_files(list: Seq<Option<String>>, read: Option<&str>, i: int)
    ensures
        reads(list).len() == list.len(),
        0 <= i < list.len() ==> (list[i] matches Some(s) ==> reads(list)[i] == Some(s@)),
        0 <= i < list.len() ==> (list[i] is None ==> reads(list)[i] is None),
        read matches Some(s) ==> read_text(read) == Some(s@) && governor_text(Some(s@)) == Some(
            trim_text(s@),
        ),
        read is None ==> read_text(read) is None,
        governor_text(None) is None,
{
}

} // verus!
