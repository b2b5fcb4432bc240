//! Keeping other work off the core that measurements run on: what is evicted,
//! the scripts that apply and undo it, and the steps in between.
use crate::cpus::{
    all_mask_chars, core_set, cpu_list_text, format_cpu_list, hex_mask, increasing, is_mask_char,
    law_core_set, law_increasing_unique, list_names, mask_text, named_cores, parse_cpu_list,
};
use crate::numbers::{decimal, decimal_string, parse_number, parse_u32};
use crate::paths::joined;
use crate::text::{
    cat2, cat3, cat4, cat5, chars_of, contains_text, join, join_texts, lemma_texts_push,
    occurs_in, same_text, slices, texts, trim, trim_text, trimmed, words, words_of,
};
use vstd::prelude::*;

verus! {

// ---------------------------------------------------------------------------
// Which cores are cleared and which are left
// ---------------------------------------------------------------------------

/// The cores to clear for `core`: those that its list of thread siblings names,
/// or `core` alone where there is no such list or it names nothing.
pub open spec fn evicted_list(siblings: Option<Seq<char>>, core: u32) -> Seq<u32> {
    match siblings {
        Some(s) if named_cores(s).len() > 0 => named_cores(s),
        _ => seq![core],
    }
}

/// The cores to clear for `core`, out of its list of thread siblings.
pub fn evicted_cores(siblings: Option<&str>, core: u32) -> (r: Vec<u32>)
    ensures
        r@ == evicted_list(option_text(siblings), core),
        siblings is None ==> r@ == seq![core],
        siblings matches Some(s) ==> {
            &&& (exists|c: u32| list_names(s@, c)) ==> increasing(r@) && forall|c: u32| #[trigger]
                r@.contains(c) <==> list_names(s@, c)
            &&& !(exists|c: u32| list_names(s@, c)) ==> r@ == seq![core]
        },
{
    if let Some(s) = siblings {
        let cores: Vec<u32> = parse_cpu_list(s);
        if cores.len() > 0 {
            assert(cores@.contains(cores@[0]));
            assert(list_names(s@, cores@[0]));
            return cores;
        }
        assert forall|c: u32| !list_names(s@, c) by {
            assert(!cores@.contains(c));
        }
    }
    vec![core]
}

/// Whether the list of cores isolated at boot names `core`.
pub fn boot_isolated(isolated: Option<&str>, core: u32) -> (r: bool)
    ensures
        r == (isolated matches Some(s) && list_names(s@, core)),
{
    match isolated {
        Some(s) => has_core(&parse_cpu_list(s), core),
        None => false,
    }
}

/// Whether a list holds `core`.
pub fn has_core(list: &[u32], core: u32) -> (r: bool)
    ensures
        r == list@.contains(core),
{
    let n: usize = list.len();
    let mut i: usize = 0;
    while i < n
        invariant
            n == list@.len(),
            i <= n,
            forall|j: int| 0 <= j < i ==> list@[j] != core,
        decreases n - i,
    {
        if list[i] == core {
            return true;
        }
        i = i + 1;
    }
    false
}

/// The smallest core of a list, or 0.
pub open spec fn first_core(list: Seq<u32>) -> u32 {
    if list.len() == 0 {
        0
    } else {
        core_set(list)[0]
    }
}

/// The cores of `online` that are not in `evicted`, in the order of `online`.
pub open spec fn remaining_cores(online: Seq<u32>, evicted: Seq<u32>) -> Seq<u32>
    decreases online.len(),
{
    if online.len() == 0 {
        seq![]
    } else if evicted.contains(online.last()) {
        remaining_cores(online.drop_last(), evicted)
    } else {
        remaining_cores(online.drop_last(), evicted).push(online.last())
    }
}

/// The error where no core would be left.
pub open spec fn no_housekeeping_text(evicted: Seq<u32>) -> Seq<char> {
    "isolating core "@ + decimal(first_core(evicted) as nat)
        + " would leave no housekeeping CPUs"@
}

/// The online cores that everything else moves to. It is an error if there is
/// none.
pub fn housekeeping(online: &[u32], evicted: &[u32]) -> (r: Result<Vec<u32>, String>)
    ensures
        match r {
            Ok(cores) => cores@ == remaining_cores(online@, evicted@) && cores@.len() > 0,
            Err(text) => remaining_cores(online@, evicted@).len() == 0 && text@
                == no_housekeeping_text(evicted@),
        },
{
    let mut out: Vec<u32> = Vec::new();
    let n: usize = online.len();
    let mut i: usize = 0;
    while i < n
        invariant
            n == online@.len(),
            i <= n,
            out@ == remaining_cores(online@.take(i as int), evicted@),
        decreases n - i,
    {
        if !has_core(evicted, online[i]) {
            out.push(online[i]);
        }
        assert(online@.take(i + 1).drop_last() =~= online@.take(i as int));
        i = i + 1;
    }
    assert(online@.take(n as int) =~= online@);
    if out.len() > 0 {
        return Ok(out);
    }
    let mut first: u32 = 0;
    if evicted.len() > 0 {
        let sorted: Vec<u32> = crate::cpus::sort_cores(evicted);
        proof {
            crate::cpus::law_core_set(evicted@);
            assert(evicted@.contains(evicted@[0]));
            assert(core_set(evicted@).contains(evicted@[0]));
        }
        first = sorted[0];
    }
    Err(cat3(
        "isolating core ",
        &decimal_string(first as u64),
        " would leave no housekeeping CPUs",
    ))
}

/// Whoever moves to the remaining cores shares none with what was cleared, and
/// every online core is on one side.
pub proof fn law_housekeeping_is_apart(online: Seq<u32>, evicted: Seq<u32>)
    ensures
        forall|c: u32| #[trigger]
            remaining_cores(online, evicted).contains(c) <==> online.contains(c)
                && !evicted.contains(c),
    decreases online.len(),
{
    let out = remaining_cores(online, evicted);
    if online.len() > 0 {
        let front = online.drop_last();
        let rest = remaining_cores(front, evicted);
        law_housekeeping_is_apart(front, evicted);
        assert forall|c: u32| #[trigger] out.contains(c) <==> online.contains(c)
            && !evicted.contains(c) by {
            if out.contains(c) {
                let i = choose|i: int| 0 <= i < out.len() && out[i] == c;
                if i < rest.len() {
                    assert(rest[i] == c);
                    assert(rest.contains(c));
                    let k = choose|k: int| 0 <= k < front.len() && front[k] == c;
                    assert(online[k] == c);
                } else {
                    assert(online[online.len() - 1] == c);
                }
            }
            if online.contains(c) && !evicted.contains(c) {
                let k = choose|k: int| 0 <= k < online.len() && online[k] == c;
                if k < front.len() {
                    assert(front[k] == c);
                    assert(rest.contains(c));
                    let i = choose|i: int| 0 <= i < rest.len() && rest[i] == c;
                    assert(out[i] == c);
                } else {
                    assert(out[out.len() - 1] == c);
                }
            }
        }
    }
}

// ---------------------------------------------------------------------------
// What was in force before
// ---------------------------------------------------------------------------

/// The settings that isolation changes, as they were before: the CPUs of each
/// slice, the affinity of each IRQ, and the default affinity.
pub struct Snapshot {
    pub slice_prev: Vec<(&'static str, String)>,
    pub irq_prev: Vec<(u32, String)>,
    pub default_prev: Option<String>,
}

/// Whether a value can stand in a shell script as it is: only digits, `a` to
/// `f`, commas and dashes.
pub fn sanitized(s: &str) -> (r: bool)
    ensures
        r == all_mask_chars(s@),
{
    let chars: Vec<char> = chars_of(s);
    let n: usize = chars.len();
    let mut i: usize = 0;
    while i < n
        invariant
            n == chars@.len(),
            chars@ == s@,
            i <= n,
            forall|j: int| 0 <= j < i ==> is_mask_char(#[trigger] chars@[j]),
        decreases n - i,
    {
        let c: char = chars[i];
        let ok: bool = ('0' <= c && c <= '9') || ('a' <= c && c <= 'f') || c == ',' || c == '-';
        if !ok {
            assert(!is_mask_char(chars@[i as int]));
            return false;
        }
        i = i + 1;
    }
    true
}

// ---------------------------------------------------------------------------
// The scripts
// ---------------------------------------------------------------------------

/// The command that sets the CPUs of a slice.
pub open spec fn set_property_text(unit: Seq<char>, cpus: Seq<char>) -> Seq<char> {
    "systemctl set-property --runtime "@ + unit + " AllowedCPUs="@ + cpus
}

/// The lines that move this process and everything else out of the way; the
/// ones on slices only where there is a scope to escape to.
pub open spec fn apply_lines(
    scope_unit: Option<Seq<char>>,
    housekeeping: Seq<char>,
    hk_hex: Seq<char>,
    pid: u32,
) -> Seq<Seq<char>> {
    seq!["set -e"@] + (match scope_unit {
        Some(scope) => seq![
            "echo "@ + decimal(pid as nat) + " > /sys/fs/cgroup/bcmp.slice/"@ + scope
                + "/cgroup.procs"@,
            set_property_text("user.slice"@, housekeeping),
            set_property_text("system.slice"@, housekeeping),
            set_property_text("init.scope"@, housekeeping),
        ],
        None => seq![],
    }) + seq![
        "echo "@ + hk_hex + " > /proc/irq/default_smp_affinity"@,
        "for f in /proc/irq/*/smp_affinity_list; do echo "@ + housekeeping
            + " > \"$f\" 2>/dev/null || true; done"@,
    ]
}

/// The script that applies the isolation.
pub open spec fn apply_text(
    scope_unit: Option<Seq<char>>,
    housekeeping: Seq<char>,
    hk_hex: Seq<char>,
    pid: u32,
) -> Seq<char> {
    join_texts(apply_lines(scope_unit, housekeeping, hk_hex, pid), "\n"@)
}

pub open spec fn option_text(s: Option<&str>) -> Option<Seq<char>> {
    match s {
        Some(s) => Some(s@),
        None => None,
    }
}

fn set_property(unit: &str, cpus: &str) -> (r: String)
    ensures
        r@ == set_property_text(unit@, cpus@),
{
    cat4("systemctl set-property --runtime ", unit, " AllowedCPUs=", cpus)
}

/// The script that applies the isolation.
pub fn apply_script(scope_unit: Option<&str>, housekeeping: &str, hk_hex: &str, pid: u32) -> (r:
    String)
    ensures
        r@ == apply_text(option_text(scope_unit), housekeeping@, hk_hex@, pid),
{
    broadcast use lemma_texts_push;

    let mut lines: Vec<String> = Vec::new();
    lines.push("set -e".to_owned());
    if let Some(scope) = scope_unit {
        lines.push(
            cat5(
                "echo ",
                &decimal_string(pid as u64),
                " > /sys/fs/cgroup/bcmp.slice/",
                scope,
                "/cgroup.procs",
            ),
        );
        lines.push(set_property("user.slice", housekeeping));
        lines.push(set_property("system.slice", housekeeping));
        lines.push(set_property("init.scope", housekeeping));
    }
    lines.push(cat3("echo ", hk_hex, " > /proc/irq/default_smp_affinity"));
    lines.push(
        cat3(
            "for f in /proc/irq/*/smp_affinity_list; do echo ",
            housekeeping,
            " > \"$f\" 2>/dev/null || true; done",
        ),
    );
    assert(texts(lines@) =~= apply_lines(
        option_text(scope_unit),
        housekeeping@,
        hk_hex@,
        pid,
    ));
    join(&lines, "\n")
}

/// The lines that give the slices back their CPUs. A value that is not
/// sanitized has none.
pub open spec fn slice_lines(list: Seq<(&'static str, String)>) -> Seq<Seq<char>>
    decreases list.len(),
{
    if list.len() == 0 {
        seq![]
    } else {
        let lines = slice_lines(list.drop_last());
        let (unit, value) = list.last();
        if all_mask_chars(value@) {
            lines.push(set_property_text(unit@, value@) + " || true"@)
        } else {
            lines
        }
    }
}

/// The line that gives back the default affinity.
pub open spec fn default_lines(value: Option<String>) -> Seq<Seq<char>> {
    match value {
        Some(value) if all_mask_chars(value@) => seq![
            "echo "@ + value@ + " > /proc/irq/default_smp_affinity || true"@,
        ],
        _ => seq![],
    }
}

/// The lines that give the IRQs back their affinities.
pub open spec fn irq_lines(list: Seq<(u32, String)>) -> Seq<Seq<char>>
    decreases list.len(),
{
    if list.len() == 0 {
        seq![]
    } else {
        let lines = irq_lines(list.drop_last());
        let (irq, value) = list.last();
        if all_mask_chars(value@) {
            lines.push(
                "echo "@ + value@ + " > /proc/irq/"@ + decimal(irq as nat)
                    + "/smp_affinity_list 2>/dev/null || true"@,
            )
        } else {
            lines
        }
    }
}

/// The script that gives back what a snapshot holds; with `with_cat` it first
/// waits until its input is closed, and no signal stops it.
pub open spec fn restore_text(snapshot: Snapshot, with_cat: bool) -> Seq<char> {
    let body = join_texts(
        slice_lines(snapshot.slice_prev@) + default_lines(snapshot.default_prev) + irq_lines(
            snapshot.irq_prev@,
        ),
        "; "@,
    );
    if with_cat {
        "trap '' INT TERM HUP; cat >/dev/null; "@ + body
    } else {
        body
    }
}

/// The script that gives back what a snapshot holds.
pub fn restore_script(snapshot: &Snapshot, with_cat: bool) -> (r: String)
    ensures
        r@ == restore_text(*snapshot, with_cat),
{
    broadcast use lemma_texts_push;

    let mut lines: Vec<String> = Vec::new();
    let n: usize = snapshot.slice_prev.len();
    let mut i: usize = 0;
    assert(texts(lines@) =~= slice_lines(snapshot.slice_prev@.take(0)));
    while i < n
        invariant
            n == snapshot.slice_prev@.len(),
            i <= n,
            texts(lines@) == slice_lines(snapshot.slice_prev@.take(i as int)),
        decreases n - i,
    {
        let unit: &str = snapshot.slice_prev[i].0;
        let value: &str = snapshot.slice_prev[i].1.as_str();
        if sanitized(value) {
            lines.push(cat2(&set_property(unit, value), " || true"));
        }
        assert(snapshot.slice_prev@.take(i + 1).drop_last() =~= snapshot.slice_prev@.take(
            i as int,
        ));
        i = i + 1;
    }
    assert(snapshot.slice_prev@.take(n as int) =~= snapshot.slice_prev@);
    let ghost slices = texts(lines@);
    if let Some(value) = &snapshot.default_prev {
        if sanitized(value) {
            lines.push(cat3("echo ", value, " > /proc/irq/default_smp_affinity || true"));
        }
    }
    let ghost head = texts(lines@);
    assert(head =~= slices + default_lines(snapshot.default_prev));
    let m: usize = snapshot.irq_prev.len();
    let mut k: usize = 0;
    assert(head + irq_lines(snapshot.irq_prev@.take(0)) =~= head);
    while k < m
        invariant
            m == snapshot.irq_prev@.len(),
            k <= m,
            texts(lines@) == head + irq_lines(snapshot.irq_prev@.take(k as int)),
        decreases m - k,
    {
        let irq: u32 = snapshot.irq_prev[k].0;
        let value: &str = snapshot.irq_prev[k].1.as_str();
        let ghost before = irq_lines(snapshot.irq_prev@.take(k as int));
        if sanitized(value) {
            let line: String = cat5(
                "echo ",
                value,
                " > /proc/irq/",
                &decimal_string(irq as u64),
                "/smp_affinity_list 2>/dev/null || true",
            );
            assert((head + before).push(line@) =~= head + before.push(line@));
            lines.push(line);
        }
        assert(snapshot.irq_prev@.take(k + 1).drop_last() =~= snapshot.irq_prev@.take(k as int));
        k = k + 1;
    }
    assert(snapshot.irq_prev@.take(m as int) =~= snapshot.irq_prev@);
    let body: String = join(&lines, "; ");
    if with_cat {
        cat2("trap '' INT TERM HUP; cat >/dev/null; ", &body)
    } else {
        body
    }
}

/// An entry whose value is not sanitized leaves the lines on slices as they are.
pub proof fn law_unsafe_slice_left_out(list: Seq<(&'static str, String)>, i: int)
    requires
        0 <= i < list.len(),
        !all_mask_chars(list[i].1@),
    ensures
        slice_lines(list.remove(i)) == slice_lines(list),
    decreases list.len(),
{
    let less = list.remove(i);
    if i == list.len() - 1 {
        assert(less =~= list.drop_last());
    } else {
        law_unsafe_slice_left_out(list.drop_last(), i);
        assert(less.drop_last() =~= list.drop_last().remove(i));
        assert(less.last() == list.last());
    }
}

/// An entry whose value is not sanitized leaves the lines on IRQs as they are.
pub proof fn law_unsafe_irq_left_out(list: Seq<(u32, String)>, i: int)
    requires
        0 <= i < list.len(),
        !all_mask_chars(list[i].1@),
    ensures
        irq_lines(list.remove(i)) == irq_lines(list),
    decreases list.len(),
{
    let less = list.remove(i);
    if i == list.len() - 1 {
        assert(less =~= list.drop_last());
    } else {
        law_unsafe_irq_left_out(list.drop_last(), i);
        assert(less.drop_last() =~= list.drop_last().remove(i));
        assert(less.last() == list.last());
    }
}

/// What isolation itself writes, the list of the housekeeping cores and their
/// mask, is sanitized: a later snapshot of it can be restored.
pub proof fn law_own_values_are_sanitized(cores: Seq<u32>)
    ensures
        all_mask_chars(cpu_list_text(core_set(cores))),
        all_mask_chars(mask_text(cores)),
{
    crate::cpus::law_cpu_list_chars(cores);
    crate::cpus::law_mask_chars(cores);
}

// ---------------------------------------------------------------------------
// Taking the snapshot
// ---------------------------------------------------------------------------

/// The entries of a snapshot's slices as texts.
pub open spec fn slice_entries(list: Seq<(&'static str, String)>) -> Seq<(Seq<char>, Seq<char>)> {
    Seq::new(list.len(), |i: int| (list[i].0@, list[i].1@))
}

/// The entries of a snapshot's IRQs as texts.
pub open spec fn irq_entries(list: Seq<(u32, String)>) -> Seq<(u32, Seq<char>)> {
    Seq::new(list.len(), |i: int| (list[i].0, list[i].1@))
}

/// What `systemctl show` printed for a slice, as CPUs: nothing means all online
/// cores.
pub open spec fn slice_value(printed: Seq<char>, online: Seq<u32>) -> Seq<char> {
    let value = trim_text(printed);
    if value.len() == 0 {
        cpu_list_text(core_set(online))
    } else {
        value
    }
}

/// The slices to restore: those with a sanitized value.
pub open spec fn kept_slices(printed: Seq<(&'static str, String)>, online: Seq<u32>) -> Seq<
    (Seq<char>, Seq<char>),
>
    decreases printed.len(),
{
    if printed.len() == 0 {
        seq![]
    } else {
        let kept = kept_slices(printed.drop_last(), online);
        let value = slice_value(printed.last().1@, online);
        if all_mask_chars(value) {
            kept.push((printed.last().0@, value))
        } else {
            kept
        }
    }
}

/// One warning for each slice that is not restored.
pub open spec fn slice_warnings(printed: Seq<(&'static str, String)>, online: Seq<u32>) -> Seq<
    Seq<char>,
>
    decreases printed.len(),
{
    if printed.len() == 0 {
        seq![]
    } else {
        let texts = slice_warnings(printed.drop_last(), online);
        if all_mask_chars(slice_value(printed.last().1@, online)) {
            texts
        } else {
            texts.push("warning: dropped unsafe AllowedCPUs snapshot for "@ + printed.last().0@)
        }
    }
}

/// An ordered list of IRQs with `entry` behind all of the same or a smaller
/// number.
pub open spec fn irq_placed(list: Seq<(u32, Seq<char>)>, entry: (u32, Seq<char>)) -> Seq<
    (u32, Seq<char>),
>
    decreases list.len(),
{
    if list.len() > 0 && entry.0 < list.last().0 {
        irq_placed(list.drop_last(), entry).push(list.last())
    } else {
        list.push(entry)
    }
}

/// The IRQs to restore, by number: the directories with a number for a name and
/// a sanitized affinity.
pub open spec fn kept_irqs(dirs: Seq<(String, String)>) -> Seq<(u32, Seq<char>)>
    decreases dirs.len(),
{
    if dirs.len() == 0 {
        seq![]
    } else {
        let kept = kept_irqs(dirs.drop_last());
        let value = trim_text(dirs.last().1@);
        match parse_number(dirs.last().0@, u32::MAX as nat) {
            Some(irq) if all_mask_chars(value) => irq_placed(kept, (irq as u32, value)),
            _ => kept,
        }
    }
}

/// One warning for each IRQ that is not restored.
pub open spec fn irq_warnings(dirs: Seq<(String, String)>) -> Seq<Seq<char>>
    decreases dirs.len(),
{
    if dirs.len() == 0 {
        seq![]
    } else {
        let texts = irq_warnings(dirs.drop_last());
        match parse_number(dirs.last().0@, u32::MAX as nat) {
            Some(irq) if !all_mask_chars(trim_text(dirs.last().1@)) => texts.push(
                "warning: dropped unsafe IRQ affinity snapshot for IRQ "@ + decimal(irq),
            ),
            _ => texts,
        }
    }
}

/// A text with its ASCII letters in lower case.
pub open spec fn lower_text(s: Seq<char>) -> Seq<char> {
    Seq::new(
        s.len(),
        |i: int|
            if 'A' <= s[i] && s[i] <= 'Z' {
                (s[i] as u32 + 32) as char
            } else {
                s[i]
            },
    )
}

fn lower(s: &[char]) -> (r: String)
    ensures
        r@ == lower_text(s@),
{
    let mut out: String = String::new();
    let n: usize = s.len();
    let mut i: usize = 0;
    while i < n
        invariant
            n == s@.len(),
            i <= n,
            out@ =~= lower_text(s@).take(i as int),
        decreases n - i,
    {
        let c: char = s[i];
        if 'A' <= c && c <= 'Z' {
            out.push((c as u8 + 32) as char);
        } else {
            out.push(c);
        }
        i = i + 1;
    }
    out
}

/// The default affinity to restore.
pub open spec fn kept_default(read: Option<Seq<char>>) -> Option<Seq<char>> {
    match read {
        Some(s) if all_mask_chars(lower_text(trim_text(s))) => Some(lower_text(trim_text(s))),
        _ => None,
    }
}

/// The warning where a default affinity was read and is not restored.
pub open spec fn default_warnings(read: Option<Seq<char>>) -> Seq<Seq<char>> {
    match read {
        Some(s) if !all_mask_chars(lower_text(trim_text(s))) => seq![
            "warning: dropped unsafe default IRQ affinity snapshot"@,
        ],
        _ => seq![],
    }
}

pub open spec fn option_string(s: Option<String>) -> Option<Seq<char>> {
    match s {
        Some(s) => Some(s@),
        None => None,
    }
}

proof fn lemma_irq_placed_at(list: Seq<(u32, Seq<char>)>, entry: (u32, Seq<char>), i: int)
    requires
        0 <= i <= list.len(),
        forall|j: int| i <= j < list.len() ==> entry.0 < (#[trigger] list[j]).0,
        i > 0 ==> list[i - 1].0 <= entry.0,
    ensures
        irq_placed(list, entry) == list.insert(i, entry),
    decreases list.len(),
{
    if i < list.len() {
        assert(list.last() == list[list.len() - 1]);
        let front = list.drop_last();
        lemma_irq_placed_at(front, entry, i);
        assert(front.insert(i, entry).push(list.last()) =~= list.insert(i, entry));
    } else {
        assert(list.push(entry) =~= list.insert(i, entry));
    }
}

fn insert_irq(list: &mut Vec<(u32, String)>, irq: u32, value: String)
    ensures
        irq_entries(final(list)@) == irq_placed(irq_entries(old(list)@), (irq, value@)),
{
    let ghost before = list@;
    let mut i: usize = list.len();
    while i > 0 && irq < list[i - 1].0
        invariant
            list@ == before,
            i <= list@.len(),
            forall|j: int| i <= j < list@.len() ==> irq < (#[trigger] irq_entries(list@)[j]).0,
        decreases i,
    {
        i = i - 1;
    }
    proof {
        lemma_irq_placed_at(irq_entries(before), (irq, value@), i as int);
    }
    list.insert(i, (irq, value));
    assert(irq_entries(list@) =~= irq_entries(before).insert(i as int, (irq, value@)));
}

/// Takes the snapshot out of what was read: what `systemctl show` printed for
/// each slice, the name and the affinity of each directory under `/proc/irq`,
/// and the default affinity. Also the warnings on what cannot be restored.
pub fn snapshot(
    online: &[u32],
    slices: &[(&'static str, String)],
    irqs: &[(String, String)],
    default: Option<&str>,
) -> (r: (Snapshot, Vec<String>))
    ensures
        slice_entries(r.0.slice_prev@) == kept_slices(slices@, online@),
        irq_entries(r.0.irq_prev@) == kept_irqs(irqs@),
        option_string(r.0.default_prev) == kept_default(option_text(default)),
        texts(r.1@) == slice_warnings(slices@, online@) + irq_warnings(irqs@) + default_warnings(
            option_text(default),
        ),
{
    broadcast use lemma_texts_push;

    let all: String = format_cpu_list(online);
    let mut warnings: Vec<String> = Vec::new();
    let mut slice_prev: Vec<(&'static str, String)> = Vec::new();
    let n: usize = slices.len();
    let mut i: usize = 0;
    assert(slice_entries(slice_prev@) =~= kept_slices(slices@.take(0), online@));
    assert(texts(warnings@) =~= slice_warnings(slices@.take(0), online@));
    while i < n
        invariant
            n == slices@.len(),
            i <= n,
            all@ == cpu_list_text(core_set(online@)),
            slice_entries(slice_prev@) == kept_slices(slices@.take(i as int), online@),
            texts(warnings@) == slice_warnings(slices@.take(i as int), online@),
        decreases n - i,
    {
        let raw: String = trimmed(slices[i].1.as_str());
        let value: String = if raw.as_str().is_empty() {
            all.clone()
        } else {
            raw
        };
        assert(slices@.take(i + 1).drop_last() =~= slices@.take(i as int));
        assert(value@ == slice_value(slices@[i as int].1@, online@));
        let ghost before = slice_prev@;
        if sanitized(&value) {
            slice_prev.push((slices[i].0, value));
            assert(slice_entries(slice_prev@) =~= slice_entries(before).push(
                (slices@[i as int].0@, value@),
            ));
        } else {
            warnings.push(
                cat2("warning: dropped unsafe AllowedCPUs snapshot for ", slices[i].0),
            );
        }
        i = i + 1;
    }
    assert(slices@.take(n as int) =~= slices@);

    let ghost head = texts(warnings@);
    let mut irq_prev: Vec<(u32, String)> = Vec::new();
    let m: usize = irqs.len();
    let mut k: usize = 0;
    assert(irq_entries(irq_prev@) =~= kept_irqs(irqs@.take(0)));
    assert(head =~= head + irq_warnings(irqs@.take(0)));
    while k < m
        invariant
            m == irqs@.len(),
            k <= m,
            irq_entries(irq_prev@) == kept_irqs(irqs@.take(k as int)),
            texts(warnings@) == head + irq_warnings(irqs@.take(k as int)),
        decreases m - k,
    {
        let name: Vec<char> = chars_of(irqs[k].0.as_str());
        assert(irqs@.take(k + 1).drop_last() =~= irqs@.take(k as int));
        if let Some(irq) = parse_u32(&name) {
            let value: String = trimmed(irqs[k].1.as_str());
            if sanitized(&value) {
                insert_irq(&mut irq_prev, irq, value);
            } else {
                let warning: String = cat2(
                    "warning: dropped unsafe IRQ affinity snapshot for IRQ ",
                    &decimal_string(irq as u64),
                );
                let ghost before = irq_warnings(irqs@.take(k as int));
                assert((head + before).push(warning@) =~= head + before.push(warning@));
                warnings.push(warning);
            }
        }
        k = k + 1;
    }
    assert(irqs@.take(m as int) =~= irqs@);

    let mut default_prev: Option<String> = None;
    let ghost head = texts(warnings@);
    if let Some(s) = default {
        let chars: Vec<char> = chars_of(s);
        let value: String = lower(trim(&chars));
        if sanitized(&value) {
            default_prev = Some(value);
        } else {
            warnings.push("warning: dropped unsafe default IRQ affinity snapshot".to_owned());
        }
    }
    assert(texts(warnings@) =~= head + default_warnings(option_text(default)));
    (Snapshot { slice_prev, irq_prev, default_prev }, warnings)
}

proof fn lemma_kept_slices(printed: Seq<(&'static str, String)>, online: Seq<u32>)
    ensures
        forall|i: int|
            0 <= i < kept_slices(printed, online).len() ==> all_mask_chars(
                (#[trigger] kept_slices(printed, online)[i]).1,
            ),
    decreases printed.len(),
{
    if printed.len() > 0 {
        lemma_kept_slices(printed.drop_last(), online);
        let before = kept_slices(printed.drop_last(), online);
        let all = kept_slices(printed, online);
        assert forall|i: int| 0 <= i < all.len() implies all_mask_chars(
            (#[trigger] all[i]).1,
        ) by {
            if i < before.len() {
                assert(all[i] == before[i]);
            }
        }
    }
}

proof fn lemma_irq_placed_safe(list: Seq<(u32, Seq<char>)>, entry: (u32, Seq<char>))
    requires
        all_mask_chars(entry.1),
        forall|i: int| 0 <= i < list.len() ==> all_mask_chars((#[trigger] list[i]).1),
    ensures
        forall|i: int|
            0 <= i < irq_placed(list, entry).len() ==> all_mask_chars(
                (#[trigger] irq_placed(list, entry)[i]).1,
            ),
    decreases list.len(),
{
    let all = irq_placed(list, entry);
    if list.len() > 0 && entry.0 < list.last().0 {
        let front = list.drop_last();
        assert forall|i: int| 0 <= i < front.len() implies all_mask_chars(
            (#[trigger] front[i]).1,
        ) by {
            assert(front[i] == list[i]);
        }
        lemma_irq_placed_safe(front, entry);
        let before = irq_placed(front, entry);
        assert(all_mask_chars(list[list.len() - 1].1));
        assert forall|i: int| 0 <= i < all.len() implies all_mask_chars(
            (#[trigger] all[i]).1,
        ) by {
            if i < before.len() {
                assert(all[i] == before[i]);
            }
        }
    } else {
        assert forall|i: int| 0 <= i < all.len() implies all_mask_chars(
            (#[trigger] all[i]).1,
        ) by {
            if i < list.len() {
                assert(all[i] == list[i]);
            }
        }
    }
}

proof fn lemma_kept_irqs(dirs: Seq<(String, String)>)
    ensures
        forall|i: int|
            0 <= i < kept_irqs(dirs).len() ==> all_mask_chars((#[trigger] kept_irqs(dirs)[i]).1),
    decreases dirs.len(),
{
    if dirs.len() > 0 {
        let front = dirs.drop_last();
        lemma_kept_irqs(front);
        let value = trim_text(dirs.last().1@);
        match parse_number(dirs.last().0@, u32::MAX as nat) {
            Some(irq) if all_mask_chars(value) => {
                lemma_irq_placed_safe(kept_irqs(front), (irq as u32, value));
            },
            _ => {},
        }
    }
}

proof fn lemma_slice_lines_len(list: Seq<(&'static str, String)>)
    requires
        forall|i: int| 0 <= i < list.len() ==> all_mask_chars((#[trigger] list[i]).1@),
    ensures
        slice_lines(list).len() == list.len(),
    decreases list.len(),
{
    if list.len() > 0 {
        assert(all_mask_chars(list[list.len() - 1].1@));
        lemma_slice_lines_len(list.drop_last());
    }
}

proof fn lemma_irq_lines_len(list: Seq<(u32, String)>)
    requires
        forall|i: int| 0 <= i < list.len() ==> all_mask_chars((#[trigger] list[i]).1@),
    ensures
        irq_lines(list).len() == list.len(),
    decreases list.len(),
{
    if list.len() > 0 {
        assert(all_mask_chars(list[list.len() - 1].1@));
        lemma_irq_lines_len(list.drop_last());
    }
}

/// What a snapshot holds is restored in full: the restoring script has a line for
/// each of its slices and IRQs, and for its default affinity.
pub proof fn law_snapshot_is_restored_in_full(
    snapshot: Snapshot,
    online: Seq<u32>,
    slices: Seq<(&'static str, String)>,
    irqs: Seq<(String, String)>,
    default: Option<&str>,
)
    requires
        slice_entries(snapshot.slice_prev@) == kept_slices(slices, online),
        irq_entries(snapshot.irq_prev@) == kept_irqs(irqs),
        option_string(snapshot.default_prev) == kept_default(option_text(default)),
    ensures
        slice_lines(snapshot.slice_prev@).len() == snapshot.slice_prev@.len(),
        irq_lines(snapshot.irq_prev@).len() == snapshot.irq_prev@.len(),
        snapshot.default_prev is Some ==> default_lines(snapshot.default_prev).len() == 1,
{
    lemma_kept_slices(slices, online);
    lemma_kept_irqs(irqs);
    assert forall|i: int| 0 <= i < snapshot.slice_prev@.len() implies all_mask_chars(
        (#[trigger] snapshot.slice_prev@[i]).1@,
    ) by {
        assert(slice_entries(snapshot.slice_prev@)[i].1 == snapshot.slice_prev@[i].1@);
    }
    assert forall|i: int| 0 <= i < snapshot.irq_prev@.len() implies all_mask_chars(
        (#[trigger] snapshot.irq_prev@[i]).1@,
    ) by {
        assert(irq_entries(snapshot.irq_prev@)[i].1 == snapshot.irq_prev@[i].1@);
    }
    lemma_slice_lines_len(snapshot.slice_prev@);
    lemma_irq_lines_len(snapshot.irq_prev@);
}

// ---------------------------------------------------------------------------
// The steps
// ---------------------------------------------------------------------------

/// What isolating a core comes to: the core, this process, whether the core was
/// isolated at boot, and which cores are cleared and which take over.
pub struct IsolationPlan {
    pub core: u32,
    pub pid: u32,
    pub boot: bool,
    pub evicted: Vec<u32>,
    pub housekeeping: Vec<u32>,
}

/// The scope that this process escapes to.
pub open spec fn scope_text(pid: u32) -> Seq<char> {
    "bcmp-shield-"@ + decimal(pid as nat) + ".scope"@
}

impl IsolationPlan {
    /// The list of the cores that take over.
    pub open spec fn list(self) -> Seq<char> {
        cpu_list_text(core_set(self.housekeeping@))
    }

    /// The scope, where one is needed: not for a core isolated at boot.
    pub open spec fn scope(self) -> Option<Seq<char>> {
        if self.boot {
            None
        } else {
            Some(scope_text(self.pid))
        }
    }

    /// The script that applies the plan.
    pub open spec fn script(self) -> Seq<char> {
        apply_text(self.scope(), self.list(), mask_text(self.housekeeping@), self.pid)
    }

    fn scope_unit(&self) -> (r: String)
        ensures
            r@ == scope_text(self.pid),
    {
        cat3("bcmp-shield-", &decimal_string(self.pid as u64), ".scope")
    }

    fn apply(&self) -> (r: String)
        ensures
            r@ == self.script(),
    {
        let list: String = format_cpu_list(&self.housekeeping);
        let mask: String = hex_mask(&self.housekeeping);
        if self.boot {
            apply_script(None, &list, &mask, self.pid)
        } else {
            let unit: String = self.scope_unit();
            apply_script(Some(unit.as_str()), &list, &mask, self.pid)
        }
    }
}

/// Plans the isolation of `core` for the process `pid`, out of the core's list
/// of thread siblings, the list of cores isolated at boot, and the online cores.
/// It is an error if no core would be left.
pub fn isolate(
    siblings: Option<&str>,
    isolated: Option<&str>,
    online: &[u32],
    core: u32,
    pid: u32,
) -> (r: Result<IsolationPlan, String>)
    ensures
        ({
            let evicted = evicted_list(option_text(siblings), core);
            let left = remaining_cores(online@, evicted);
            match r {
                Ok(plan) => {
                    &&& left.len() > 0
                    &&& plan.core == core
                    &&& plan.pid == pid
                    &&& plan.boot == (isolated matches Some(s) && list_names(s@, core))
                    &&& plan.evicted@ == evicted
                    &&& plan.housekeeping@ == left
                },
                Err(text) => left.len() == 0 && text@ == no_housekeeping_text(evicted),
            }
        }),
{
    let evicted: Vec<u32> = evicted_cores(siblings, core);
    match housekeeping(online, &evicted) {
        Ok(left) => Ok(
            IsolationPlan {
                core,
                pid,
                boot: boot_isolated(isolated, core),
                evicted,
                housekeeping: left,
            },
        ),
        Err(text) => Err(text),
    }
}

/// Whether the root cgroup, out of the list of what it offers, can bind cgroups
/// to cores.
pub open spec fn offers_cpuset(controllers: Seq<char>) -> bool {
    words_of(controllers, false).contains("cpuset"@)
}

fn has_cpuset(controllers: &str) -> (r: bool)
    ensures
        r == offers_cpuset(controllers@),
{
    let chars: Vec<char> = chars_of(controllers);
    let list: Vec<String> = crate::text::strings_of(&words(&chars, false));
    crate::text::has_text(&list, "cpuset")
}

/// The file that lists the thread siblings of a core.
pub fn siblings_path(sysfs: &str, core: u32) -> (r: String)
    ensures
        r@ == joined(
            joined(crate::governor::core_dir(sysfs@, core), "topology"@),
            "thread_siblings_list"@,
        ),
{
    crate::paths::join(
        &crate::paths::join(&crate::governor::core_path(sysfs, core), "topology"),
        "thread_siblings_list",
    )
}

/// The arguments of systemctl that ask for the CPUs of a unit.
pub fn show_args(unit: &str) -> (r: Vec<String>)
    ensures
        texts(r@) == seq!["show"@, "-p"@, "AllowedCPUs"@, "--value"@, unit@],
{
    let r: Vec<String> = crate::git::arguments(&["show", "-p", "AllowedCPUs", "--value", unit]);
    assert(texts(r@) =~= seq!["show"@, "-p"@, "AllowedCPUs"@, "--value"@, unit@]);
    r
}

pub open spec fn scope_args_text(unit: Seq<char>) -> Seq<Seq<char>> {
    seq![
        "-n"@,
        "systemd-run"@,
        "--scope"@,
        "--slice=bcmp.slice"@,
        "--unit="@ + unit,
        "-p"@,
        "Delegate=yes"@,
        "--quiet"@,
        "sleep"@,
        "30"@,
    ]
}

/// The arguments of sudo that open a scope, and the directory that appears with
/// it. Sudo asks for no password: that was seen to before.
pub fn scope_args(unit: &str) -> (r: (Vec<String>, String))
    ensures
        texts(r.0@) == scope_args_text(unit@),
        r.1@ == joined("/sys/fs/cgroup/bcmp.slice"@, unit@),
{
    let named: String = cat2("--unit=", unit);
    let args: Vec<String> = crate::git::arguments(
        &[
            "-n",
            "systemd-run",
            "--scope",
            "--slice=bcmp.slice",
            &named,
            "-p",
            "Delegate=yes",
            "--quiet",
            "sleep",
            "30",
        ],
    );
    assert(texts(args@) =~= scope_args_text(unit@));
    (args, crate::paths::join("/sys/fs/cgroup/bcmp.slice", unit))
}

/// What follows while a scope is opened.
#[derive(Clone, Copy, Debug, PartialEq, Eq, Structural)]
pub enum ScopeWait {
    /// Look again after so many milliseconds.
    Wait { millis: u64 },
    /// It is there.
    Open,
    /// It will not come.
    GiveUp,
}

/// Waiting for a scope: ten times a second, for five seconds, and no longer than
/// the command that opens it runs. `waited` is the time so far in milliseconds,
/// `there` whether the directory of the scope was seen, `ended` whether the
/// command ended.
pub fn await_scope(waited: u64, there: bool, ended: bool) -> (r: ScopeWait)
    ensures
        r == (if waited >= 5000 {
            ScopeWait::GiveUp
        } else if there {
            ScopeWait::Open
        } else if ended {
            ScopeWait::GiveUp
        } else {
            ScopeWait::Wait { millis: 100 }
        }),
{
    if waited >= 5000 {
        ScopeWait::GiveUp
    } else if there {
        ScopeWait::Open
    } else if ended {
        ScopeWait::GiveUp
    } else {
        ScopeWait::Wait { millis: 100 }
    }
}

/// The arguments of taskset that bind all threads of a process to the cores of a
/// list.
pub fn move_args(list: &str, pid: u32) -> (r: Vec<String>)
    ensures
        texts(r@) == seq!["-a"@, "-p"@, "-c"@, list@, decimal(pid as nat)],
{
    let number: String = decimal_string(pid as u64);
    let r: Vec<String> = crate::git::arguments(&["-a", "-p", "-c", list, &number]);
    assert(texts(r@) =~= seq!["-a"@, "-p"@, "-c"@, list@, decimal(pid as nat)]);
    r
}

/// Whether a program answers, out of how it went with `--version`.
pub fn probe_command(cmd: &str, started: bool, ok: bool) -> (r: Result<(), String>)
    ensures
        match r {
            Ok(_) => started && ok,
            Err(e) => !(started && ok) && e@ == cmd@ + " is unavailable"@,
        },
{
    if started && ok {
        Ok(())
    } else {
        Err(cat2(cmd, " is unavailable"))
    }
}

/// Why the CPUs of a slice could not be read, if `systemctl show` failed.
pub fn show_error(unit: &str, started: bool, ok: bool) -> (r: Option<String>)
    ensures
        match r {
            Some(e) => !(started && ok) && e@ == (if !started {
                "failed to run systemctl show"@
            } else {
                "systemctl show failed for "@ + unit@
            }),
            None => started && ok,
        },
{
    if !started {
        Some("failed to run systemctl show".to_owned())
    } else if !ok {
        Some(cat2("systemctl show failed for ", unit))
    } else {
        None
    }
}

/// What undoes the isolation when the measurements are over: the script, and
/// the CPUs that `user.slice` has to end up with.
pub struct IsolationGuard {
    pub restore: String,
    pub canary_prev: String,
}

impl IsolationGuard {
    /// Whether the helper has restored everything: it ran and succeeded, and
    /// `user.slice` has its CPUs back, so far as they are known. Otherwise the
    /// script is run directly.
    pub fn restored(&self, helper: Option<bool>, allowed_cpus: Option<&str>) -> (r: bool)
        ensures
            r == (helper == Some(true) && (self.canary_prev@.len() == 0 || (allowed_cpus matches Some(
                s,
            ) && trim_text(s@) == self.canary_prev@))),
    {
        match helper {
            Some(true) => {
                if self.canary_prev.as_str().is_empty() {
                    return true;
                }
                match allowed_cpus {
                    Some(s) => same_text(&trimmed(s), &self.canary_prev),
                    None => false,
                }
            },
            _ => false,
        }
    }

    /// The warning where the script could not restore everything either.
    pub fn restore_warning(&self) -> (r: &'static str)
        ensures
            r@
                == "warning: failed to restore CPU isolation. Fix manually: sudo systemctl set-property --runtime user.slice AllowedCPUs= (repeat for system.slice and init.scope); IRQ affinities reset on reboot."@,
    {
        "warning: failed to restore CPU isolation. Fix manually: sudo systemctl set-property --runtime user.slice AllowedCPUs= (repeat for system.slice and init.scope); IRQ affinities reset on reboot."
    }
}

/// How isolating a core ended.
pub enum IsolateOutcome {
    Isolated { guard: IsolationGuard, boot: bool },
    Skipped(String),
}

/// What a run of the steps waits for.
pub enum Phase {
    /// What the root cgroup offers.
    Controllers,
    /// Whether `systemctl` answers.
    ProbeSystemctl,
    /// Whether `systemd-run` answers.
    ProbeRun,
    /// The CPUs of `user.slice`.
    ShowUser,
    /// The CPUs of `system.slice`.
    ShowSystem,
    /// The CPUs of `init.scope`.
    ShowInit,
    /// Whether sudo asks for no password.
    Start,
    /// `sudo true`.
    Authorize,
    /// The scope to appear.
    Scope,
    /// The script.
    Script,
    /// The restoring script, after which the isolation is given up.
    Undo(String),
    /// The cgroup of this process.
    Migrate,
    /// This process to move to the housekeeping cores.
    Move,
}

/// What the machine says of its cores and IRQs: the online cores, the name and
/// the affinity of each directory under `/proc/irq`, and the default affinity.
pub struct Machine {
    pub online: Vec<u32>,
    pub irqs: Vec<(String, String)>,
    pub default: Option<String>,
}

/// A run of the steps: the plan, the machine, what `systemctl show` printed so
/// far, what was in force before once all of that is known, and the phase.
pub struct IsolationRun {
    pub plan: IsolationPlan,
    pub machine: Machine,
    pub shown: Vec<(&'static str, String)>,
    pub snapshot: Snapshot,
    pub phase: Phase,
}

/// How an action went: whether it could be started, whether it succeeded, and
/// what was read or why it failed.
pub struct Reply {
    pub started: bool,
    pub ok: bool,
    pub text: String,
}

/// The next thing to do.
pub enum IsolationAction {
    /// Read what the root cgroup offers.
    ReadControllers,
    /// Run the program with `--version`.
    Probe(&'static str),
    /// Run `systemctl show` for the unit.
    Show(&'static str),
    /// Print the lines and find out whether sudo asks for no password.
    CheckSudo(Vec<String>),
    /// Print the line and run `sudo true`.
    Authorize(String),
    /// Open the scope and wait for it.
    OpenScope(String),
    /// Run the script with sudo.
    RunScript(String),
    /// Run the restoring script with sudo, whatever comes of it.
    Restore(String),
    /// Read the cgroup of this process.
    ReadCgroup,
    /// Bind this process to the cores of the list.
    MoveProcess(String),
    /// Print the lines, start the helper with its script, and stop here.
    Finish { lines: Vec<String>, helper: Option<String>, outcome: IsolateOutcome },
}

/// The siblings that are cleared with a core.
pub open spec fn sibling_texts(evicted: Seq<u32>, core: u32) -> Seq<Seq<char>>
    decreases evicted.len(),
{
    if evicted.len() == 0 {
        seq![]
    } else if evicted.last() == core {
        sibling_texts(evicted.drop_last(), core)
    } else {
        sibling_texts(evicted.drop_last(), core).push(decimal(evicted.last() as nat))
    }
}

pub open spec fn sibling_note(evicted: Seq<u32>, core: u32) -> Seq<char> {
    if evicted.len() > 1 {
        " (+SMT sibling "@ + join_texts(sibling_texts(evicted, core), ","@) + ")"@
    } else {
        ""@
    }
}

/// The line that tells what was isolated.
pub open spec fn isolation_note(plan: IsolationPlan, irqs: nat) -> Seq<char> {
    let head = "isolated core "@ + decimal(plan.core as nat) + sibling_note(
        plan.evicted@,
        plan.core,
    );
    let tail = ", steered "@ + decimal(irqs) + " IRQs (restored on exit)"@;
    if plan.boot {
        head + ": core is boot-isolated (isolcpus)"@ + tail
    } else {
        head + ": evicted user.slice/system.slice/init.scope to cores "@ + plan.list() + tail
    }
}

/// The CPUs that `user.slice` had, empty where they are not known.
pub open spec fn canary_text(list: Seq<(&'static str, String)>) -> Seq<char>
    decreases list.len(),
{
    if list.len() == 0 {
        seq![]
    } else if list[0].0@ == "user.slice"@ {
        list[0].1@
    } else {
        canary_text(list.skip(1))
    }
}

/// The action is to run the script, behind opening the scope where there is one.
pub open spec fn enters(plan: IsolationPlan, next: Option<IsolationRun>, action: IsolationAction) -> bool {
    if plan.boot {
        &&& next matches Some(n) && n.phase is Script
        &&& action matches IsolationAction::RunScript(script) && script@ == plan.script()
    } else {
        &&& next matches Some(n) && n.phase is Scope
        &&& action matches IsolationAction::OpenScope(unit) && unit@ == scope_text(plan.pid)
    }
}

/// The isolation is given up for the reason given.
pub open spec fn gives_up(
    reason: Seq<char>,
    next: Option<IsolationRun>,
    action: IsolationAction,
) -> bool {
    warns_and_gives_up(seq![], reason, next, action)
}

/// The isolation is given up for the reason given, behind warnings.
pub open spec fn warns_and_gives_up(
    warnings: Seq<Seq<char>>,
    reason: Seq<char>,
    next: Option<IsolationRun>,
    action: IsolationAction,
) -> bool {
    &&& next is None
    &&& action matches IsolationAction::Finish { lines, helper, outcome }
    &&& texts(lines@) == warnings
    &&& helper is None
    &&& outcome matches IsolateOutcome::Skipped(text)
    &&& text@ == reason
}

/// What was changed is restored, and then the isolation is given up.
pub open spec fn undoes(
    snapshot: Snapshot,
    reason: Seq<char>,
    next: Option<IsolationRun>,
    action: IsolationAction,
) -> bool {
    &&& next matches Some(n) && n.phase matches Phase::Undo(text) && text@ == reason
    &&& action matches IsolationAction::Restore(script) && script@ == restore_text(snapshot, false)
}

/// The core is isolated: the lines tell so, the helper waits to restore, and the
/// guard can do it without the helper.
pub open spec fn settles(
    run: IsolationRun,
    warnings: Seq<Seq<char>>,
    next: Option<IsolationRun>,
    action: IsolationAction,
) -> bool {
    &&& next is None
    &&& action matches IsolationAction::Finish { lines, helper, outcome }
    &&& texts(lines@) == warnings.push(
        isolation_note(run.plan, run.snapshot.irq_prev@.len()),
    )
    &&& option_string(helper) == Some(restore_text(run.snapshot, true))
    &&& outcome matches IsolateOutcome::Isolated { guard, boot }
    &&& boot == run.plan.boot
    &&& guard.restore@ == restore_text(run.snapshot, false)
    &&& guard.canary_prev@ == canary_text(run.snapshot.slice_prev@)
}

/// The snapshot is taken out of what was shown and the machine, and sudo is seen
/// to next.
pub open spec fn takes_snapshot(next: Option<IsolationRun>, action: IsolationAction) -> bool {
    &&& next matches Some(n)
    &&& n.phase is Start
    &&& slice_entries(n.snapshot.slice_prev@) == kept_slices(n.shown@, n.machine.online@)
    &&& irq_entries(n.snapshot.irq_prev@) == kept_irqs(n.machine.irqs@)
    &&& option_string(n.snapshot.default_prev) == kept_default(
        option_string(n.machine.default),
    )
    &&& action matches IsolationAction::CheckSudo(lines)
    &&& texts(lines@) == slice_warnings(n.shown@, n.machine.online@) + irq_warnings(
        n.machine.irqs@,
    ) + default_warnings(option_string(n.machine.default))
}

/// The next unit is asked about.
pub open spec fn asks_about(
    unit: Seq<char>,
    next: Option<IsolationRun>,
    action: IsolationAction,
) -> bool {
    &&& next is Some
    &&& action matches IsolationAction::Show(name) && name@ == unit
}

/// What was shown of a unit is kept, unless it could not be shown: then the
/// isolation is given up, behind the warnings on what was shown before.
pub open spec fn keeps_shown(
    run: IsolationRun,
    unit: Seq<char>,
    reply: Reply,
    next: Option<IsolationRun>,
    action: IsolationAction,
) -> bool {
    let warnings = slice_warnings(run.shown@, run.machine.online@);
    if !reply.started {
        warns_and_gives_up(warnings, "failed to run systemctl show"@, next, action)
    } else if !reply.ok {
        warns_and_gives_up(warnings, "systemctl show failed for "@ + unit, next, action)
    } else {
        next matches Some(n) && slice_entries(n.shown@) == slice_entries(run.shown@).push(
            (unit, reply.text@),
        )
    }
}

/// A program has to answer, else the isolation is given up.
pub open spec fn needs_program(
    program: Seq<char>,
    reply: Reply,
    next: Option<IsolationRun>,
    action: IsolationAction,
) -> bool {
    if reply.started && reply.ok {
        next matches Some(n)
    } else {
        gives_up(program + " is unavailable"@, next, action)
    }
}

/// Whether a phase comes before the snapshot is taken: nothing was changed, and
/// sudo was not asked for.
pub open spec fn prepares(phase: Phase) -> bool {
    phase is Controllers || phase is ProbeSystemctl || phase is ProbeRun || phase is ShowUser
        || phase is ShowSystem || phase is ShowInit
}

/// The first thing to do: find out what the machine offers, unless the core was
/// isolated at boot.
pub open spec fn isolation_start(
    plan: IsolationPlan,
    machine: Machine,
    next: Option<IsolationRun>,
    action: IsolationAction,
) -> bool {
    &&& next matches Some(n)
    &&& n.plan == plan
    &&& n.machine == machine
    &&& n.shown@.len() == 0
    &&& if plan.boot {
        takes_snapshot(next, action)
    } else {
        n.phase is Controllers && action is ReadControllers
    }
}

/// One step: what follows on a reply.
pub open spec fn isolation_step(
    run: IsolationRun,
    reply: Reply,
    next: Option<IsolationRun>,
    action: IsolationAction,
) -> bool {
    &&& next matches Some(n) ==> n.plan == run.plan && n.machine == run.machine
    &&& !prepares(run.phase) ==> (next matches Some(n) ==> n.snapshot == run.snapshot && n.shown
        == run.shown)
    &&& match run.phase {
        Phase::Controllers => if reply.ok && offers_cpuset(reply.text@) {
            &&& next matches Some(n) && n.phase is ProbeSystemctl && n.shown == run.shown
            &&& action matches IsolationAction::Probe(program) && program@ == "systemctl"@
        } else {
            gives_up("cgroup v2 cpuset controller is unavailable"@, next, action)
        },
        Phase::ProbeSystemctl => {
            &&& needs_program("systemctl"@, reply, next, action)
            &&& next matches Some(n) ==> {
                &&& n.phase is ProbeRun && n.shown == run.shown
                &&& action matches IsolationAction::Probe(program) && program@ == "systemd-run"@
            }
        },
        Phase::ProbeRun => {
            &&& needs_program("systemd-run"@, reply, next, action)
            &&& next matches Some(n) ==> {
                &&& n.phase is ShowUser && n.shown == run.shown
                &&& asks_about("user.slice"@, next, action)
            }
        },
        Phase::ShowUser => {
            &&& keeps_shown(run, "user.slice"@, reply, next, action)
            &&& next matches Some(n) ==> n.phase is ShowSystem && asks_about(
                "system.slice"@,
                next,
                action,
            )
        },
        Phase::ShowSystem => {
            &&& keeps_shown(run, "system.slice"@, reply, next, action)
            &&& next matches Some(n) ==> n.phase is ShowInit && asks_about(
                "init.scope"@,
                next,
                action,
            )
        },
        Phase::ShowInit => {
            &&& keeps_shown(run, "init.scope"@, reply, next, action)
            &&& next is Some ==> takes_snapshot(next, action)
        },
        Phase::Start => if reply.ok {
            enters(run.plan, next, action)
        } else {
            &&& next matches Some(n) && n.phase is Authorize
            &&& action matches IsolationAction::Authorize(line) && line@
                == "requesting sudo to isolate core "@ + decimal(run.plan.core as nat)
                + " (restored on exit)"@
        },
        Phase::Authorize => if !reply.started {
            gives_up("failed to run sudo"@, next, action)
        } else if !reply.ok {
            gives_up("sudo authorization failed"@, next, action)
        } else {
            enters(run.plan, next, action)
        },
        Phase::Scope => if !reply.started {
            gives_up("failed to run sudo systemd-run"@, next, action)
        } else if reply.ok {
            &&& next matches Some(n) && n.phase is Script
            &&& action matches IsolationAction::RunScript(script) && script@ == run.plan.script()
        } else if reply.text@.len() > 0 {
            gives_up(reply.text@, next, action)
        } else {
            gives_up(
                "escape scope "@ + scope_text(run.plan.pid) + " did not appear"@,
                next,
                action,
            )
        },
        Phase::Script => if !reply.started {
            gives_up("failed to run sudo isolation script"@, next, action)
        } else if !reply.ok {
            undoes(run.snapshot, "sudo isolation script failed"@, next, action)
        } else if run.plan.boot {
            settles(run, seq![], next, action)
        } else {
            &&& next matches Some(n) && n.phase is Migrate
            &&& action is ReadCgroup
        },
        Phase::Undo(reason) => gives_up(reason@, next, action),
        Phase::Migrate => if reply.ok && occurs_in(reply.text@, scope_text(run.plan.pid)) {
            &&& next matches Some(n) && n.phase is Move
            &&& action matches IsolationAction::MoveProcess(list) && list@ == run.plan.list()
        } else {
            undoes(
                run.snapshot,
                "failed to migrate process into "@ + scope_text(run.plan.pid),
                next,
                action,
            )
        },
        Phase::Move => settles(
            run,
            if reply.ok {
                seq![]
            } else {
                seq!["warning: failed to move this process to housekeeping cores"@]
            },
            next,
            action,
        ),
    }
}

fn siblings_text(evicted: &[u32], core: u32) -> (r: String)
    ensures
        r@ == sibling_note(evicted@, core),
{
    if evicted.len() <= 1 {
        return "".to_owned();
    }
    let mut list: Vec<String> = Vec::new();
    let n: usize = evicted.len();
    let mut i: usize = 0;
    assert(texts(list@) =~= sibling_texts(evicted@.take(0), core));
    while i < n
        invariant
            n == evicted@.len(),
            i <= n,
            texts(list@) == sibling_texts(evicted@.take(i as int), core),
        decreases n - i,
    {
        broadcast use lemma_texts_push;

        assert(evicted@.take(i + 1).drop_last() =~= evicted@.take(i as int));
        if evicted[i] != core {
            list.push(decimal_string(evicted[i] as u64));
        }
        i = i + 1;
    }
    assert(evicted@.take(n as int) =~= evicted@);
    cat3(" (+SMT sibling ", &join(&list, ","), ")")
}

fn note(plan: &IsolationPlan, irqs: usize) -> (r: String)
    ensures
        r@ == isolation_note(*plan, irqs as nat),
{
    let head: String = cat3(
        "isolated core ",
        &decimal_string(plan.core as u64),
        &siblings_text(&plan.evicted, plan.core),
    );
    let tail: String = cat3(", steered ", &decimal_string(irqs as u64), " IRQs (restored on exit)");
    if plan.boot {
        cat3(&head, ": core is boot-isolated (isolcpus)", &tail)
    } else {
        cat4(
            &head,
            ": evicted user.slice/system.slice/init.scope to cores ",
            &format_cpu_list(&plan.housekeeping),
            &tail,
        )
    }
}

fn canary(list: &[(&'static str, String)]) -> (r: String)
    ensures
        r@ == canary_text(list@),
{
    let n: usize = list.len();
    let mut i: usize = 0;
    assert(list@.skip(0) =~= list@);
    while i < n
        invariant
            n == list@.len(),
            i <= n,
            canary_text(list@) == canary_text(list@.skip(i as int)),
        decreases n - i,
    {
        assert(list@.skip(i as int)[0] == list@[i as int]);
        assert(list@.skip(i as int).skip(1) =~= list@.skip(i + 1));
        if same_text(list[i].0, "user.slice") {
            return list[i].1.clone();
        }
        i = i + 1;
    }
    String::new()
}

fn give_up(reason: String) -> (r: (Option<IsolationRun>, IsolationAction))
    ensures
        gives_up(reason@, r.0, r.1),
{
    let none: Vec<String> = Vec::new();
    assert(texts(none@) =~= seq![]);
    warn_and_give_up(none, reason)
}

fn warn_and_give_up(lines: Vec<String>, reason: String) -> (r: (
    Option<IsolationRun>,
    IsolationAction,
))
    ensures
        warns_and_gives_up(texts(lines@), reason@, r.0, r.1),
{
    (
        None,
        IsolationAction::Finish {
            lines,
            helper: None,
            outcome: IsolateOutcome::Skipped(reason),
        },
    )
}

fn enter(run: IsolationRun) -> (r: (Option<IsolationRun>, IsolationAction))
    ensures
        enters(run.plan, r.0, r.1),
        r.0 matches Some(n) ==> n.plan == run.plan && n.machine == run.machine && n.snapshot
            == run.snapshot && n.shown == run.shown,
{
    if run.plan.boot {
        let script: String = run.plan.apply();
        (Some(IsolationRun { phase: Phase::Script, ..run }), IsolationAction::RunScript(script))
    } else {
        let unit: String = run.plan.scope_unit();
        (Some(IsolationRun { phase: Phase::Scope, ..run }), IsolationAction::OpenScope(unit))
    }
}

fn undo(run: IsolationRun, reason: String) -> (r: (Option<IsolationRun>, IsolationAction))
    ensures
        undoes(run.snapshot, reason@, r.0, r.1),
        r.0 matches Some(n) ==> n.plan == run.plan && n.machine == run.machine && n.snapshot
            == run.snapshot && n.shown == run.shown,
{
    let script: String = restore_script(&run.snapshot, false);
    (Some(IsolationRun { phase: Phase::Undo(reason), ..run }), IsolationAction::Restore(script))
}

fn settle(run: IsolationRun, warnings: Vec<String>) -> (r: (
    Option<IsolationRun>,
    IsolationAction,
))
    ensures
        settles(run, texts(warnings@), r.0, r.1),
{
    broadcast use lemma_texts_push;

    let mut lines: Vec<String> = warnings;
    lines.push(note(&run.plan, run.snapshot.irq_prev.len()));
    let guard: IsolationGuard = IsolationGuard {
        restore: restore_script(&run.snapshot, false),
        canary_prev: canary(&run.snapshot.slice_prev),
    };
    (
        None,
        IsolationAction::Finish {
            lines,
            helper: Some(restore_script(&run.snapshot, true)),
            outcome: IsolateOutcome::Isolated { guard, boot: run.plan.boot },
        },
    )
}

/// Takes the snapshot of a run.
fn take(run: IsolationRun) -> (r: (Option<IsolationRun>, IsolationAction))
    ensures
        takes_snapshot(r.0, r.1),
        r.0 matches Some(n) && n.plan == run.plan && n.machine == run.machine && n.shown
            == run.shown,
{
    let default: Option<&str> = match &run.machine.default {
        Some(s) => Some(s.as_str()),
        None => None,
    };
    assert(option_text(default) == option_string(run.machine.default));
    let (taken, lines): (Snapshot, Vec<String>) = snapshot(
        &run.machine.online,
        &run.shown,
        &run.machine.irqs,
        default,
    );
    (
        Some(IsolationRun { phase: Phase::Start, snapshot: taken, ..run }),
        IsolationAction::CheckSudo(lines),
    )
}

/// Keeps what was shown of a unit, or says why it could not be shown, behind the
/// warnings on what was shown before.
fn keep_shown(run: IsolationRun, unit: &'static str, reply: Reply) -> (r: Result<
    IsolationRun,
    (Vec<String>, String),
>)
    ensures
        match r {
            Ok(n) => {
                &&& reply.started && reply.ok
                &&& n.plan == run.plan && n.machine == run.machine
                &&& slice_entries(n.shown@) == slice_entries(run.shown@).push(
                    (unit@, reply.text@),
                )
            },
            Err((lines, e)) => {
                &&& !(reply.started && reply.ok)
                &&& texts(lines@) == slice_warnings(run.shown@, run.machine.online@)
                &&& e@ == (if !reply.started {
                    "failed to run systemctl show"@
                } else {
                    "systemctl show failed for "@ + unit@
                })
            },
        },
{
    if let Some(e) = show_error(unit, reply.started, reply.ok) {
        let irqs: Vec<(String, String)> = Vec::new();
        let (_, lines): (Snapshot, Vec<String>) = snapshot(
            &run.machine.online,
            &run.shown,
            &irqs,
            None,
        );
        assert(texts(lines@) =~= slice_warnings(run.shown@, run.machine.online@));
        return Err((lines, e));
    }
    let ghost before = run.shown@;
    let mut run: IsolationRun = run;
    run.shown.push((unit, reply.text));
    assert(slice_entries(run.shown@) =~= slice_entries(before).push((unit@, reply.text@)));
    Ok(run)
}

/// Begins to isolate a core: the first thing to do, and the run that the reply to
/// it goes to.
pub fn isolate_first(plan: IsolationPlan, machine: Machine) -> (r: (
    Option<IsolationRun>,
    IsolationAction,
))
    ensures
        isolation_start(plan, machine, r.0, r.1),
{
    let boot: bool = plan.boot;
    let run: IsolationRun = IsolationRun {
        plan,
        machine,
        shown: Vec::new(),
        snapshot: Snapshot { slice_prev: Vec::new(), irq_prev: Vec::new(), default_prev: None },
        phase: Phase::Controllers,
    };
    if boot {
        take(run)
    } else {
        (Some(run), IsolationAction::ReadControllers)
    }
}

/// One step of the isolation: what to do next, and the run that the reply to it
/// goes to, unless the action is the last.
pub fn isolate_inner(run: IsolationRun, reply: Reply) -> (r: (
    Option<IsolationRun>,
    IsolationAction,
))
    ensures
        isolation_step(run, reply, r.0, r.1),
{
    match &run.phase {
        Phase::Controllers => {
            if reply.ok && has_cpuset(&reply.text) {
                (
                    Some(IsolationRun { phase: Phase::ProbeSystemctl, ..run }),
                    IsolationAction::Probe("systemctl"),
                )
            } else {
                give_up("cgroup v2 cpuset controller is unavailable".to_owned())
            }
        },
        Phase::ProbeSystemctl => match probe_command("systemctl", reply.started, reply.ok) {
            Ok(_) => (
                Some(IsolationRun { phase: Phase::ProbeRun, ..run }),
                IsolationAction::Probe("systemd-run"),
            ),
            Err(e) => give_up(e),
        },
        Phase::ProbeRun => match probe_command("systemd-run", reply.started, reply.ok) {
            Ok(_) => (
                Some(IsolationRun { phase: Phase::ShowUser, ..run }),
                IsolationAction::Show("user.slice"),
            ),
            Err(e) => give_up(e),
        },
        Phase::ShowUser => match keep_shown(run, "user.slice", reply) {
            Ok(run) => (
                Some(IsolationRun { phase: Phase::ShowSystem, ..run }),
                IsolationAction::Show("system.slice"),
            ),
            Err((lines, e)) => warn_and_give_up(lines, e),
        },
        Phase::ShowSystem => match keep_shown(run, "system.slice", reply) {
            Ok(run) => (
                Some(IsolationRun { phase: Phase::ShowInit, ..run }),
                IsolationAction::Show("init.scope"),
            ),
            Err((lines, e)) => warn_and_give_up(lines, e),
        },
        Phase::ShowInit => match keep_shown(run, "init.scope", reply) {
            Ok(run) => take(run),
            Err((lines, e)) => warn_and_give_up(lines, e),
        },
        Phase::Start => {
            if reply.ok {
                enter(run)
            } else {
                let line: String = cat3(
                    "requesting sudo to isolate core ",
                    &decimal_string(run.plan.core as u64),
                    " (restored on exit)",
                );
                (
                    Some(IsolationRun { phase: Phase::Authorize, ..run }),
                    IsolationAction::Authorize(line),
                )
            }
        },
        Phase::Authorize => {
            if !reply.started {
                give_up("failed to run sudo".to_owned())
            } else if !reply.ok {
                give_up("sudo authorization failed".to_owned())
            } else {
                enter(run)
            }
        },
        Phase::Scope => {
            if !reply.started {
                give_up("failed to run sudo systemd-run".to_owned())
            } else if reply.ok {
                let script: String = run.plan.apply();
                (
                    Some(IsolationRun { phase: Phase::Script, ..run }),
                    IsolationAction::RunScript(script),
                )
            } else if !reply.text.as_str().is_empty() {
                give_up(reply.text)
            } else {
                give_up(cat3("escape scope ", &run.plan.scope_unit(), " did not appear"))
            }
        },
        Phase::Script => {
            if !reply.started {
                give_up("failed to run sudo isolation script".to_owned())
            } else if !reply.ok {
                undo(run, "sudo isolation script failed".to_owned())
            } else if run.plan.boot {
                let none: Vec<String> = Vec::new();
                assert(texts(none@) =~= seq![]);
                settle(run, none)
            } else {
                (Some(IsolationRun { phase: Phase::Migrate, ..run }), IsolationAction::ReadCgroup)
            }
        },
        Phase::Undo(reason) => give_up(reason.clone()),
        Phase::Migrate => {
            let unit: String = run.plan.scope_unit();
            if reply.ok && contains_text(&reply.text, &unit) {
                let list: String = format_cpu_list(&run.plan.housekeeping);
                (
                    Some(IsolationRun { phase: Phase::Move, ..run }),
                    IsolationAction::MoveProcess(list),
                )
            } else {
                let reason: String = cat2("failed to migrate process into ", &unit);
                undo(run, reason)
            }
        },
        Phase::Move => {
            let mut warnings: Vec<String> = Vec::new();
            if !reply.ok {
                warnings.push(
                    "warning: failed to move this process to housekeeping cores".to_owned(),
                );
            }
            assert(texts(warnings@) =~= (if reply.ok {
                seq![]
            } else {
                seq!["warning: failed to move this process to housekeeping cores"@]
            }));
            settle(run, warnings)
        },
    }
}

/// How many steps a phase is from the end at most.
pub open spec fn phase_rank(phase: Phase) -> nat {
    match phase {
        Phase::Controllers => 12,
        Phase::ProbeSystemctl => 11,
        Phase::ProbeRun => 10,
        Phase::ShowUser => 9,
        Phase::ShowSystem => 8,
        Phase::ShowInit => 7,
        Phase::Start => 6,
        Phase::Authorize => 5,
        Phase::Scope => 4,
        Phase::Script => 3,
        Phase::Migrate => 2,
        Phase::Move => 1,
        Phase::Undo(_) => 0,
    }
}

/// Every step brings the end closer, so that no run goes on for ever; and once
/// the script has been started, the isolation is not given up before what was
/// changed has been restored.
pub proof fn law_isolation_ends_restored(
    run: IsolationRun,
    reply: Reply,
    next: Option<IsolationRun>,
    action: IsolationAction,
)
    requires
        isolation_step(run, reply, next, action),
    ensures
        next matches Some(n) ==> phase_rank(n.phase) < phase_rank(run.phase),
        next is None <==> action is Finish,
        (action matches IsolationAction::Finish { outcome, .. } && outcome is Skipped && (
        run.phase is Script ==> reply.started)) ==> !(run.phase is Script || run.phase is Migrate
            || run.phase is Move),
        (run.phase is Script && reply.started && !reply.ok) ==> action is Restore,
        (run.phase is Migrate && !(action is MoveProcess)) ==> action is Restore,
{
}

/// Whether an action changes the machine or asks the user for a password.
pub open spec fn acts(action: IsolationAction) -> bool {
    action is Authorize || action is OpenScope || action is RunScript || action is Restore
        || action is MoveProcess
}

/// The names of the units that were shown.
pub open spec fn shown_units(run: IsolationRun) -> Seq<Seq<char>> {
    Seq::new(run.shown@.len(), |i: int| slice_entries(run.shown@)[i].0)
}

/// A run has shown the units that its phase comes behind, and once it prepares
/// nothing more its snapshot holds what they and the machine said.
pub open spec fn well_prepared(run: IsolationRun) -> bool {
    let units = shown_units(run);
    match run.phase {
        Phase::Controllers | Phase::ProbeSystemctl | Phase::ProbeRun | Phase::ShowUser => {
            !run.plan.boot && units.len() == 0
        },
        Phase::ShowSystem => !run.plan.boot && units == seq!["user.slice"@],
        Phase::ShowInit => !run.plan.boot && units == seq!["user.slice"@, "system.slice"@],
        _ => {
            &&& units == (if run.plan.boot {
                seq![]
            } else {
                seq!["user.slice"@, "system.slice"@, "init.scope"@]
            })
            &&& slice_entries(run.snapshot.slice_prev@) == kept_slices(
                run.shown@,
                run.machine.online@,
            )
            &&& irq_entries(run.snapshot.irq_prev@) == kept_irqs(run.machine.irqs@)
            &&& option_string(run.snapshot.default_prev) == kept_default(
                option_string(run.machine.default),
            )
        },
    }
}

/// A run starts well prepared, and with nothing that acts.
pub proof fn law_isolation_starts_prepared(
    plan: IsolationPlan,
    machine: Machine,
    next: Option<IsolationRun>,
    action: IsolationAction,
)
    requires
        isolation_start(plan, machine, next, action),
    ensures
        next matches Some(n) && well_prepared(n),
        !acts(action),
{
    let n = next->0;
    assert(shown_units(n) =~= seq![]);
}

/// Nothing acts before everything was found out: while a run prepares, the cgroup
/// has to offer what is needed, both programs have to answer and all three units
/// have to be shown, one after the other; where one of these fails, the isolation
/// is skipped, and nothing was changed. Behind that the snapshot holds all that
/// was shown.
pub proof fn law_isolation_prepares_first(
    run: IsolationRun,
    reply: Reply,
    next: Option<IsolationRun>,
    action: IsolationAction,
)
    requires
        well_prepared(run),
        isolation_step(run, reply, next, action),
    ensures
        acts(action) ==> !prepares(run.phase),
        next matches Some(n) ==> well_prepared(n),
        prepares(run.phase) && next is None ==> (action matches IsolationAction::Finish {
            outcome,
            ..
        } && outcome is Skipped),
        prepares(run.phase) ==> (next is Some <==> reply.ok && (if run.phase is Controllers {
            offers_cpuset(reply.text@)
        } else {
            reply.started
        })),
{
    if let Some(n) = next {
        if run.phase is ShowUser {
            lemma_shown_units(run, n, "user.slice"@, reply.text@);
            assert(shown_units(n) =~= seq!["user.slice"@]);
        } else if run.phase is ShowSystem {
            lemma_shown_units(run, n, "system.slice"@, reply.text@);
            assert(shown_units(n) =~= seq!["user.slice"@, "system.slice"@]);
        } else if run.phase is ShowInit {
            lemma_shown_units(run, n, "init.scope"@, reply.text@);
            assert(shown_units(n) =~= seq!["user.slice"@, "system.slice"@, "init.scope"@]);
        }
    }
}

proof fn lemma_shown_units(run: IsolationRun, n: IsolationRun, unit: Seq<char>, text: Seq<char>)
    requires
        slice_entries(n.shown@) == slice_entries(run.shown@).push((unit, text)),
    ensures
        shown_units(n) == shown_units(run).push(unit),
{
    assert(slice_entries(n.shown@).len() == n.shown@.len());
    assert(slice_entries(run.shown@).len() == run.shown@.len());
    assert(shown_units(n) =~= shown_units(run).push(unit));
}

/// What is left to everything else are the online cores without the cleared ones, in
/// their order. Where nothing is left, the smallest cleared core is named.
pub proof fn law_cleared_cores_are_left_out(online: Seq<u32>, evicted: Seq<u32>, core: u32)
    ensures
        remaining_cores(online, evicted) == online.filter(|c: u32| !evicted.contains(c)),
        evicted.contains(core) && (forall|c: u32| evicted.contains(c) ==> core <= c)
            ==> no_housekeeping_text(evicted) == "isolating core "@ + decimal(core as nat)
            + " would leave no housekeeping CPUs"@,
    decreases online.len(),
{
    reveal(Seq::filter);
    if online.len() > 0 {
        law_cleared_cores_are_left_out(online.drop_last(), evicted, core);
    } else {
        assert(remaining_cores(online, evicted) =~= online);
    }
    if evicted.contains(core) && forall|c: u32| evicted.contains(c) ==> core <= c {
        let set = core_set(evicted);
        law_core_set(evicted);
        assert(set.contains(core));
        let k = choose|k: int| 0 <= k < set.len() && set[k] == core;
        assert(set.contains(set[0]));
        assert(evicted.contains(set[0]));
    }
}

/// The script stops at the first line that fails. Where there is a scope it moves this
/// process there and the three units to the cores given; then it steers the default
/// affinity and that of every IRQ to them.
pub proof fn law_apply_script_says(
    scope: Seq<char>,
    cores: Seq<char>,
    mask: Seq<char>,
    pid: u32,
)
    ensures
        apply_text(Some(scope), cores, mask, pid) == join_texts(
            seq![
                "set -e"@,
                "echo "@ + decimal(pid as nat) + " > /sys/fs/cgroup/bcmp.slice/"@ + scope
                    + "/cgroup.procs"@,
                "systemctl set-property --runtime user.slice AllowedCPUs="@ + cores,
                "systemctl set-property --runtime system.slice AllowedCPUs="@ + cores,
                "systemctl set-property --runtime init.scope AllowedCPUs="@ + cores,
                "echo "@ + mask + " > /proc/irq/default_smp_affinity"@,
                "for f in /proc/irq/*/smp_affinity_list; do echo "@ + cores
                    + " > \"$f\" 2>/dev/null || true; done"@,
            ],
            "\n"@,
        ),
        apply_text(None, cores, mask, pid) == join_texts(
            seq![
                "set -e"@,
                "echo "@ + mask + " > /proc/irq/default_smp_affinity"@,
                "for f in /proc/irq/*/smp_affinity_list; do echo "@ + cores
                    + " > \"$f\" 2>/dev/null || true; done"@,
            ],
            "\n"@,
        ),
{
    reveal_strlit("systemctl set-property --runtime ");
    reveal_strlit("systemctl set-property --runtime user.slice AllowedCPUs=");
    reveal_strlit("systemctl set-property --runtime system.slice AllowedCPUs=");
    reveal_strlit("systemctl set-property --runtime init.scope AllowedCPUs=");
    reveal_strlit("user.slice");
    reveal_strlit("system.slice");
    reveal_strlit("init.scope");
    reveal_strlit(" AllowedCPUs=");
    assert(set_property_text("user.slice"@, cores)
        =~= "systemctl set-property --runtime user.slice AllowedCPUs="@ + cores);
    assert(set_property_text("system.slice"@, cores)
        =~= "systemctl set-property --runtime system.slice AllowedCPUs="@ + cores);
    assert(set_property_text("init.scope"@, cores)
        =~= "systemctl set-property --runtime init.scope AllowedCPUs="@ + cores);
    let with = apply_lines(Some(scope), cores, mask, pid);
    assert(with =~= seq![
        "set -e"@,
        "echo "@ + decimal(pid as nat) + " > /sys/fs/cgroup/bcmp.slice/"@ + scope
            + "/cgroup.procs"@,
        "systemctl set-property --runtime user.slice AllowedCPUs="@ + cores,
        "systemctl set-property --runtime system.slice AllowedCPUs="@ + cores,
        "systemctl set-property --runtime init.scope AllowedCPUs="@ + cores,
        "echo "@ + mask + " > /proc/irq/default_smp_affinity"@,
        "for f in /proc/irq/*/smp_affinity_list; do echo "@ + cores
            + " > \"$f\" 2>/dev/null || true; done"@,
    ]);
    let without = apply_lines(None, cores, mask, pid);
    assert(without =~= seq![
        "set -e"@,
        "echo "@ + mask + " > /proc/irq/default_smp_affinity"@,
        "for f in /proc/irq/*/smp_affinity_list; do echo "@ + cores
            + " > \"$f\" 2>/dev/null || true; done"@,
    ]);
}

proof fn lemma_slice_lines(list: Seq<(&'static str, String)>)
    ensures
        slice_lines(list) == list.filter_map(
            |e: (&'static str, String)|
                if all_mask_chars(e.1@) {
                    Some(
                        "systemctl set-property --runtime "@ + e.0@ + " AllowedCPUs="@ + e.1@
                            + " || true"@,
                    )
                } else {
                    None
                },
        ),
    decreases list.len(),
{
    let line = |e: (&'static str, String)|
        if all_mask_chars(e.1@) {
            Some("systemctl set-property --runtime "@ + e.0@ + " AllowedCPUs="@ + e.1@ + " || true"@)
        } else {
            None
        };
    if list.len() > 0 {
        lemma_slice_lines(list.drop_last());
        assert(slice_lines(list) =~= list.filter_map(line));
    } else {
        assert(slice_lines(list) =~= list.filter_map(line));
    }
}

proof fn lemma_irq_lines(list: Seq<(u32, String)>)
    ensures
        irq_lines(list) == list.filter_map(
            |e: (u32, String)|
                if all_mask_chars(e.1@) {
                    Some(
                        "echo "@ + e.1@ + " > /proc/irq/"@ + decimal(e.0 as nat)
                            + "/smp_affinity_list 2>/dev/null || true"@,
                    )
                } else {
                    None
                },
        ),
    decreases list.len(),
{
    let line = |e: (u32, String)|
        if all_mask_chars(e.1@) {
            Some(
                "echo "@ + e.1@ + " > /proc/irq/"@ + decimal(e.0 as nat)
                    + "/smp_affinity_list 2>/dev/null || true"@,
            )
        } else {
            None
        };
    if list.len() > 0 {
        lemma_irq_lines(list.drop_last());
        assert(irq_lines(list) =~= list.filter_map(line));
    } else {
        assert(irq_lines(list) =~= list.filter_map(line));
    }
}

/// The script that restores gives every unit of a snapshot its CPUs back, then the
/// default affinity, then every IRQ its own, each with the value that was in force, in
/// their order; a value that holds anything but digits, `a` to `f`, commas and dashes
/// is left out. It goes on where one of them fails. The one that waits first cannot be
/// stopped by a signal.
pub proof fn law_restore_script_says(snapshot: Snapshot)
    ensures
        ({
            let safe = |s: Seq<char>|
                forall|i: int|
                    0 <= i < s.len() ==> ('0' <= (#[trigger] s[i]) && s[i] <= '9') || ('a' <= s[i]
                        && s[i] <= 'f') || s[i] == ',' || s[i] == '-';
            let units = snapshot.slice_prev@.filter_map(
                |e: (&'static str, String)|
                    if safe(e.1@) {
                        Some(
                            "systemctl set-property --runtime "@ + e.0@ + " AllowedCPUs="@ + e.1@
                                + " || true"@,
                        )
                    } else {
                        None
                    },
            );
            let default = match snapshot.default_prev {
                Some(value) => if safe(value@) {
                    seq!["echo "@ + value@ + " > /proc/irq/default_smp_affinity || true"@]
                } else {
                    seq![]
                },
                None => seq![],
            };
            let irqs = snapshot.irq_prev@.filter_map(
                |e: (u32, String)|
                    if safe(e.1@) {
                        Some(
                            "echo "@ + e.1@ + " > /proc/irq/"@ + decimal(e.0 as nat)
                                + "/smp_affinity_list 2>/dev/null || true"@,
                        )
                    } else {
                        None
                    },
            );
            let body = join_texts(units + default + irqs, "; "@);
            &&& restore_text(snapshot, false) == body
            &&& restore_text(snapshot, true) == "trap '' INT TERM HUP; cat >/dev/null; "@ + body
        }),
{
    let safe = |s: Seq<char>|
        forall|i: int|
            0 <= i < s.len() ==> ('0' <= (#[trigger] s[i]) && s[i] <= '9') || ('a' <= s[i] && s[i]
                <= 'f') || s[i] == ',' || s[i] == '-';
    assert forall|s: Seq<char>| safe(s) == #[trigger] all_mask_chars(s) by {
        if all_mask_chars(s) {
            assert forall|i: int| 0 <= i < s.len() implies ('0' <= (#[trigger] s[i]) && s[i] <= '9')
                || ('a' <= s[i] && s[i] <= 'f') || s[i] == ',' || s[i] == '-' by {
                assert(is_mask_char(s[i]));
            }
        }
    }
    lemma_slice_lines(snapshot.slice_prev@);
    lemma_irq_lines(snapshot.irq_prev@);
    let unit_line = |e: (&'static str, String)|
        if safe(e.1@) {
            Some("systemctl set-property --runtime "@ + e.0@ + " AllowedCPUs="@ + e.1@ + " || true"@)
        } else {
            None
        };
    let irq_line = |e: (u32, String)|
        if safe(e.1@) {
            Some(
                "echo "@ + e.1@ + " > /proc/irq/"@ + decimal(e.0 as nat)
                    + "/smp_affinity_list 2>/dev/null || true"@,
            )
        } else {
            None
        };
    assert(unit_line =~= |e: (&'static str, String)|
        if all_mask_chars(e.1@) {
            Some("systemctl set-property --runtime "@ + e.0@ + " AllowedCPUs="@ + e.1@ + " || true"@)
        } else {
            None
        });
    assert(irq_line =~= |e: (u32, String)|
        if all_mask_chars(e.1@) {
            Some(
                "echo "@ + e.1@ + " > /proc/irq/"@ + decimal(e.0 as nat)
                    + "/smp_affinity_list 2>/dev/null || true"@,
            )
        } else {
            None
        });
}

/// Of the units those are restored whose CPUs can stand in a script, in their order,
/// with what was printed for them; nothing printed means all online cores. For each of
/// the others there is a warning.
pub proof fn law_units_are_kept(printed: Seq<(&'static str, String)>, online: Seq<u32>)
    ensures
        ({
            let value = |e: (&'static str, String)|
                if trim_text(e.1@).len() == 0 {
                    cpu_list_text(core_set(online))
                } else {
                    trim_text(e.1@)
                };
            &&& kept_slices(printed, online) == printed.filter_map(
                |e: (&'static str, String)|
                    if all_mask_chars(value(e)) {
                        Some((e.0@, value(e)))
                    } else {
                        None
                    },
            )
            &&& slice_warnings(printed, online) == printed.filter_map(
                |e: (&'static str, String)|
                    if all_mask_chars(value(e)) {
                        None
                    } else {
                        Some("warning: dropped unsafe AllowedCPUs snapshot for "@ + e.0@)
                    },
            )
        }),
    decreases printed.len(),
{
    let value = |e: (&'static str, String)|
        if trim_text(e.1@).len() == 0 {
            cpu_list_text(core_set(online))
        } else {
            trim_text(e.1@)
        };
    let kept = |e: (&'static str, String)|
        if all_mask_chars(value(e)) {
            Some((e.0@, value(e)))
        } else {
            None
        };
    let warned = |e: (&'static str, String)|
        if all_mask_chars(value(e)) {
            None
        } else {
            Some("warning: dropped unsafe AllowedCPUs snapshot for "@ + e.0@)
        };
    if printed.len() > 0 {
        law_units_are_kept(printed.drop_last(), online);
    }
    assert(kept_slices(printed, online) =~= printed.filter_map(kept));
    assert(slice_warnings(printed, online) =~= printed.filter_map(warned));
}

proof fn lemma_irq_placed(list: Seq<(u32, Seq<char>)>, entry: (u32, Seq<char>))
    requires
        forall|i: int, j: int|
            0 <= i < j < list.len() ==> (#[trigger] list[i]).0 <= (#[trigger] list[j]).0,
    ensures
        ({
            let out = irq_placed(list, entry);
            &&& out.to_multiset() == list.to_multiset().insert(entry)
            &&& forall|i: int, j: int|
                0 <= i < j < out.len() ==> (#[trigger] out[i]).0 <= (#[trigger] out[j]).0
            &&& forall|i: int|
                0 <= i < out.len() ==> (#[trigger] out[i]).0 == entry.0 || list.len() > 0 && out[i].0
                    <= list.last().0
        }),
    decreases list.len(),
{
    broadcast use vstd::seq_lib::group_to_multiset_ensures;

    let out = irq_placed(list, entry);
    if list.len() > 0 && entry.0 < list.last().0 {
        let front = list.drop_last();
        assert forall|i: int, j: int| 0 <= i < j < front.len() implies (#[trigger] front[i]).0 <= (
        #[trigger] front[j]).0 by {
            assert(front[i] == list[i] && front[j] == list[j]);
        }
        lemma_irq_placed(front, entry);
        let rest = irq_placed(front, entry);
        assert(list =~= front.push(list.last()));
        assert(front.to_multiset().insert(entry).insert(list.last())
            =~= front.to_multiset().insert(list.last()).insert(entry));
        if front.len() > 0 {
            assert(front.last() == list[front.len() - 1]);
            assert(list.last() == list[list.len() - 1]);
        }
        assert forall|i: int| 0 <= i < out.len() implies (#[trigger] out[i]).0 == entry.0 || list.len()
            > 0 && out[i].0 <= list.last().0 by {
            if i < rest.len() {
                assert(out[i] == rest[i]);
            }
        }
        assert forall|i: int, j: int| 0 <= i < j < out.len() implies (#[trigger] out[i]).0 <= (
        #[trigger] out[j]).0 by {
            if j < rest.len() {
                assert(out[i] == rest[i] && out[j] == rest[j]);
            } else {
                assert(out[i] == rest[i]);
            }
        }
    } else {
        assert forall|i: int, j: int| 0 <= i < j < out.len() implies (#[trigger] out[i]).0 <= (
        #[trigger] out[j]).0 by {
            if j < list.len() {
                assert(out[i] == list[i] && out[j] == list[j]);
            } else {
                assert(out[i] == list[i]);
                assert(list.last() == list[list.len() - 1]);
            }
        }
        assert forall|i: int| 0 <= i < out.len() implies (#[trigger] out[i]).0 == entry.0 || list.len()
            > 0 && out[i].0 <= list.last().0 by {
            if i < list.len() {
                assert(out[i] == list[i]);
                assert(list.last() == list[list.len() - 1]);
            }
        }
    }
}

/// Of the directories those with a number for a name are IRQs. Those whose affinity
/// can stand in a script are restored, by number, with the affinity that was read; for
/// each of the others there is a warning, in the order of the directories.
pub proof fn law_irqs_are_kept(dirs: Seq<(String, String)>)
    ensures
        ({
            let number = |e: (String, String)| parse_number(e.0@, u32::MAX as nat);
            &&& kept_irqs(dirs).to_multiset() == dirs.filter_map(
                |e: (String, String)|
                    if number(e) is Some && all_mask_chars(trim_text(e.1@)) {
                        Some((number(e)->0 as u32, trim_text(e.1@)))
                    } else {
                        None
                    },
            ).to_multiset()
            &&& forall|i: int, j: int|
                0 <= i < j < kept_irqs(dirs).len() ==> (#[trigger] kept_irqs(dirs)[i]).0 <= (
                #[trigger] kept_irqs(dirs)[j]).0
            &&& irq_warnings(dirs) == dirs.filter_map(
                |e: (String, String)|
                    if number(e) is Some && !all_mask_chars(trim_text(e.1@)) {
                        Some(
                            "warning: dropped unsafe IRQ affinity snapshot for IRQ "@ + decimal(
                                number(e)->0,
                            ),
                        )
                    } else {
                        None
                    },
            )
        }),
    decreases dirs.len(),
{
    broadcast use vstd::seq_lib::group_to_multiset_ensures;

    let number = |e: (String, String)| parse_number(e.0@, u32::MAX as nat);
    let kept = |e: (String, String)|
        if number(e) is Some && all_mask_chars(trim_text(e.1@)) {
            Some((number(e)->0 as u32, trim_text(e.1@)))
        } else {
            None
        };
    let warned = |e: (String, String)|
        if number(e) is Some && !all_mask_chars(trim_text(e.1@)) {
            Some("warning: dropped unsafe IRQ affinity snapshot for IRQ "@ + decimal(number(e)->0))
        } else {
            None
        };
    if dirs.len() > 0 {
        let front = dirs.drop_last();
        law_irqs_are_kept(front);
        if let Some(entry) = kept(dirs.last()) {
            lemma_irq_placed(kept_irqs(front), entry);
            assert(front.filter_map(kept) + seq![entry] =~= front.filter_map(kept).push(entry));
        }
    } else {
        assert(kept_irqs(dirs) =~= dirs.filter_map(kept));
    }
    assert(irq_warnings(dirs) =~= dirs.filter_map(warned));
}

/// The default affinity is restored as it was read, in lower case, where it can stand
/// in a script; where it was read and cannot, there is a warning.
pub proof fn law_default_affinity_is_kept(read: Seq<char>, i: int)
    ensures
        kept_default(None) is None,
        default_warnings(None).len() == 0,
        kept_default(Some(read)) is Some <==> all_mask_chars(lower_text(trim_text(read))),
        kept_default(Some(read)) matches Some(value) ==> {
            &&& value.len() == trim_text(read).len()
            &&& 0 <= i < value.len() ==> value[i] == (if 'A' <= trim_text(read)[i] && trim_text(
                read,
            )[i] <= 'F' {
                (trim_text(read)[i] as u32 + 32) as char
            } else {
                trim_text(read)[i]
            })
        },
        default_warnings(Some(read)) == (if kept_default(Some(read)) is Some {
            seq![]
        } else {
            seq!["warning: dropped unsafe default IRQ affinity snapshot"@]
        }),
{
    if all_mask_chars(lower_text(trim_text(read))) && 0 <= i < trim_text(read).len() {
        assert(is_mask_char(lower_text(trim_text(read))[i]));
    }
}

/// The CPUs that `user.slice` has to end up with are those of its first entry; they
/// are not known where there is none.
pub proof fn law_canary_is_of_the_user_slice(list: Seq<(&'static str, String)>, k: int)
    ensures
        (forall|i: int| 0 <= i < list.len() ==> (#[trigger] list[i]).0@ != "user.slice"@)
            ==> canary_text(list).len() == 0,
        0 <= k < list.len() && list[k].0@ == "user.slice"@ && (forall|i: int|
            0 <= i < k ==> (#[trigger] list[i]).0@ != "user.slice"@) ==> canary_text(list)
            == list[k].1@,
    decreases list.len(),
{
    if list.len() > 0 {
        let rest = list.skip(1);
        law_canary_is_of_the_user_slice(rest, k - 1);
        if forall|i: int| 0 <= i < list.len() ==> (#[trigger] list[i]).0@ != "user.slice"@ {
            assert(list[0].0@ != "user.slice"@);
            assert forall|i: int| 0 <= i < rest.len() implies (#[trigger] rest[i]).0@
                != "user.slice"@ by {
                assert(rest[i] == list[i + 1]);
            }
        }
        if 0 < k < list.len() && (forall|i: int|
            0 <= i < k ==> (#[trigger] list[i]).0@ != "user.slice"@) {
            assert(list[0].0@ != "user.slice"@);
            assert forall|i: int| 0 <= i < k - 1 implies (#[trigger] rest[i]).0@
                != "user.slice"@ by {
                assert(rest[i] == list[i + 1]);
            }
            assert(rest[k - 1] == list[k]);
        }
    }
}

proof fn lemma_sibling_texts(evicted: Seq<u32>, core: u32)
    ensures
        sibling_texts(evicted, core) == evicted.filter_map(
            |c: u32|
                if c != core {
                    Some(decimal(c as nat))
                } else {
                    None
                },
        ),
    decreases evicted.len(),
{
    let text = |c: u32|
        if c != core {
            Some(decimal(c as nat))
        } else {
            None
        };
    if evicted.len() > 0 {
        lemma_sibling_texts(evicted.drop_last(), core);
    }
    assert(sibling_texts(evicted, core) =~= evicted.filter_map(text));
}

/// The line on an isolated core names the core, the siblings cleared with it, what was
/// done, and how many IRQs were steered.
pub proof fn law_isolation_is_told(plan: IsolationPlan, irqs: nat)
    ensures
        ({
            let others = plan.evicted@.filter_map(
                |c: u32|
                    if c != plan.core {
                        Some(decimal(c as nat))
                    } else {
                        None
                    },
            );
            let siblings = if plan.evicted@.len() > 1 {
                " (+SMT sibling "@ + join_texts(others, ","@) + ")"@
            } else {
                seq![]
            };
            let what = if plan.boot {
                ": core is boot-isolated (isolcpus)"@
            } else {
                ": evicted user.slice/system.slice/init.scope to cores "@ + cpu_list_text(
                    core_set(plan.housekeeping@),
                )
            };
            isolation_note(plan, irqs) == "isolated core "@ + decimal(plan.core as nat) + siblings
                + what + ", steered "@ + decimal(irqs) + " IRQs (restored on exit)"@
        }),
{
    lemma_sibling_texts(plan.evicted@, plan.core);
    reveal_strlit("");
    let others = plan.evicted@.filter_map(
        |c: u32|
            if c != plan.core {
                Some(decimal(c as nat))
            } else {
                None
            },
    );
    let siblings = if plan.evicted@.len() > 1 {
        " (+SMT sibling "@ + join_texts(others, ","@) + ")"@
    } else {
        seq![]
    };
    assert(sibling_note(plan.evicted@, plan.core) =~= siblings);
    let what = if plan.boot {
        ": core is boot-isolated (isolcpus)"@
    } else {
        ": evicted user.slice/system.slice/init.scope to cores "@ + cpu_list_text(
            core_set(plan.housekeeping@),
        )
    };
    assert(isolation_note(plan, irqs) =~= "isolated core "@ + decimal(plan.core as nat) + siblings
        + what + ", steered "@ + decimal(irqs) + " IRQs (restored on exit)"@);
}

/// Whether an action stops without isolation, and why.
pub open spec fn skipped(action: IsolationAction) -> Option<Seq<char>> {
    match action {
        IsolationAction::Finish { outcome, .. } => match outcome {
            IsolateOutcome::Skipped(text) => Some(text@),
            IsolateOutcome::Isolated { .. } => None,
        },
        _ => None,
    }
}

/// While a run prepares, each reply leads to the one question that comes next, or the
/// isolation is skipped for the reason that the reply gives.
pub proof fn law_preparing_asks_in_turn(
    run: IsolationRun,
    reply: Reply,
    next: Option<IsolationRun>,
    action: IsolationAction,
)
    requires
        isolation_step(run, reply, next, action),
    ensures
        ({
            let went = reply.started && reply.ok;
            let offered = reply.ok && words_of(reply.text@, false).contains("cpuset"@);
            &&& run.phase is Controllers && offered ==> (action matches IsolationAction::Probe(p)
                && p@ == "systemctl"@)
            &&& run.phase is Controllers && !offered ==> skipped(action) == Some(
                "cgroup v2 cpuset controller is unavailable"@,
            )
            &&& run.phase is ProbeSystemctl && went ==> (action matches IsolationAction::Probe(p)
                && p@ == "systemd-run"@)
            &&& run.phase is ProbeSystemctl && !went ==> skipped(action) == Some(
                "systemctl"@ + " is unavailable"@,
            )
            &&& run.phase is ProbeRun && went ==> (action matches IsolationAction::Show(unit)
                && unit@ == "user.slice"@)
            &&& run.phase is ProbeRun && !went ==> skipped(action) == Some(
                "systemd-run"@ + " is unavailable"@,
            )
            &&& run.phase is ShowUser && went ==> (action matches IsolationAction::Show(unit)
                && unit@ == "system.slice"@)
            &&& run.phase is ShowSystem && went ==> (action matches IsolationAction::Show(unit)
                && unit@ == "init.scope"@)
            &&& run.phase is ShowInit && went ==> action is CheckSudo
            &&& (run.phase is ShowUser || run.phase is ShowSystem || run.phase is ShowInit)
                && !reply.started ==> skipped(action) == Some("failed to run systemctl show"@)
            &&& run.phase is ShowUser && reply.started && !reply.ok ==> skipped(action) == Some(
                "systemctl show failed for "@ + "user.slice"@,
            )
            &&& run.phase is ShowSystem && reply.started && !reply.ok ==> skipped(action) == Some(
                "systemctl show failed for "@ + "system.slice"@,
            )
            &&& run.phase is ShowInit && reply.started && !reply.ok ==> skipped(action) == Some(
                "systemctl show failed for "@ + "init.scope"@,
            )
            &&& (run.phase is ShowUser || run.phase is ShowSystem || run.phase is ShowInit) && went
                ==> (next matches Some(n) && n.shown@.len() == run.shown@.len() + 1
                && n.shown@.last().1@ == reply.text@)
        }),
{
    if (run.phase is ShowUser || run.phase is ShowSystem || run.phase is ShowInit) && reply.started
        && reply.ok {
        let n = next->0;
        assert(slice_entries(n.shown@).len() == slice_entries(run.shown@).len() + 1);
        assert(slice_entries(n.shown@).last().1 == reply.text@);
        assert(n.shown@.len() == run.shown@.len() + 1);
        assert(slice_entries(n.shown@)[n.shown@.len() - 1].1 == n.shown@[n.shown@.len() - 1].1@);
    }
}

/// Sudo is asked for only where it needs a password. A core that was isolated at boot
/// needs no scope: its script is run at once; for any other a scope is opened first,
/// and the script is run when it is there. Each failure on the way skips the isolation
/// and says why.
pub proof fn law_script_is_run_behind_the_scope(
    run: IsolationRun,
    reply: Reply,
    next: Option<IsolationRun>,
    action: IsolationAction,
)
    requires
        isolation_step(run, reply, next, action),
    ensures
        ({
            let went = reply.started && reply.ok;
            let allowed = run.phase is Start && reply.ok || run.phase is Authorize && went;
            let scope = "bcmp-shield-"@ + decimal(run.plan.pid as nat) + ".scope"@;
            let cores = cpu_list_text(core_set(run.plan.housekeeping@));
            let mask = mask_text(run.plan.housekeeping@);
            &&& run.phase is Start && !reply.ok ==> (action matches IsolationAction::Authorize(line)
                && line@ == "requesting sudo to isolate core "@ + decimal(run.plan.core as nat)
                + " (restored on exit)"@)
            &&& run.phase is Authorize && !reply.started ==> skipped(action) == Some(
                "failed to run sudo"@,
            )
            &&& run.phase is Authorize && reply.started && !reply.ok ==> skipped(action) == Some(
                "sudo authorization failed"@,
            )
            &&& allowed && run.plan.boot ==> (action matches IsolationAction::RunScript(script)
                && script@ == apply_text(None, cores, mask, run.plan.pid))
            &&& allowed && !run.plan.boot ==> (action matches IsolationAction::OpenScope(unit)
                && unit@ == scope)
            &&& run.phase is Scope && went && !run.plan.boot ==> (
            action matches IsolationAction::RunScript(script) && script@ == apply_text(
                Some(scope),
                cores,
                mask,
                run.plan.pid,
            ))
            &&& run.phase is Scope && !reply.started ==> skipped(action) == Some(
                "failed to run sudo systemd-run"@,
            )
            &&& run.phase is Scope && reply.started && !reply.ok ==> skipped(action) == Some(
                if reply.text@.len() > 0 {
                    reply.text@
                } else {
                    "escape scope "@ + scope + " did not appear"@
                },
            )
            &&& run.phase is Script && !reply.started ==> skipped(action) == Some(
                "failed to run sudo isolation script"@,
            )
        }),
{
}

/// Behind the script the run ends isolated or restored. A script that fails is undone,
/// and so is one behind which this process is not in its scope; then the isolation is
/// skipped for that reason. Else the process is moved to the cores that take over, a
/// failure there is only a warning, and the core is isolated: the helper and the guard
/// hold the scripts that restore what was in force.
pub proof fn law_script_is_undone_or_kept(
    run: IsolationRun,
    reply: Reply,
    next: Option<IsolationRun>,
    action: IsolationAction,
)
    requires
        isolation_step(run, reply, next, action),
    ensures
        ({
            let went = reply.started && reply.ok;
            let scope = "bcmp-shield-"@ + decimal(run.plan.pid as nat) + ".scope"@;
            let inside = reply.ok && exists|at: int|
                0 <= at <= reply.text@.len() - scope.len() && #[trigger] reply.text@.subrange(
                    at,
                    at + scope.len(),
                ) == scope;
            let settled = run.phase is Move || run.phase is Script && went && run.plan.boot;
            &&& run.phase is Script && reply.started && !reply.ok ==> {
                &&& action matches IsolationAction::Restore(script)
                &&& script@ == restore_text(run.snapshot, false)
                &&& next matches Some(n) && n.phase matches Phase::Undo(reason) && reason@
                    == "sudo isolation script failed"@
            }
            &&& run.phase is Script && went && !run.plan.boot ==> action is ReadCgroup
            &&& run.phase is Migrate && inside ==> (action matches IsolationAction::MoveProcess(list)
                && list@ == cpu_list_text(core_set(run.plan.housekeeping@)))
            &&& run.phase is Migrate && !inside ==> {
                &&& action matches IsolationAction::Restore(script)
                &&& script@ == restore_text(run.snapshot, false)
                &&& next matches Some(n) && n.phase matches Phase::Undo(reason) && reason@
                    == "failed to migrate process into "@ + scope
            }
            &&& run.phase matches Phase::Undo(reason) ==> skipped(action) == Some(reason@)
            &&& settled ==> {
                &&& action matches IsolationAction::Finish { lines, helper, outcome }
                &&& helper matches Some(script) && script@ == restore_text(run.snapshot, true)
                &&& outcome matches IsolateOutcome::Isolated { guard, boot } && boot
                    == run.plan.boot && guard.restore@ == restore_text(run.snapshot, false)
                    && guard.canary_prev@ == canary_text(run.snapshot.slice_prev@)
                &&& texts(lines@) == (if run.phase is Move && !reply.ok {
                    seq!["warning: failed to move this process to housekeeping cores"@]
                } else {
                    seq![]
                }).push(isolation_note(run.plan, run.snapshot.irq_prev@.len()))
            }
        }),
{
    let scope = scope_text(run.plan.pid);
    if occurs_in(reply.text@, scope) {
        let at = choose|at: int| #[trigger] crate::text::occurs_at(reply.text@, scope, at);
        assert(reply.text@.subrange(at, at + scope.len()) == scope);
    }
    if exists|at: int|
        0 <= at <= reply.text@.len() - scope.len() && #[trigger] reply.text@.subrange(
            at,
            at + scope.len(),
        ) == scope {
        let at = choose|at: int|
            0 <= at <= reply.text@.len() - scope.len() && #[trigger] reply.text@.subrange(
                at,
                at + scope.len(),
            ) == scope;
        assert(crate::text::occurs_at(reply.text@, scope, at));
    }
}

/// The entries of a snapshot say each unit and each IRQ with its value, in their order.
pub proof fn law_entries_are_the_snapshot(
    units: Seq<(&'static str, String)>,
    irqs: Seq<(u32, String)>,
    i: int,
)
    ensures
        slice_entries(units).len() == units.len(),
        irq_entries(irqs).len() == irqs.len(),
        0 <= i < units.len() ==> slice_entries(units)[i] == (units[i].0@, units[i].1@),
        0 <= i < irqs.len() ==> irq_entries(irqs)[i] == (irqs[i].0, irqs[i].1@),
{
}

/// A scope is opened by systemd, without a password, in a slice of its own; it is held
/// open for half a minute.
pub proof fn law_scope_is_opened_by_systemd(unit: Seq<char>)
    ensures
        scope_args_text(unit) == seq![
            "-n"@,
            "systemd-run"@,
            "--scope"@,
            "--slice=bcmp.slice"@,
            "--unit="@ + unit,
            "-p"@,
            "Delegate=yes"@,
            "--quiet"@,
            "sleep"@,
            "30"@,
        ],
{
}

/// The cores that are cleared with a core are all that its list of siblings names, and
/// the core alone where there is no list or it names none. `named` are those that the
/// list names.
pub proof fn law_siblings_are_cleared(s: Seq<char>, named: Seq<u32>, core: u32)
    requires
        increasing(named),
        forall|c: u32| #[trigger] named.contains(c) <==> list_names(s, c),
    ensures
        evicted_list(None, core) == seq![core],
        named.len() > 0 ==> evicted_list(Some(s), core) == named,
        named.len() == 0 ==> evicted_list(Some(s), core) == seq![core],
{
    let read = named_cores(s);
    assert(increasing(read) && forall|c: u32| #[trigger] read.contains(c) <==> list_names(s, c));
    law_increasing_unique(read, named);
}

} // verus!
