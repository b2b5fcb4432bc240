//! The report for people: settings and results in one table.
use crate::cli::MetricSource;
use crate::git::ResolvedRev;
use crate::stats::Verdict;
use crate::text::{cat4, cat5, chars_of, join, join_texts, push_repeated, repeat_char, texts};
use vstd::prelude::*;

verus! {

// ---------------------------------------------------------------------------
// Tables
// ---------------------------------------------------------------------------

/// A row of a table: a key and its value, or a rule between sections.
pub enum TableRow {
    Entry(String, String),
    Rule,
}

/// What a `TableRow` says.
pub ghost enum RowText {
    Entry(Seq<char>, Seq<char>),
    Rule,
}

impl View for TableRow {
    type V = RowText;

    open spec fn view(&self) -> RowText {
        match *self {
            TableRow::Entry(key, value) => RowText::Entry(key@, value@),
            TableRow::Rule => RowText::Rule,
        }
    }
}

pub open spec fn row_texts(rows: Seq<TableRow>) -> Seq<RowText> {
    Seq::new(rows.len(), |i: int| rows[i]@)
}

broadcast proof fn lemma_rows_push(rows: Seq<TableRow>, row: TableRow)
    ensures
        #[trigger] row_texts(rows.push(row)) == row_texts(rows).push(row@),
{
    assert(row_texts(rows.push(row)) =~= row_texts(rows).push(row@));
}

fn entry(key: &str, value: &str) -> (r: TableRow)
    ensures
        r@ == RowText::Entry(key@, value@),
{
    TableRow::Entry(key.to_owned(), value.to_owned())
}

pub open spec fn max_of(a: nat, b: nat) -> nat {
    if a < b {
        b
    } else {
        a
    }
}

/// The length of the longest key.
pub open spec fn key_width(rows: Seq<RowText>) -> nat
    decreases rows.len(),
{
    if rows.len() == 0 {
        0
    } else {
        match rows.last() {
            RowText::Entry(key, _) => max_of(key_width(rows.drop_last()), key.len()),
            RowText::Rule => key_width(rows.drop_last()),
        }
    }
}

/// The length of the longest value.
pub open spec fn value_width(rows: Seq<RowText>) -> nat
    decreases rows.len(),
{
    if rows.len() == 0 {
        0
    } else {
        match rows.last() {
            RowText::Entry(_, value) => max_of(value_width(rows.drop_last()), value.len()),
            RowText::Rule => value_width(rows.drop_last()),
        }
    }
}

/// A text with blanks behind it up to a width.
pub open spec fn padded(s: Seq<char>, width: nat) -> Seq<char> {
    s + repeat_char(
        ' ',
        if s.len() < width {
            (width - s.len()) as nat
        } else {
            0
        },
    )
}

/// A line of a table that holds no text.
pub open spec fn rule_text(
    left: Seq<char>,
    middle: Seq<char>,
    right: Seq<char>,
    key_w: nat,
    val_w: nat,
) -> Seq<char> {
    left + repeat_char('─', key_w) + middle + repeat_char('─', val_w) + right
}

/// A line of a table.
pub open spec fn row_line(row: RowText, key_w: nat, val_w: nat) -> Seq<char> {
    match row {
        RowText::Entry(key, value) => "│ "@ + padded(key, key_w) + " │ "@ + padded(value, val_w)
            + " │\n"@,
        RowText::Rule => rule_text("├─"@, "─┼─"@, "─┤\n"@, key_w, val_w),
    }
}

pub open spec fn row_lines(rows: Seq<RowText>, key_w: nat, val_w: nat) -> Seq<char>
    decreases rows.len(),
{
    if rows.len() == 0 {
        seq![]
    } else {
        row_lines(rows.drop_last(), key_w, val_w) + row_line(rows.last(), key_w, val_w)
    }
}

/// A table: a box round its rows, the columns as wide as their longest text.
pub open spec fn table_text(rows: Seq<RowText>) -> Seq<char> {
    let key_w = key_width(rows);
    let val_w = value_width(rows);
    rule_text("┌─"@, "─┬─"@, "─┐\n"@, key_w, val_w) + row_lines(rows, key_w, val_w) + rule_text(
        "└─"@,
        "─┴─"@,
        "─┘\n"@,
        key_w,
        val_w,
    )
}

fn width(s: &str) -> (r: usize)
    ensures
        r == s@.len(),
{
    chars_of(s).len()
}

fn push_rule(out: &mut String, left: &str, middle: &str, right: &str, key_w: usize, val_w: usize)
    ensures
        final(out)@ == old(out)@ + rule_text(left@, middle@, right@, key_w as nat, val_w as nat),
{
    let ghost start = out@;
    out.append(left);
    push_repeated(out, '─', key_w);
    out.append(middle);
    push_repeated(out, '─', val_w);
    out.append(right);
    assert(out@ =~= start + rule_text(left@, middle@, right@, key_w as nat, val_w as nat));
}

fn push_padded(out: &mut String, s: &str, w: usize)
    ensures
        final(out)@ == old(out)@ + padded(s@, w as nat),
{
    let ghost start = out@;
    let n: usize = width(s);
    out.append(s);
    let gap: usize = if n < w {
        w - n
    } else {
        0
    };
    push_repeated(out, ' ', gap);
    assert(out@ =~= start + padded(s@, w as nat));
}

fn push_row(out: &mut String, row: &TableRow, key_w: usize, val_w: usize)
    ensures
        final(out)@ == old(out)@ + row_line(row@, key_w as nat, val_w as nat),
{
    let ghost start = out@;
    match row {
        TableRow::Entry(key, value) => {
            out.append("│ ");
            push_padded(out, key, key_w);
            out.append(" │ ");
            push_padded(out, value, val_w);
            out.append(" │\n");
        },
        TableRow::Rule => {
            push_rule(out, "├─", "─┼─", "─┤\n", key_w, val_w);
        },
    }
    assert(out@ =~= start + row_line(row@, key_w as nat, val_w as nat));
}

/// The table with the rows given.
pub fn table(rows: &[TableRow]) -> (r: String)
    ensures
        r@ == table_text(row_texts(rows@)),
{
    let ghost all = row_texts(rows@);
    let n: usize = rows.len();
    let mut key_w: usize = 0;
    let mut val_w: usize = 0;
    let mut i: usize = 0;
    while i < n
        invariant
            n == rows@.len(),
            i <= n,
            all == row_texts(rows@),
            key_w == key_width(all.take(i as int)),
            val_w == value_width(all.take(i as int)),
        decreases n - i,
    {
        assert(all.take(i + 1).drop_last() =~= all.take(i as int));
        assert(all.take(i + 1).last() == rows@[i as int]@);
        if let TableRow::Entry(key, value) = &rows[i] {
            let k: usize = width(key);
            let v: usize = width(value);
            if key_w < k {
                key_w = k;
            }
            if val_w < v {
                val_w = v;
            }
        }
        i = i + 1;
    }
    assert(all.take(n as int) =~= all);
    let mut out: String = String::new();
    push_rule(&mut out, "┌─", "─┬─", "─┐\n", key_w, val_w);
    let ghost top = out@;
    assert(top =~= rule_text("┌─"@, "─┬─"@, "─┐\n"@, key_w as nat, val_w as nat));
    assert(top + row_lines(all.take(0), key_w as nat, val_w as nat) =~= top);
    i = 0;
    while i < n
        invariant
            n == rows@.len(),
            i <= n,
            all == row_texts(rows@),
            out@ == top + row_lines(all.take(i as int), key_w as nat, val_w as nat),
        decreases n - i,
    {
        assert(all.take(i + 1).drop_last() =~= all.take(i as int));
        assert(all.take(i + 1).last() == rows@[i as int]@);
        push_row(&mut out, &rows[i], key_w, val_w);
        assert(out@ =~= top + row_lines(all.take(i + 1), key_w as nat, val_w as nat));
        i = i + 1;
    }
    assert(all.take(n as int) =~= all);
    push_rule(&mut out, "└─", "─┴─", "─┘\n", key_w, val_w);
    out
}

proof fn lemma_widths(rows: Seq<RowText>, i: int)
    requires
        0 <= i < rows.len(),
    ensures
        rows[i] matches RowText::Entry(key, value) ==> key.len() <= key_width(rows) && value.len()
            <= value_width(rows),
    decreases rows.len(),
{
    if i < rows.len() - 1 {
        lemma_widths(rows.drop_last(), i);
    }
}

/// Every line of a table, the border included, is as long as every other.
pub proof fn law_table_lines_are_aligned(rows: Seq<RowText>)
    ensures
        ({
            let key_w = key_width(rows);
            let val_w = value_width(rows);
            &&& forall|i: int|
                0 <= i < rows.len() ==> (#[trigger] row_line(rows[i], key_w, val_w)).len() == key_w
                    + val_w + 8
            &&& rule_text("┌─"@, "─┬─"@, "─┐\n"@, key_w, val_w).len() == key_w + val_w + 8
            &&& rule_text("└─"@, "─┴─"@, "─┘\n"@, key_w, val_w).len() == key_w + val_w + 8
        }),
{
    let key_w = key_width(rows);
    let val_w = value_width(rows);
    reveal_strlit("│ ");
    reveal_strlit(" │ ");
    reveal_strlit(" │\n");
    reveal_strlit("├─");
    reveal_strlit("─┼─");
    reveal_strlit("─┤\n");
    reveal_strlit("┌─");
    reveal_strlit("─┬─");
    reveal_strlit("─┐\n");
    reveal_strlit("└─");
    reveal_strlit("─┴─");
    reveal_strlit("─┘\n");
    assert forall|i: int| 0 <= i < rows.len() implies (#[trigger] row_line(
        rows[i],
        key_w,
        val_w,
    )).len() == key_w + val_w + 8 by {
        lemma_widths(rows, i);
    }
}

// ---------------------------------------------------------------------------
// The report
// ---------------------------------------------------------------------------

/// The sections of a report: the settings, then one for each result, behind a
/// rule, with the header for keys.
pub open spec fn result_rows(results: Seq<[String; 5]>, n: nat) -> Seq<RowText>
    decreases n,
{
    if n == 0 {
        seq![]
    } else {
        result_rows(results, (n - 1) as nat) + seq![
            RowText::Rule,
            RowText::Entry(results[0]@[0]@, results[n as int]@[0]@),
            RowText::Entry(results[0]@[1]@, results[n as int]@[1]@),
            RowText::Entry(results[0]@[2]@, results[n as int]@[2]@),
            RowText::Entry(results[0]@[3]@, results[n as int]@[3]@),
            RowText::Entry(results[0]@[4]@, results[n as int]@[4]@),
        ]
    }
}

pub open spec fn setting_rows(settings: Seq<(&'static str, String)>) -> Seq<RowText> {
    Seq::new(settings.len(), |i: int| RowText::Entry(settings[i].0@, settings[i].1@))
}

/// The rows of a report.
pub open spec fn report_rows(
    settings: Seq<(&'static str, String)>,
    results: Seq<[String; 5]>,
) -> Seq<RowText> {
    setting_rows(settings) + result_rows(results, (results.len() - 1) as nat)
}

/// The table of a report: the settings, then a section for each result. The
/// first of the results is the header.
pub fn vertical_table(settings: &[(&'static str, String)], results: &[[String; 5]]) -> (r: String)
    requires
        results@.len() > 0,
    ensures
        r@ == table_text(report_rows(settings@, results@)),
{
    let mut rows: Vec<TableRow> = Vec::new();
    let n: usize = settings.len();
    let mut i: usize = 0;
    while i < n
        invariant
            n == settings@.len(),
            i <= n,
            row_texts(rows@) == setting_rows(settings@).take(i as int),
        decreases n - i,
    {
        broadcast use lemma_rows_push;

        rows.push(entry(settings[i].0, &settings[i].1));
        assert(setting_rows(settings@).take(i + 1) =~= setting_rows(settings@).take(i as int).push(
            setting_rows(settings@)[i as int],
        ));
        i = i + 1;
    }
    let ghost head = setting_rows(settings@);
    assert(row_texts(rows@) =~= head + result_rows(results@, 0));
    let m: usize = results.len();
    let mut k: usize = 1;
    while k < m
        invariant
            m == results@.len(),
            1 <= k <= m,
            row_texts(rows@) == head + result_rows(results@, (k - 1) as nat),
        decreases m - k,
    {
        broadcast use lemma_rows_push;

        rows.push(TableRow::Rule);
        let header: &[String; 5] = &results[0];
        let row: &[String; 5] = &results[k];
        rows.push(entry(&header[0], &row[0]));
        rows.push(entry(&header[1], &row[1]));
        rows.push(entry(&header[2], &row[2]));
        rows.push(entry(&header[3], &row[3]));
        rows.push(entry(&header[4], &row[4]));
        assert(row_texts(rows@) =~= head + result_rows(results@, k as nat));
        k = k + 1;
    }
    table(&rows)
}

/// The table of a report.
pub fn report_table(settings: &[(&'static str, String)], results: &[[String; 5]]) -> (r: String)
    requires
        results@.len() > 0,
    ensures
        r@ == table_text(report_rows(settings@, results@)),
{
    vertical_table(settings, results)
}

proof fn lemma_result_rows_len(results: Seq<[String; 5]>, n: nat)
    ensures
        result_rows(results, n).len() == 6 * n,
    decreases n,
{
    if n > 0 {
        lemma_result_rows_len(results, (n - 1) as nat);
    }
}

/// A report has one row for each setting, and for each result a rule and five
/// rows.
pub proof fn law_report_size(settings: Seq<(&'static str, String)>, results: Seq<[String; 5]>)
    requires
        results.len() > 0,
    ensures
        report_rows(settings, results).len() == settings.len() + 6 * (results.len() - 1),
{
    lemma_result_rows_len(results, (results.len() - 1) as nat);
}

pub open spec fn verdict_words(v: Verdict) -> Seq<char> {
    match v {
        Verdict::Improved => "improved"@,
        Verdict::Regressed => "REGRESSED"@,
        Verdict::NoChange => "no change (within noise)"@,
    }
}

pub fn verdict_text(v: &Verdict) -> (r: &'static str)
    ensures
        r@ == verdict_words(*v),
{
    match v {
        Verdict::Improved => "improved",
        Verdict::Regressed => "REGRESSED",
        Verdict::NoChange => "no change (within noise)",
    }
}

pub open spec fn metric_words(metric: MetricSource) -> Seq<char> {
    match metric {
        MetricSource::WallClock => "wall-clock (s, lower is better)"@,
        MetricSource::Regex { raw, higher_is_better, .. } => "regex '"@ + raw@ + "' ("@ + (
        if higher_is_better {
            "higher is better"@
        } else {
            "lower is better"@
        }) + ")"@,
    }
}

pub fn metric_label(metric: &MetricSource) -> (r: String)
    ensures
        r@ == metric_words(*metric),
{
    match metric {
        MetricSource::WallClock => "wall-clock (s, lower is better)".to_owned(),
        MetricSource::Regex { raw, pattern: _, higher_is_better } => {
            let way: &'static str = if *higher_is_better {
                "higher is better"
            } else {
                "lower is better"
            };
            cat5("regex '", raw, "' (", way, ")")
        }
    }
}

/// A result, its numbers in words.
pub struct ResultLine {
    pub id: String,
    pub base: String,
    pub candidate: String,
    pub delta: String,
    pub verdict: Verdict,
}

/// What a report tells.
pub struct HumanReport<'a> {
    pub package: &'a str,
    pub profile: &'a str,
    pub mode_label: String,
    pub metric_label: Option<String>,
    pub reps_label: String,
    pub pinned_label: String,
    pub governor: Option<String>,
    pub governor_set_by_tool: bool,
    pub base: &'a ResolvedRev,
    pub candidate: &'a ResolvedRev,
    pub build: &'a str,
    pub results: &'a [ResultLine],
    pub only_in_base: &'a [String],
    pub only_in_candidate: &'a [String],
}

/// A revision as a report shows it.
pub open spec fn rev_words(rev: ResolvedRev) -> Seq<char> {
    rev.spec@ + " ("@ + rev.short@ + ")"@
}

fn rev_label(rev: &ResolvedRev) -> (r: String)
    ensures
        r@ == rev_words(*rev),
{
    cat4(&rev.spec, " (", &rev.short, ")")
}

/// The settings of a report.
pub open spec fn settings_of(r: HumanReport<'_>) -> Seq<RowText> {
    let start = seq![
        RowText::Entry("package"@, r.package@),
        RowText::Entry("mode"@, r.mode_label@),
        RowText::Entry("profile"@, r.profile@),
        RowText::Entry("reps"@, r.reps_label@),
    ];
    let metric = match r.metric_label {
        Some(metric) => seq![RowText::Entry("metric"@, metric@)],
        None => seq![],
    };
    let pinning = seq![RowText::Entry("pinning"@, r.pinned_label@)];
    let governor = match r.governor {
        Some(governor) => seq![
            RowText::Entry(
                "governor"@,
                if r.governor_set_by_tool {
                    governor@ + " (set for this run)"@
                } else {
                    governor@
                },
            ),
        ],
        None => seq![],
    };
    let end = seq![
        RowText::Entry("build"@, r.build@),
        RowText::Entry("RUSTFLAGS"@, "-C target-cpu=native"@),
        RowText::Entry("base"@, rev_words(*r.base)),
        RowText::Entry("rev"@, rev_words(*r.candidate)),
    ];
    start + metric + pinning + governor + end
}

/// The section of a result.
pub open spec fn section_of(line: ResultLine) -> Seq<RowText> {
    seq![
        RowText::Rule,
        RowText::Entry("benchmark"@, line.id@),
        RowText::Entry("base"@, line.base@),
        RowText::Entry("rev"@, line.candidate@),
        RowText::Entry("Δ"@, line.delta@),
        RowText::Entry("verdict"@, verdict_words(line.verdict)),
    ]
}

pub open spec fn sections_of(lines: Seq<ResultLine>) -> Seq<RowText>
    decreases lines.len(),
{
    if lines.len() == 0 {
        seq![]
    } else {
        sections_of(lines.drop_last()) + section_of(lines.last())
    }
}

pub open spec fn only_text(label: Seq<char>, ids: Seq<Seq<char>>) -> Seq<char> {
    if ids.len() == 0 {
        seq![]
    } else {
        label + join_texts(ids, ", "@) + "\n"@
    }
}

/// A report: the table, then what only one side has.
pub open spec fn report_text(r: HumanReport<'_>) -> Seq<char> {
    table_text(settings_of(r) + sections_of(r.results@)) + only_text(
        "only in base: "@,
        texts(r.only_in_base@),
    ) + only_text("only in candidate: "@, texts(r.only_in_candidate@))
}

fn push_only(out: &mut String, label: &str, ids: &[String])
    ensures
        final(out)@ == old(out)@ + only_text(label@, texts(ids@)),
{
    let ghost start = out@;
    if ids.len() > 0 {
        out.append(label);
        out.append(&join(ids, ", "));
        out.append("\n");
    }
    assert(out@ =~= start + only_text(label@, texts(ids@)));
}

fn human_settings(r: &HumanReport<'_>) -> (s: Vec<(&'static str, String)>)
    ensures
        setting_rows(s@) == settings_of(*r),
{
    let mut settings: Vec<(&'static str, String)> = Vec::new();
    settings.push(("package", r.package.to_owned()));
    settings.push(("mode", r.mode_label.clone()));
    settings.push(("profile", r.profile.to_owned()));
    settings.push(("reps", r.reps_label.clone()));
    if let Some(metric) = &r.metric_label {
        settings.push(("metric", metric.clone()));
    }
    settings.push(("pinning", r.pinned_label.clone()));
    if let Some(governor) = &r.governor {
        if r.governor_set_by_tool {
            settings.push(("governor", crate::text::cat2(governor, " (set for this run)")));
        } else {
            settings.push(("governor", governor.clone()));
        }
    }
    settings.push(("build", r.build.to_owned()));
    settings.push(("RUSTFLAGS", "-C target-cpu=native".to_owned()));
    settings.push(("base", rev_label(r.base)));
    settings.push(("rev", rev_label(r.candidate)));
    assert(setting_rows(settings@) =~= settings_of(*r));
    settings
}

fn header() -> (r: [String; 5])
    ensures
        r@[0]@ == "benchmark"@,
        r@[1]@ == "base"@,
        r@[2]@ == "rev"@,
        r@[3]@ == "Δ"@,
        r@[4]@ == "verdict"@,
{
    [
        "benchmark".to_owned(),
        "base".to_owned(),
        "rev".to_owned(),
        "Δ".to_owned(),
        "verdict".to_owned(),
    ]
}

/// The report, as it is printed.
pub fn print_human(r: &HumanReport<'_>) -> (s: String)
    ensures
        s@ == report_text(*r),
{
    let settings: Vec<(&'static str, String)> = human_settings(r);
    let mut rows: Vec<[String; 5]> = Vec::new();
    rows.push(header());
    let n: usize = r.results.len();
    let mut i: usize = 0;
    assert(result_rows(rows@, 0) =~= sections_of(r.results@.take(0)));
    while i < n
        invariant
            n == r.results@.len(),
            i <= n,
            rows@.len() == i + 1,
            rows@[0]@[0]@ == "benchmark"@,
            rows@[0]@[1]@ == "base"@,
            rows@[0]@[2]@ == "rev"@,
            rows@[0]@[3]@ == "Δ"@,
            rows@[0]@[4]@ == "verdict"@,
            result_rows(rows@, i as nat) == sections_of(r.results@.take(i as int)),
        decreases n - i,
    {
        let line: &ResultLine = &r.results[i];
        let ghost before = rows@;
        rows.push(
            [
                line.id.clone(),
                line.base.clone(),
                line.candidate.clone(),
                line.delta.clone(),
                verdict_text(&line.verdict).to_owned(),
            ],
        );
        proof {
            lemma_result_rows_prefix(before, rows@, i as nat);
            assert(r.results@.take(i + 1).drop_last() =~= r.results@.take(i as int));
            assert(result_rows(rows@, (i + 1) as nat) =~= sections_of(r.results@.take(i + 1)));
        }
        i = i + 1;
    }
    assert(r.results@.take(n as int) =~= r.results@);
    let mut out: String = report_table(&settings, &rows);
    push_only(&mut out, "only in base: ", r.only_in_base);
    push_only(&mut out, "only in candidate: ", r.only_in_candidate);
    out
}

proof fn lemma_result_rows_prefix(a: Seq<[String; 5]>, b: Seq<[String; 5]>, n: nat)
    requires
        n < a.len() <= b.len(),
        forall|i: int| 0 <= i < a.len() ==> a[i] == b[i],
    ensures
        result_rows(a, n) == result_rows(b, n),
    decreases n,
{
    if n > 0 {
        lemma_result_rows_prefix(a, b, (n - 1) as nat);
    }
}

proof fn lemma_lines_len(rows: Seq<RowText>, key_w: nat, val_w: nat, len: nat)
    requires
        forall|j: int|
            0 <= j < rows.len() ==> (#[trigger] row_line(rows[j], key_w, val_w)).len() == len,
    ensures
        row_lines(rows, key_w, val_w).len() == rows.len() * len,
    decreases rows.len(),
{
    if rows.len() > 0 {
        let front = rows.drop_last();
        assert forall|j: int| 0 <= j < front.len() implies (#[trigger] row_line(
            front[j],
            key_w,
            val_w,
        )).len() == len by {
            assert(front[j] == rows[j]);
        }
        lemma_lines_len(front, key_w, val_w, len);
        assert(row_line(rows[rows.len() - 1], key_w, val_w).len() == len);
        let n = rows.len() as int;
        let l = len as int;
        assert((n - 1) * l + l == n * l) by (nonlinear_arith);
    }
}

proof fn lemma_lines_prefix(rows: Seq<RowText>, key_w: nat, val_w: nat, i: int) -> (rest: Seq<char>)
    requires
        0 <= i <= rows.len(),
    ensures
        row_lines(rows, key_w, val_w) == row_lines(rows.take(i), key_w, val_w) + rest,
    decreases rows.len(),
{
    if i == rows.len() {
        let rest: Seq<char> = seq![];
        assert(rows.take(i) =~= rows);
        assert(row_lines(rows, key_w, val_w) =~= row_lines(rows.take(i), key_w, val_w) + rest);
        rest
    } else {
        let front = rows.drop_last();
        let before = lemma_lines_prefix(front, key_w, val_w, i);
        let rest = before + row_line(rows.last(), key_w, val_w);
        assert(front.take(i) =~= rows.take(i));
        assert(row_lines(rows, key_w, val_w) =~= row_lines(rows.take(i), key_w, val_w) + rest);
        rest
    }
}

proof fn lemma_row_lines(rows: Seq<RowText>, key_w: nat, val_w: nat, len: nat, i: int)
    requires
        0 <= i < rows.len(),
        forall|j: int|
            0 <= j < rows.len() ==> (#[trigger] row_line(rows[j], key_w, val_w)).len() == len,
    ensures
        row_lines(rows, key_w, val_w).len() == rows.len() * len,
        0 <= i * len <= (i + 1) * len <= rows.len() * len,
        row_lines(rows, key_w, val_w).subrange(i * len, (i + 1) * len) == row_line(
            rows[i],
            key_w,
            val_w,
        ),
{
    let n = rows.len() as int;
    let l = len as int;
    let front = rows.take(i);
    let more = rows.take(i + 1);
    assert forall|j: int| 0 <= j < front.len() implies (#[trigger] row_line(
        front[j],
        key_w,
        val_w,
    )).len() == len by {
        assert(front[j] == rows[j]);
    }
    lemma_lines_len(rows, key_w, val_w, len);
    lemma_lines_len(front, key_w, val_w, len);
    let rest = lemma_lines_prefix(rows, key_w, val_w, i + 1);
    assert(more.drop_last() =~= front);
    assert(more.last() == rows[i]);
    let whole = row_lines(rows, key_w, val_w);
    let head = row_lines(front, key_w, val_w);
    let line = row_line(rows[i], key_w, val_w);
    assert(line.len() == len);
    assert(whole == head + line + rest);
    assert(i * l + l == (i + 1) * l) by (nonlinear_arith);
    assert(0 <= i * l) by (nonlinear_arith)
        requires
            0 <= i,
            0 <= l,
    ;
    assert((i + 1) * l <= n * l) by (nonlinear_arith)
        requires
            i + 1 <= n,
            0 <= l,
    ;
    let at = i * l;
    assert(head.len() == at);
    assert((head + line + rest).subrange(at, at + l) =~= line);
}

/// Line `i + 1` of a table, below its upper border, shows row `i`: a key and its
/// value, each with blanks up to the width of its column, between bars; or a rule.
proof fn lemma_table_line(rows: Seq<RowText>, rest: Seq<char>, i: int)
    requires
        0 <= i < rows.len(),
    ensures
        ({
            let key_w = key_width(rows);
            let val_w = value_width(rows);
            let len = (key_w + val_w + 8) as int;
            let text = table_text(rows) + rest;
            let line = text.subrange((1 + i) * len, (1 + i) * len + len);
            &&& 0 <= (1 + i) * len
            &&& (1 + i) * len + len <= text.len()
            &&& match rows[i] {
                RowText::Entry(key, value) => {
                    &&& key.len() <= key_w
                    &&& value.len() <= val_w
                    &&& line == "│ "@ + key + repeat_char(' ', (key_w - key.len()) as nat)
                        + " │ "@ + value + repeat_char(' ', (val_w - value.len()) as nat) + " │\n"@
                },
                RowText::Rule => line == "├─"@ + repeat_char('─', key_w) + "─┼─"@ + repeat_char(
                    '─',
                    val_w,
                ) + "─┤\n"@,
            }
        }),
{
    let key_w = key_width(rows);
    let val_w = value_width(rows);
    let len = (key_w + val_w + 8) as nat;
    law_table_lines_are_aligned(rows);
    lemma_row_lines(rows, key_w, val_w, len, i);
    lemma_widths(rows, i);
    let top = rule_text("┌─"@, "─┬─"@, "─┐\n"@, key_w, val_w);
    let middle = row_lines(rows, key_w, val_w);
    let text = table_text(rows) + rest;
    let l = len as int;
    assert((1 + i) * l == i * l + l) by (nonlinear_arith);
    assert(text.subrange((1 + i) * l, (1 + i) * l + l) =~= middle.subrange(i * l, i * l + l));
    if let RowText::Entry(key, value) = rows[i] {
        assert(row_line(rows[i], key_w, val_w) =~= "│ "@ + key + repeat_char(
            ' ',
            (key_w - key.len()) as nat,
        ) + " │ "@ + value + repeat_char(' ', (val_w - value.len()) as nat) + " │\n"@);
    }
}

proof fn lemma_sections(lines: Seq<ResultLine>, k: int)
    requires
        0 <= k < lines.len(),
    ensures
        sections_of(lines).len() == 6 * lines.len(),
        sections_of(lines).subrange(6 * k, 6 * k + 6) == section_of(lines[k]),
    decreases lines.len(),
{
    let front = lines.drop_last();
    if front.len() > 0 {
        lemma_sections(front, if k < front.len() { k } else { 0 });
    }
    let whole = sections_of(lines);
    let head = sections_of(front);
    if k < front.len() {
        assert(front[k] == lines[k]);
        assert(whole.subrange(6 * k, 6 * k + 6) =~= head.subrange(6 * k, 6 * k + 6));
    } else {
        assert(whole.subrange(6 * k, 6 * k + 6) =~= section_of(lines[k]));
    }
}

spec fn rows_of(report: HumanReport<'_>) -> Seq<RowText> {
    settings_of(report) + sections_of(report.results@)
}

/// An entry of a report stands on the line of its row.
proof fn lemma_report_entry(report: HumanReport<'_>, i: int, key: Seq<char>, value: Seq<char>)
    requires
        0 <= i < rows_of(report).len(),
        rows_of(report)[i] == RowText::Entry(key, value),
    ensures
        ({
            let key_w = key_width(rows_of(report));
            let val_w = value_width(rows_of(report));
            let len = (key_w + val_w + 8) as int;
            &&& key.len() <= key_w
            &&& value.len() <= val_w
            &&& report_text(report).subrange((1 + i) * len, (1 + i) * len + len) == "│ "@ + key
                + repeat_char(' ', (key_w - key.len()) as nat) + " │ "@ + value + repeat_char(
                ' ',
                (val_w - value.len()) as nat,
            ) + " │\n"@
        }),
{
    let rest = only_text("only in base: "@, texts(report.only_in_base@)) + only_text(
        "only in candidate: "@,
        texts(report.only_in_candidate@),
    );
    assert(report_text(report) =~= table_text(rows_of(report)) + rest);
    lemma_table_line(rows_of(report), rest, i);
}

/// A rule of a report stands on the line of its row.
proof fn lemma_report_rule(report: HumanReport<'_>, i: int)
    requires
        0 <= i < rows_of(report).len(),
        rows_of(report)[i] is Rule,
    ensures
        ({
            let key_w = key_width(rows_of(report));
            let val_w = value_width(rows_of(report));
            let len = (key_w + val_w + 8) as int;
            report_text(report).subrange((1 + i) * len, (1 + i) * len + len) == "├─"@ + repeat_char(
                '─',
                key_w,
            ) + "─┼─"@ + repeat_char('─', val_w) + "─┤\n"@
        }),
{
    let rest = only_text("only in base: "@, texts(report.only_in_base@)) + only_text(
        "only in candidate: "@,
        texts(report.only_in_candidate@),
    );
    assert(report_text(report) =~= table_text(rows_of(report)) + rest);
    lemma_table_line(rows_of(report), rest, i);
}

/// Where the rows of a result stand among those of a report.
proof fn lemma_section_rows(report: HumanReport<'_>, k: int)
    requires
        0 <= k < report.results@.len(),
    ensures
        ({
            let at = settings_of(report).len() + 6 * k;
            let line = report.results@[k];
            let rows = rows_of(report);
            &&& at + 6 <= rows.len()
            &&& rows[at] is Rule
            &&& rows[at + 1] == RowText::Entry("benchmark"@, line.id@)
            &&& rows[at + 2] == RowText::Entry("base"@, line.base@)
            &&& rows[at + 3] == RowText::Entry("rev"@, line.candidate@)
            &&& rows[at + 4] == RowText::Entry("Δ"@, line.delta@)
            &&& rows[at + 5] == RowText::Entry("verdict"@, verdict_words(line.verdict))
        }),
{
    let at = settings_of(report).len() + 6 * k;
    let rows = rows_of(report);
    lemma_sections(report.results@, k);
    let own = sections_of(report.results@).subrange(6 * k, 6 * k + 6);
    assert(rows[at] == own[0]);
    assert(rows[at + 1] == own[1]);
    assert(rows[at + 2] == own[2]);
    assert(rows[at + 3] == own[3]);
    assert(rows[at + 4] == own[4]);
    assert(rows[at + 5] == own[5]);
}

/// How many settings a report has, and which they are.
proof fn lemma_setting_rows(report: HumanReport<'_>)
    ensures
        ({
            let m = if report.metric_label is Some {
                1int
            } else {
                0
            };
            let g = if report.governor is Some {
                1int
            } else {
                0
            };
            let rows = rows_of(report);
            &&& settings_of(report).len() == 9 + m + g
            &&& rows.len() == 9 + m + g + 6 * report.results@.len()
            &&& rows[0] == RowText::Entry("package"@, report.package@)
            &&& rows[1] == RowText::Entry("mode"@, report.mode_label@)
            &&& rows[2] == RowText::Entry("profile"@, report.profile@)
            &&& rows[3] == RowText::Entry("reps"@, report.reps_label@)
            &&& report.metric_label matches Some(metric) ==> rows[4] == RowText::Entry(
                "metric"@,
                metric@,
            )
            &&& rows[4 + m] == RowText::Entry("pinning"@, report.pinned_label@)
            &&& report.governor matches Some(governor) ==> rows[5 + m] == RowText::Entry(
                "governor"@,
                if report.governor_set_by_tool {
                    governor@ + " (set for this run)"@
                } else {
                    governor@
                },
            )
            &&& rows[5 + m + g] == RowText::Entry("build"@, report.build@)
            &&& rows[6 + m + g] == RowText::Entry("RUSTFLAGS"@, "-C target-cpu=native"@)
            &&& rows[7 + m + g] == RowText::Entry(
                "base"@,
                report.base.spec@ + " ("@ + report.base.short@ + ")"@,
            )
            &&& rows[8 + m + g] == RowText::Entry(
                "rev"@,
                report.candidate.spec@ + " ("@ + report.candidate.short@ + ")"@,
            )
        }),
{
    if report.results@.len() > 0 {
        lemma_sections(report.results@, 0);
    }
}

/// In the report that is printed every result has six lines of its own, behind the
/// lines of the settings and of the results before it: a rule, then a line for
/// each of the benchmark's name, what the base gave, what the candidate gave, the
/// difference and the verdict, under the keys `benchmark`, `base`, `rev`, `Δ` and
/// `verdict`. The keys are `r.0` wide and the values `r.1`.
pub proof fn law_report_shows_every_result(report: HumanReport<'_>, k: int) -> (r: (nat, nat))
    requires
        0 <= k < report.results@.len(),
    ensures
        ({
            let result = report.results@[k];
            let len = (r.0 + r.1 + 8) as int;
            let settings = 9 + (if report.metric_label is Some {
                1int
            } else {
                0
            }) + (if report.governor is Some {
                1int
            } else {
                0
            });
            let line = |n: int|
                report_text(report).subrange(
                    (1 + settings + 6 * k + n) * len,
                    (1 + settings + 6 * k + n) * len + len,
                );
            let cell = |key: Seq<char>, value: Seq<char>|
                "│ "@ + key + repeat_char(' ', (r.0 - key.len()) as nat) + " │ "@ + value
                    + repeat_char(' ', (r.1 - value.len()) as nat) + " │\n"@;
            &&& "benchmark"@.len() <= r.0 && "verdict"@.len() <= r.0
            &&& result.id@.len() <= r.1 && result.base@.len() <= r.1 && result.candidate@.len()
                <= r.1 && result.delta@.len() <= r.1
            &&& line(0) == "├─"@ + repeat_char('─', r.0) + "─┼─"@ + repeat_char('─', r.1) + "─┤\n"@
            &&& line(1) == cell("benchmark"@, result.id@)
            &&& line(2) == cell("base"@, result.base@)
            &&& line(3) == cell("rev"@, result.candidate@)
            &&& line(4) == cell("Δ"@, result.delta@)
            &&& line(5) == cell(
                "verdict"@,
                match result.verdict {
                    Verdict::Improved => "improved"@,
                    Verdict::Regressed => "REGRESSED"@,
                    Verdict::NoChange => "no change (within noise)"@,
                },
            )
        }),
{
    let result = report.results@[k];
    let at = settings_of(report).len() + 6 * k;
    lemma_setting_rows(report);
    lemma_section_rows(report, k);
    lemma_report_rule(report, at);
    lemma_report_entry(report, at + 1, "benchmark"@, result.id@);
    lemma_report_entry(report, at + 2, "base"@, result.base@);
    lemma_report_entry(report, at + 3, "rev"@, result.candidate@);
    lemma_report_entry(report, at + 4, "Δ"@, result.delta@);
    lemma_report_entry(report, at + 5, "verdict"@, verdict_words(result.verdict));
    (key_width(rows_of(report)), value_width(rows_of(report)))
}

/// The report that is printed begins with a line for each setting: what is
/// compared and how, and, under the keys `base` and `rev`, the revision that is the
/// base and the one that is the candidate. Behind the table it names what only one
/// side has.
pub proof fn law_report_shows_settings(report: HumanReport<'_>) -> (r: (nat, nat))
    ensures
        ({
            let len = (r.0 + r.1 + 8) as int;
            let m = if report.metric_label is Some {
                1int
            } else {
                0
            };
            let g = if report.governor is Some {
                1int
            } else {
                0
            };
            let line = |n: int| report_text(report).subrange(n * len, n * len + len);
            let cell = |key: Seq<char>, value: Seq<char>|
                "│ "@ + key + repeat_char(' ', (r.0 - key.len()) as nat) + " │ "@ + value
                    + repeat_char(' ', (r.1 - value.len()) as nat) + " │\n"@;
            let only = |label: Seq<char>, ids: Seq<Seq<char>>|
                if ids.len() == 0 {
                    Seq::<char>::empty()
                } else {
                    label + join_texts(ids, ", "@) + "\n"@
                };
            &&& line(1) == cell("package"@, report.package@)
            &&& line(2) == cell("mode"@, report.mode_label@)
            &&& line(3) == cell("profile"@, report.profile@)
            &&& line(4) == cell("reps"@, report.reps_label@)
            &&& report.metric_label matches Some(metric) ==> line(5) == cell("metric"@, metric@)
            &&& line(5 + m) == cell("pinning"@, report.pinned_label@)
            &&& report.governor matches Some(governor) ==> line(6 + m) == cell(
                "governor"@,
                if report.governor_set_by_tool {
                    governor@ + " (set for this run)"@
                } else {
                    governor@
                },
            )
            &&& line(6 + m + g) == cell("build"@, report.build@)
            &&& line(7 + m + g) == cell("RUSTFLAGS"@, "-C target-cpu=native"@)
            &&& line(8 + m + g) == cell(
                "base"@,
                report.base.spec@ + " ("@ + report.base.short@ + ")"@,
            )
            &&& line(9 + m + g) == cell(
                "rev"@,
                report.candidate.spec@ + " ("@ + report.candidate.short@ + ")"@,
            )
            &&& report_text(report).skip((11 + m + g + 6 * report.results@.len()) * len) == only(
                "only in base: "@,
                texts(report.only_in_base@),
            ) + only("only in candidate: "@, texts(report.only_in_candidate@))
        }),
{
    let m = if report.metric_label is Some {
        1int
    } else {
        0
    };
    let g = if report.governor is Some {
        1int
    } else {
        0
    };
    lemma_setting_rows(report);
    lemma_report_entry(report, 0, "package"@, report.package@);
    lemma_report_entry(report, 1, "mode"@, report.mode_label@);
    lemma_report_entry(report, 2, "profile"@, report.profile@);
    lemma_report_entry(report, 3, "reps"@, report.reps_label@);
    if let Some(metric) = report.metric_label {
        lemma_report_entry(report, 4, "metric"@, metric@);
    }
    lemma_report_entry(report, 4 + m, "pinning"@, report.pinned_label@);
    if let Some(governor) = report.governor {
        lemma_report_entry(
            report,
            5 + m,
            "governor"@,
            if report.governor_set_by_tool {
                governor@ + " (set for this run)"@
            } else {
                governor@
            },
        );
    }
    lemma_report_entry(report, 5 + m + g, "build"@, report.build@);
    lemma_report_entry(report, 6 + m + g, "RUSTFLAGS"@, "-C target-cpu=native"@);
    lemma_report_entry(
        report,
        7 + m + g,
        "base"@,
        report.base.spec@ + " ("@ + report.base.short@ + ")"@,
    );
    lemma_report_entry(
        report,
        8 + m + g,
        "rev"@,
        report.candidate.spec@ + " ("@ + report.candidate.short@ + ")"@,
    );
    let rest = only_text("only in base: "@, texts(report.only_in_base@)) + only_text(
        "only in candidate: "@,
        texts(report.only_in_candidate@),
    );
    assert(report_text(report) =~= table_text(rows_of(report)) + rest);
    lemma_behind_table(rows_of(report), rest);
    (key_width(rows_of(report)), value_width(rows_of(report)))
}

proof fn lemma_behind_table(rows: Seq<RowText>, rest: Seq<char>)
    ensures
        (table_text(rows) + rest).skip(
            (2 + rows.len() as int) * (key_width(rows) + value_width(rows) + 8) as int,
        ) == rest,
{
    let key_w = key_width(rows);
    let val_w = value_width(rows);
    let l = (key_w + val_w + 8) as int;
    law_table_lines_are_aligned(rows);
    lemma_lines_len(rows, key_w, val_w, l as nat);
    let c = rows.len() as int;
    assert((2 + c) * l == c * l + l + l) by (nonlinear_arith);
    assert((table_text(rows) + rest).skip((2 + c) * l) =~= rest);
}

/// The columns of a table are as wide as their longest text needs, and no wider.
pub proof fn law_columns_fit_their_texts(rows: Seq<RowText>)
    ensures
        forall|i: int|
            0 <= i < rows.len() ==> ((#[trigger] rows[i]) matches RowText::Entry(key, value)
                ==> key.len() <= key_width(rows) && value.len() <= value_width(rows)),
        key_width(rows) == 0 || exists|i: int|
            0 <= i < rows.len() && ((#[trigger] rows[i]) matches RowText::Entry(key, _)
                && key.len() == key_width(rows)),
        value_width(rows) == 0 || exists|i: int|
            0 <= i < rows.len() && ((#[trigger] rows[i]) matches RowText::Entry(_, value)
                && value.len() == value_width(rows)),
    decreases rows.len(),
{
    assert forall|i: int| 0 <= i < rows.len() implies ((
    #[trigger] rows[i]) matches RowText::Entry(key, value) ==> key.len() <= key_width(rows)
        && value.len() <= value_width(rows)) by {
        lemma_widths(rows, i);
    }
    if rows.len() > 0 {
        let front = rows.drop_last();
        law_columns_fit_their_texts(front);
        assert(rows[rows.len() - 1] == rows.last());
        if exists|i: int|
            0 <= i < front.len() && ((#[trigger] front[i]) matches RowText::Entry(key, _)
                && key.len() == key_width(front)) {
            let i = choose|i: int|
                0 <= i < front.len() && ((#[trigger] front[i]) matches RowText::Entry(key, _)
                    && key.len() == key_width(front));
            assert(rows[i] == front[i]);
        }
        if exists|i: int|
            0 <= i < front.len() && ((#[trigger] front[i]) matches RowText::Entry(_, value)
                && value.len() == value_width(front)) {
            let i = choose|i: int|
                0 <= i < front.len() && ((#[trigger] front[i]) matches RowText::Entry(_, value)
                    && value.len() == value_width(front));
            assert(rows[i] == front[i]);
        }
    }
}

/// A table is a box: a line above its rows, a line for every row, and a line below.
/// A row that is an entry shows its key and its value, each with blanks behind it up
/// to the width of its column; any other is a rule.
pub proof fn law_table_is_a_box(rows: Seq<RowText>, i: int)
    ensures
        ({
            let key_w = key_width(rows);
            let val_w = value_width(rows);
            let len = (key_w + val_w + 8) as int;
            let bar = |l: Seq<char>, m: Seq<char>, r: Seq<char>|
                l + repeat_char('─', key_w) + m + repeat_char('─', val_w) + r;
            let text = table_text(rows);
            &&& text.len() == (rows.len() + 2) * len
            &&& text.take(len) == bar("┌─"@, "─┬─"@, "─┐\n"@)
            &&& text.skip(text.len() - len) == bar("└─"@, "─┴─"@, "─┘\n"@)
            &&& 0 <= i < rows.len() ==> text.subrange((1 + i) * len, (1 + i) * len + len) == (
            match rows[i] {
                RowText::Entry(key, value) => "│ "@ + key + repeat_char(
                    ' ',
                    (key_w - key.len()) as nat,
                ) + " │ "@ + value + repeat_char(' ', (val_w - value.len()) as nat) + " │\n"@,
                RowText::Rule => bar("├─"@, "─┼─"@, "─┤\n"@),
            })
        }),
{
    let key_w = key_width(rows);
    let val_w = value_width(rows);
    let len = (key_w + val_w + 8) as int;
    let none: Seq<char> = seq![];
    let text = table_text(rows);
    law_table_lines_are_aligned(rows);
    lemma_lines_len(rows, key_w, val_w, len as nat);
    let c = rows.len() as int;
    assert((c + 2) * len == c * len + len + len) by (nonlinear_arith);
    assert(text.take(len) =~= rule_text("┌─"@, "─┬─"@, "─┐\n"@, key_w, val_w));
    assert(text.skip(text.len() - len) =~= rule_text("└─"@, "─┴─"@, "─┘\n"@, key_w, val_w));
    if 0 <= i < rows.len() {
        lemma_table_line(rows, none, i);
        assert(text + none =~= text);
        lemma_widths(rows, i);
    }
}

/// The rows of a report are its settings, and then for each result, in their order, a
/// rule and its five texts under those of the header.
pub proof fn law_rows_of_a_report(
    settings: Seq<(&'static str, String)>,
    results: Seq<[String; 5]>,
    i: int,
    k: int,
    c: int,
)
    requires
        results.len() > 0,
    ensures
        ({
            let rows = report_rows(settings, results);
            let at = settings.len() + 6 * (k - 1);
            &&& 0 <= i < settings.len() ==> rows[i] == RowText::Entry(settings[i].0@, settings[i].1@)
            &&& 0 < k < results.len() ==> rows[at] is Rule
            &&& 0 < k < results.len() && 0 <= c < 5 ==> rows[at + 1 + c] == RowText::Entry(
                results[0]@[c]@,
                results[k]@[c]@,
            )
        }),
{
    let n = (results.len() - 1) as nat;
    let head = setting_rows(settings);
    if 0 < k < results.len() {
        lemma_result_row(results, n, k);
        let section = result_rows(results, n).subrange(6 * (k - 1), 6 * (k - 1) + 6);
        lemma_result_rows_len(results, n);
        let rows = report_rows(settings, results);
        let at = settings.len() + 6 * (k - 1);
        assert(rows[at] == section[0]);
        if 0 <= c < 5 {
            assert(rows[at + 1 + c] == section[1 + c]);
        }
    }
}

proof fn lemma_result_row(results: Seq<[String; 5]>, n: nat, k: int)
    requires
        0 < k <= n,
    ensures
        result_rows(results, n).len() == 6 * n,
        result_rows(results, n).subrange(6 * (k - 1), 6 * (k - 1) + 6) == seq![
            RowText::Rule,
            RowText::Entry(results[0]@[0]@, results[k]@[0]@),
            RowText::Entry(results[0]@[1]@, results[k]@[1]@),
            RowText::Entry(results[0]@[2]@, results[k]@[2]@),
            RowText::Entry(results[0]@[3]@, results[k]@[3]@),
            RowText::Entry(results[0]@[4]@, results[k]@[4]@),
        ],
    decreases n,
{
    let all = result_rows(results, n);
    let before = result_rows(results, (n - 1) as nat);
    lemma_result_rows_len(results, n);
    lemma_result_rows_len(results, (n - 1) as nat);
    if k < n {
        lemma_result_row(results, (n - 1) as nat, k);
        assert(all.subrange(6 * (k - 1), 6 * (k - 1) + 6) =~= before.subrange(
            6 * (k - 1),
            6 * (k - 1) + 6,
        ));
    } else {
        assert(all.subrange(6 * (k - 1), 6 * (k - 1) + 6) =~= seq![
            RowText::Rule,
            RowText::Entry(results[0]@[0]@, results[k]@[0]@),
            RowText::Entry(results[0]@[1]@, results[k]@[1]@),
            RowText::Entry(results[0]@[2]@, results[k]@[2]@),
            RowText::Entry(results[0]@[3]@, results[k]@[3]@),
            RowText::Entry(results[0]@[4]@, results[k]@[4]@),
        ]);
    }
}

/// A verdict and a metric have these names in a report; that of a metric tells its
/// regex and which way it gets better.
pub proof fn law_words_of_a_report(metric: MetricSource)
    ensures
        verdict_words(Verdict::Improved) == "improved"@,
        verdict_words(Verdict::Regressed) == "REGRESSED"@,
        verdict_words(Verdict::NoChange) == "no change (within noise)"@,
        metric is WallClock ==> metric_words(metric) == "wall-clock (s, lower is better)"@,
        metric matches MetricSource::Regex { raw, higher_is_better, .. } ==> {
            &&& higher_is_better ==> metric_words(metric) == "regex '"@ + raw@
                + "' (higher is better)"@
            &&& !higher_is_better ==> metric_words(metric) == "regex '"@ + raw@
                + "' (lower is better)"@
        },
{
    reveal_strlit("' (");
    reveal_strlit(")");
    reveal_strlit("higher is better");
    reveal_strlit("lower is better");
    reveal_strlit("' (higher is better)");
    reveal_strlit("' (lower is better)");
    if let MetricSource::Regex { raw, higher_is_better, .. } = metric {
        if higher_is_better {
            assert(metric_words(metric) =~= "regex '"@ + raw@ + "' (higher is better)"@);
        } else {
            assert(metric_words(metric) =~= "regex '"@ + raw@ + "' (lower is better)"@);
        }
    }
}

} // verus!
