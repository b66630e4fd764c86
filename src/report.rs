//! The content of the cycle report: one row of cells per instance and the
//! summary counts. Laying the cells out is left to the caller.

use vstd::prelude::*;
use crate::error::{push_signed_decimal, signed_decimal};
use crate::eta::median_text;
use crate::monitor::MonitorState;
use crate::types::InstanceResults;

verus! {

/// Widest text a column shows whole.
pub const COLUMN_WIDTH: usize = 18;

/// Characters kept of a text too wide for its column.
pub const COLUMN_KEEP: usize = 15;

/// `t` cut to fit a column: past `COLUMN_WIDTH` characters, its first `COLUMN_KEEP`
/// and `...`.
pub open spec fn column_text(t: Seq<char>) -> Seq<char> {
    if t.len() > COLUMN_WIDTH {
        t.take(COLUMN_KEEP as int) + "..."@
    } else {
        t
    }
}

/// Cuts `text` to fit a report column.
pub fn fit_column(text: &str) -> (r: String)
    ensures
        r@ == column_text(text@),
{
    if text.unicode_len() > COLUMN_WIDTH {
        String::from_str(text.substring_char(0, COLUMN_KEEP)).concat("...")
    } else {
        String::from_str(text)
    }
}

/// The cell of a field that could not be read.
pub open spec fn failed_cell() -> Seq<char> {
    "❌ Failed"@
}

/// The cell of an instance's running stage.
pub open spec fn process_cell(p: Option<String>) -> Seq<char> {
    match p {
        None => failed_cell(),
        Some(s) => if s@ == "zcsvs"@ {
            "🟢 zcsvs"@
        } else if s@ == "finalize"@ {
            "🟡 finalize"@
        } else if s@ == "s3 sync"@ {
            "🔵 s3 sync"@
        } else if s@ == "none"@ {
            "⚪ none"@
        } else {
            s@
        },
    }
}

/// The cell of an instance's running stage.
pub fn process_label(process: &Option<String>) -> (r: String)
    ensures
        r@ == process_cell(*process),
{
    match process {
        None => String::from_str("❌ Failed"),
        Some(s) => {
            if *s == String::from_str("zcsvs") {
                String::from_str("🟢 zcsvs")
            } else if *s == String::from_str("finalize") {
                String::from_str("🟡 finalize")
            } else if *s == String::from_str("s3 sync") {
                String::from_str("🔵 s3 sync")
            } else if *s == String::from_str("none") {
                String::from_str("⚪ none")
            } else {
                s.clone()
            }
        },
    }
}

/// The cell of a count of result files.
pub open spec fn count_cell(c: Option<i32>) -> Seq<char> {
    match c {
        Some(v) => signed_decimal(v as int),
        None => failed_cell(),
    }
}

/// The cell of an optional text field.
pub open spec fn text_cell(t: Option<String>) -> Seq<char> {
    match t {
        Some(s) => s@,
        None => failed_cell(),
    }
}

/// The cells of one instance's row. The progress cell is not among them: `failed`
/// tells whether it shows the failure, else it shows the instance's sample.
pub struct ReportRow {
    pub name: String,
    pub median_eta: String,
    pub csv_count: String,
    pub free_disk: String,
    pub process: String,
    pub status: String,
    pub failed: bool,
}

/// The row of `result`, its median estimate taken from the history in `state`.
pub fn report_row(state: &MonitorState, result: &InstanceResults) -> (r: ReportRow)
    requires
        state.wf(),
    ensures
        r.name@ == column_text(result.name@),
        r.median_eta@ == match median_text(state.history(result.name@)) {
            Some(t) => t,
            None => "N/A"@,
        },
        r.failed == result.connection_error is Some,
        r.failed ==> {
            &&& r.csv_count@ == failed_cell()
            &&& r.free_disk@ == failed_cell()
            &&& r.process@ == failed_cell()
            &&& r.status@ == column_text(result.connection_error->0@)
        },
        !r.failed ==> {
            &&& r.csv_count@ == count_cell(result.csv_count)
            &&& r.free_disk@ == text_cell(result.free_disk_space)
            &&& r.process@ == process_cell(result.current_process)
            &&& r.status@ == "✅ Success"@
        },
{
    let name = fit_column(result.name.as_str());
    let median_eta = match state.median_eta(&result.name) {
        Some(m) => m,
        None => String::from_str("N/A"),
    };
    match &result.connection_error {
        Some(e) => ReportRow {
            name,
            median_eta,
            csv_count: String::from_str("❌ Failed"),
            free_disk: String::from_str("❌ Failed"),
            process: String::from_str("❌ Failed"),
            status: fit_column(e.as_str()),
            failed: true,
        },
        None => {
            let csv_count = match result.csv_count {
                Some(c) => {
                    let mut s = String::new();
                    push_signed_decimal(&mut s, c);
                    assert(s@ =~= signed_decimal(c as int));
                    s
                },
                None => String::from_str("❌ Failed"),
            };
            let free_disk = match &result.free_disk_space {
                Some(d) => d.clone(),
                None => String::from_str("❌ Failed"),
            };
            ReportRow {
                name,
                median_eta,
                csv_count,
                free_disk,
                process: process_label(&result.current_process),
                status: String::from_str("✅ Success"),
                failed: false,
            }
        },
    }
}

/// How many of `rs` satisfy `f`.
pub open spec fn count_where(rs: Seq<InstanceResults>, f: spec_fn(InstanceResults) -> bool) -> nat
    decreases rs.len(),
{
    if rs.len() == 0 {
        0
    } else {
        count_where(rs.drop_last(), f) + if f(rs.last()) {
            1nat
        } else {
            0nat
        }
    }
}

/// The result reached its instance.
pub open spec fn succeeded() -> spec_fn(InstanceResults) -> bool {
    |r: InstanceResults| r.connection_error is None
}

/// The result's instance runs the stage `stage`.
pub open spec fn runs(stage: Seq<char>) -> spec_fn(InstanceResults) -> bool {
    |r: InstanceResults| r.current_process is Some && r.current_process->0@ == stage
}

/// The counts of a cycle's summary line.
pub struct CycleSummary {
    pub total: usize,
    pub successful: usize,
    pub zcsvs: usize,
    pub finalize: usize,
    pub s3_sync: usize,
    pub idle: usize,
}

fn runs_exec(r: &InstanceResults, stage: &String) -> (b: bool)
    ensures
        b == runs(stage@)(*r),
{
    match &r.current_process {
        Some(p) => *p == *stage,
        None => false,
    }
}

/// Counts a cycle's results: all of them, those that reached their instance, and
/// those running each stage.
pub fn summarize(results: &[InstanceResults]) -> (r: CycleSummary)
    ensures
        r.total == results@.len(),
        r.successful == count_where(results@, succeeded()),
        r.zcsvs == count_where(results@, runs("zcsvs"@)),
        r.finalize == count_where(results@, runs("finalize"@)),
        r.s3_sync == count_where(results@, runs("s3 sync"@)),
        r.idle == count_where(results@, runs("none"@)),
{
    let zcsvs = String::from_str("zcsvs");
    let finalize = String::from_str("finalize");
    let s3_sync = String::from_str("s3 sync");
    let none = String::from_str("none");
    let mut r = CycleSummary {
        total: 0,
        successful: 0,
        zcsvs: 0,
        finalize: 0,
        s3_sync: 0,
        idle: 0,
    };
    let mut i: usize = 0;
    while i < results.len()
        invariant
            i <= results@.len(),
            zcsvs@ == "zcsvs"@,
            finalize@ == "finalize"@,
            s3_sync@ == "s3 sync"@,
            none@ == "none"@,
            r.total == i,
            r.successful == count_where(results@.take(i as int), succeeded()),
            r.zcsvs == count_where(results@.take(i as int), runs("zcsvs"@)),
            r.finalize == count_where(results@.take(i as int), runs("finalize"@)),
            r.s3_sync == count_where(results@.take(i as int), runs("s3 sync"@)),
            r.idle == count_where(results@.take(i as int), runs("none"@)),
            r.successful <= i && r.zcsvs <= i && r.finalize <= i && r.s3_sync <= i && r.idle <= i,
        decreases results@.len() - i,
    {
        let x = &results[i];
        assert(results@.take(i + 1).drop_last() =~= results@.take(i as int));
        assert(results@.take(i + 1).last() == *x);
        r.total = r.total + 1;
        if x.connection_error.is_none() {
            r.successful = r.successful + 1;
        }
        if runs_exec(x, &zcsvs) {
            r.zcsvs = r.zcsvs + 1;
        }
        if runs_exec(x, &finalize) {
            r.finalize = r.finalize + 1;
        }
        if runs_exec(x, &s3_sync) {
            r.s3_sync = r.s3_sync + 1;
        }
        if runs_exec(x, &none) {
            r.idle = r.idle + 1;
        }
        i = i + 1;
    }
    assert(results@.take(i as int) =~= results@);
    r
}

} // verus!
