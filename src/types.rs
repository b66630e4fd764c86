//! The instances, their progress samples and the per-cycle results.

use vstd::prelude::*;
use crate::error::MonitorError;
use crate::text::{
    chars_of, range_equals, find_either, first_index_of, is_float_text, is_float_text_exec,
    lemma_first_index_of, parse_u64, skip_label, trim_bounds, trimmed, unsigned_value,
};

verus! {

/// A monitored instance, as the inventory reports it.
#[derive(Debug, Default, Clone)]
pub struct InstanceInfo {
    pub instance_id: String,
    pub name: String,
    pub instance_type: String,
    pub public_ip: Option<String>,
    pub private_ip: Option<String>,
}

/// One tag of an inventory record: its key and its value, either of which may be
/// missing.
pub type Tag = (Option<String>, Option<String>);

/// The value of the first tag keyed `Name`: `None` where no tag has that key,
/// `Some(None)` where the first such tag has no value.
pub open spec fn name_tag(tags: Seq<Tag>) -> Option<Option<String>>
    decreases tags.len(),
{
    if tags.len() == 0 {
        None
    } else if tags[0].0 is Some && tags[0].0->0@ == "Name"@ {
        Some(tags[0].1)
    } else {
        name_tag(tags.drop_first())
    }
}

/// The text of an optional field, or `unknown` where it is missing.
pub open spec fn or_unknown(t: Option<String>) -> Seq<char> {
    match t {
        Some(s) => s@,
        None => "unknown"@,
    }
}

fn text_or_unknown(t: Option<String>) -> (r: String)
    ensures
        r@ == or_unknown(t),
{
    match t {
        Some(s) => s,
        None => String::from_str("unknown"),
    }
}

impl InstanceInfo {
    /// The instance described by an inventory record's fields: a missing id or type
    /// reads as `unknown`, and the name is the value of the first `Name` tag, or the
    /// id where there is none.
    pub fn from_inventory(
        instance_id: Option<String>,
        tags: Vec<Tag>,
        instance_type: Option<String>,
        public_ip: Option<String>,
        private_ip: Option<String>,
    ) -> (r: InstanceInfo)
        ensures
            r.instance_id@ == or_unknown(instance_id),
            r.name@ == match name_tag(tags@) {
                Some(Some(v)) => v@,
                _ => or_unknown(instance_id),
            },
            r.instance_type@ == or_unknown(instance_type),
            r.public_ip == public_ip,
            r.private_ip == private_ip,
    {
        let id = text_or_unknown(instance_id);
        let name_key = String::from_str("Name");
        let mut found: Option<Option<String>> = None;
        let mut rest = tags;
        let ghost all = rest@;
        while found.is_none() && rest.len() > 0
            invariant
                name_key@ == "Name"@,
                found is None ==> name_tag(all) == name_tag(rest@),
                found is Some ==> name_tag(all) == found,
            decreases rest@.len(),
        {
            let ghost before = rest@;
            let (key, value) = rest.remove(0);
            assert(before.drop_first() =~= rest@);
            let is_name = match &key {
                Some(k) => *k == name_key,
                None => false,
            };
            if is_name {
                found = Some(value);
            }
        }
        assert(found is None ==> rest@.len() == 0);
        let name = match found {
            Some(Some(v)) => v,
            _ => id.clone(),
        };
        InstanceInfo {
            instance_id: id,
            name,
            instance_type: text_or_unknown(instance_type),
            public_ip,
            private_ip,
        }
    }
}

/// What one cycle found on an instance: its identity, then either the probe's
/// fields or, in `connection_error`, the one error that superseded them.
#[derive(Debug, Default)]
pub struct InstanceResults {
    pub instance_id: String,
    pub public_ip: Option<String>,
    pub name: String,
    pub instance_type: String,
    pub timestep_result: Option<TimeStep>,
    pub csv_count: Option<i32>,
    pub free_disk_space: Option<String>,
    pub current_process: Option<String>,
    pub eta: Option<String>,
    pub connection_error: Option<String>,
}

/// The raw fields that a probe of an instance read: its latest progress record,
/// the count of its result files, its free disk space and its running stage.
#[derive(Debug, Default, Clone)]
pub struct ProbeReport {
    pub timestep: String,
    pub csv_count: i32,
    pub free_disk_space: String,
    pub current_process: String,
}

/// One progress sample of an instance. `time` is the elapsed simulation time as the
/// progress record writes it (a text that reads as a floating-point number);
/// `step_increase` is the step delta against the previous sample of the same
/// instance, `None` for a first observation.
#[derive(Debug, Default, Clone)]
pub struct TimeStep {
    pub step: u64,
    pub time: String,
    pub total_step: u64,
    pub step_increase: Option<u64>,
}

/// Why a progress record without a `:` is rejected.
pub const MISSING_SEPARATOR: &'static str = "the progress record holds no ':'";

/// Length of the label (`TimeStep`) that opens the step field of a progress record.
pub const STEP_LABEL_LEN: usize = 8;

/// Length of the separator and label (`: Time`) that open the time field.
pub const TIME_LABEL_LEN: usize = 6;

/// The token after the last `_` of `s`; all of `s` where it holds no `_`.
pub open spec fn last_token(s: Seq<char>) -> Seq<char>
    decreases s.len(),
{
    if s.len() == 0 {
        s
    } else if s.last() == '_' {
        Seq::empty()
    } else {
        last_token(s.drop_last()).push(s.last())
    }
}

/// The total step count of a run, keyed by the wind-speed token of its category label.
pub open spec fn total_steps_of(token: Seq<char>) -> Option<u64> {
    if token == "2ms"@ {
        Some(24_000)
    } else if token == "7ms"@ || token == "12ms"@ || token == "17ms"@ {
        Some(18_000)
    } else {
        None
    }
}

/// The step text of a progress record: before the first `:`, past the label, trimmed.
pub open spec fn step_text(line: Seq<char>) -> Seq<char> {
    trimmed(skip_label(line.take(first_index_of(line, ':') as int), STEP_LABEL_LEN as nat))
}

/// The time text of a progress record: from the first `:`, past the label, trimmed.
pub open spec fn time_text(line: Seq<char>) -> Seq<char> {
    trimmed(skip_label(line.skip(first_index_of(line, ':') as int), TIME_LABEL_LEN as nat))
}

/// The index where the token after the last `_` of `s[..to]` starts.
fn last_token_start(s: &Vec<char>, to: usize) -> (r: usize)
    requires
        to <= s@.len(),
    ensures
        r <= to,
        s@.subrange(r as int, to as int) == last_token(s@.take(to as int)),
{
    let mut i = to;
    while i > 0 && s[i - 1] != '_'
        invariant
            i <= to <= s@.len(),
            s@.subrange(i as int, to as int) == last_token(s@.take(to as int)).skip(
                last_token(s@.take(to as int)).len() - (to - i),
            ),
            last_token(s@.take(to as int)).len() >= to - i,
            forall|j: int| i <= j < to ==> s@[j] != '_',
        decreases i,
    {
        i = i - 1;
        proof {
            lemma_last_token_suffix(s@.take(to as int), i as int);
        }
    }
    proof {
        lemma_last_token_suffix(s@.take(to as int), i as int);
    }
    i
}

proof fn lemma_last_token_suffix(s: Seq<char>, i: int)
    requires
        0 <= i <= s.len(),
        forall|j: int| i <= j < s.len() ==> s[j] != '_',
    ensures
        last_token(s).len() >= s.len() - i,
        s.skip(i) == last_token(s).skip(last_token(s).len() - (s.len() - i)),
        (i == 0 || s[i - 1] == '_') ==> s.skip(i) == last_token(s),
    decreases s.len(),
{
    if s.len() == 0 {
        assert(s.skip(i) =~= last_token(s).skip(0));
    } else if i == s.len() {
        assert(s.skip(i) =~= last_token(s).skip(last_token(s).len() as int));
        if s[i - 1] == '_' {
            assert(s.skip(i) =~= last_token(s));
        }
    } else {
        let t = s.drop_last();
        lemma_last_token_suffix(t, i);
        assert(s.skip(i) =~= t.skip(i).push(s.last()));
        let lt = last_token(t);
        assert(last_token(s) == lt.push(s.last()));
        assert(lt.push(s.last()).skip(lt.len() + 1 - (s.len() - i)) =~= lt.skip(
            lt.len() - (t.len() - i),
        ).push(s.last()));
        if i == 0 || s[i - 1] == '_' {
            assert(t.skip(i) == lt);
            assert(s.skip(i) =~= last_token(s));
        }
    }
}


/// The step number of a progress record, where its step text reads as one.
pub open spec fn step_value(line: Seq<char>) -> Option<u64> {
    let v = unsigned_value(step_text(line));
    if v is Some && v->0 <= u64::MAX {
        Some(v->0 as u64)
    } else {
        None
    }
}

pub open spec fn has_colon(line: Seq<char>) -> bool {
    first_index_of(line, ':') < line.len()
}

/// `r` is what reading the progress record `line` of an instance with category
/// label `case` gives: the error of the first check that fails (wind-speed token,
/// `:` separator, step number, time number), else the sample.
pub open spec fn parsed_as(
    case: Seq<char>,
    line: Seq<char>,
    r: Result<TimeStep, MonitorError>,
) -> bool {
    let token = last_token(case);
    &&& total_steps_of(token) is None ==> match r {
        Err(MonitorError::InvalidWindSpeed { speed }) => speed@ == token,
        _ => false,
    }
    &&& total_steps_of(token) is Some && !has_colon(line) ==> match r {
        Err(MonitorError::TimestepParsing { reason }) => reason@ == MISSING_SEPARATOR@,
        _ => false,
    }
    &&& total_steps_of(token) is Some && has_colon(line) && step_value(line) is None ==> match r {
        Err(MonitorError::ParseInt { text }) => text@ == step_text(line),
        _ => false,
    }
    &&& total_steps_of(token) is Some && has_colon(line) && step_value(line) is Some
        && !is_float_text(time_text(line)) ==> match r {
        Err(MonitorError::ParseFloat { text }) => text@ == time_text(line),
        _ => false,
    }
    &&& total_steps_of(token) is Some && has_colon(line) && step_value(line) is Some
        && is_float_text(time_text(line)) ==> match r {
        Ok(ts) => ts.step == step_value(line)->0 && ts.time@ == time_text(line) && ts.total_step
            == total_steps_of(token)->0 && ts.step_increase is None,
        _ => false,
    }
}

fn wind_speed_total(s: &Vec<char>, from: usize, to: usize) -> (r: Option<u64>)
    requires
        from <= to <= s@.len(),
    ensures
        r == total_steps_of(s@.subrange(from as int, to as int)),
{
    if range_equals(s, from, to, "2ms") {
        Some(24_000)
    } else if range_equals(s, from, to, "7ms") || range_equals(s, from, to, "12ms")
        || range_equals(s, from, to, "17ms") {
        Some(18_000)
    } else {
        None
    }
}

impl TimeStep {
    /// A copy of this sample.
    pub fn duplicate(&self) -> (r: TimeStep)
        ensures
            r == *self,
    {
        TimeStep {
            step: self.step,
            time: self.time.clone(),
            total_step: self.total_step,
            step_increase: self.step_increase,
        }
    }

    /// Reads the progress record `time_step` of the instance whose category label
    /// is `case`. The label's last `_`-delimited token names the wind speed, which
    /// fixes the total step count; the record holds a step field and, after the
    /// first `:`, a time field.
    pub fn new(case: &str, time_step: &str) -> (r: Result<TimeStep, MonitorError>)
        ensures
            parsed_as(case@, time_step@, r),
    {
        let cs = chars_of(case);
        let clen = cs.len();
        let t0 = last_token_start(&cs, clen);
        assert(cs@.take(clen as int) =~= case@);
        let total = match wind_speed_total(&cs, t0, clen) {
            Some(t) => t,
            None => {
                let speed = String::from_str(case.substring_char(t0, clen));
                return Err(MonitorError::InvalidWindSpeed { speed });
            },
        };
        let ls = chars_of(time_step);
        let n = ls.len();
        let colon = find_either(&ls, 0, n, ':', ':');
        proof {
            lemma_first_index_of(time_step@, ':', colon as int);
        }
        if colon == n {
            return Err(
                MonitorError::TimestepParsing {
                    reason: String::from_str(MISSING_SEPARATOR),
                },
            );
        }
        let step_from = if colon >= STEP_LABEL_LEN {
            STEP_LABEL_LEN
        } else {
            colon
        };
        assert(skip_label(time_step@.take(colon as int), STEP_LABEL_LEN as nat) =~= ls@.subrange(
            step_from as int,
            colon as int,
        ));
        let (sa, sb) = trim_bounds(&ls, step_from, colon);
        let step = match parse_u64(&ls, sa, sb) {
            Some(v) => v,
            None => {
                let text = String::from_str(time_step.substring_char(sa, sb));
                return Err(MonitorError::ParseInt { text });
            },
        };
        let time_from = if n - colon >= TIME_LABEL_LEN {
            colon + TIME_LABEL_LEN
        } else {
            n
        };
        assert(skip_label(time_step@.skip(colon as int), TIME_LABEL_LEN as nat) =~= ls@.subrange(
            time_from as int,
            n as int,
        ));
        let (ta, tb) = trim_bounds(&ls, time_from, n);
        let time = String::from_str(time_step.substring_char(ta, tb));
        if !is_float_text_exec(&ls, ta, tb) {
            return Err(MonitorError::ParseFloat { text: time });
        }
        Ok(TimeStep { step, time, total_step: total, step_increase: None })
    }
}

} // verus!
