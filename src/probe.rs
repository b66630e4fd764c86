//! What the library decides about one instance's probe: the outcome of each remote
//! command, the fields read from their outputs, and the instance's result.

use vstd::prelude::*;
use crate::error::MonitorError;
use crate::monitor::outcome_complete;
use crate::text::{chars_of, parse_i32, signed_value, trim_bounds, trimmed};
use crate::types::{parsed_as, InstanceInfo, InstanceResults, ProbeReport, TimeStep};

verus! {

/// The outcome of a remote command that printed `stdout` and `stderr` and exited
/// with `exit_status`: a failure where it exited non-zero and printed something
/// other than white space on `stderr`; else its output, trimmed.
pub fn command_output(stdout: &str, exit_status: i32, stderr: &str) -> (r: Result<
    String,
    MonitorError,
>)
    ensures
        exit_status != 0 && trimmed(stderr@).len() > 0 ==> match r {
            Err(MonitorError::SshCommandFailed { code, stderr: e }) => code == exit_status && e@
                == stderr@,
            _ => false,
        },
        !(exit_status != 0 && trimmed(stderr@).len() > 0) ==> match r {
            Ok(s) => s@ == trimmed(stdout@),
            _ => false,
        },
{
    if exit_status != 0 {
        let es = chars_of(stderr);
        let (a, b) = trim_bounds(&es, 0, es.len());
        assert(es@.subrange(0, es@.len() as int) =~= stderr@);
        if a < b {
            return Err(
                MonitorError::SshCommandFailed {
                    code: exit_status,
                    stderr: String::from_str(stderr),
                },
            );
        }
    }
    let os = chars_of(stdout);
    let (a, b) = trim_bounds(&os, 0, os.len());
    assert(os@.subrange(0, os@.len() as int) =~= stdout@);
    Ok(String::from_str(stdout.substring_char(a, b)))
}

/// The count of result files that a command printed: its trimmed output read as an
/// `i32`, or 0 where it does not read as one.
pub open spec fn csv_count_of(text: Seq<char>) -> i32 {
    let v = signed_value(trimmed(text));
    if v is Some && i32::MIN <= v->0 <= i32::MAX {
        v->0 as i32
    } else {
        0
    }
}

/// Reads the count of result files from a command's output.
pub fn parse_csv_count(text: &str) -> (r: i32)
    ensures
        r == csv_count_of(text@),
{
    let cs = chars_of(text);
    let (a, b) = trim_bounds(&cs, 0, cs.len());
    assert(cs@.subrange(0, cs@.len() as int) =~= text@);
    match parse_i32(&cs, a, b) {
        Some(v) => v,
        None => 0,
    }
}

/// The stage an instance is running, from the outputs of the process checks for
/// `s3 sync`, `finalize` and `zcsvs`: the first, in that order, that printed
/// anything; `none` where none did.
pub open spec fn stage_of(s3_sync: Seq<char>, finalize: Seq<char>, zcsvs: Seq<char>) -> Seq<char> {
    if s3_sync.len() > 0 {
        "s3 sync"@
    } else if finalize.len() > 0 {
        "finalize"@
    } else if zcsvs.len() > 0 {
        "zcsvs"@
    } else {
        "none"@
    }
}

/// Names the stage an instance is running from its process checks' outputs.
pub fn current_process(s3_sync: &str, finalize: &str, zcsvs: &str) -> (r: String)
    ensures
        r@ == stage_of(s3_sync@, finalize@, zcsvs@),
{
    if s3_sync.unicode_len() > 0 {
        String::from_str("s3 sync")
    } else if finalize.unicode_len() > 0 {
        String::from_str("finalize")
    } else if zcsvs.unicode_len() > 0 {
        String::from_str("zcsvs")
    } else {
        String::from_str("none")
    }
}

/// A copy of an optional text.
pub fn copy_text(o: &Option<String>) -> (r: Option<String>)
    ensures
        r == *o,
{
    match o {
        Some(s) => Some(s.clone()),
        None => None,
    }
}

/// The result of one instance's probe. An instance without a public address
/// yields `NoPublicIp` whatever `probe` holds; a failed probe yields its error;
/// otherwise the progress record is read against the instance's name, and either
/// its error or the full set of fields comes back.
pub fn process_instance(instance: &InstanceInfo, probe: Result<ProbeReport, MonitorError>) -> (r:
    Result<InstanceResults, MonitorError>)
    ensures
        instance.public_ip is None ==> (r matches Err(MonitorError::NoPublicIp)),
        instance.public_ip is Some ==> match probe {
            Err(e) => r == Err::<InstanceResults, MonitorError>(e),
            Ok(p) => match r {
                Ok(res) => {
                    &&& res.timestep_result is Some
                    &&& parsed_as(instance.name@, p.timestep@, Ok(res.timestep_result->0))
                    &&& res.instance_id == instance.instance_id
                    &&& res.public_ip == instance.public_ip
                    &&& res.name == instance.name
                    &&& res.instance_type == instance.instance_type
                    &&& res.csv_count == Some(p.csv_count)
                    &&& res.free_disk_space == Some(p.free_disk_space)
                    &&& res.current_process == Some(p.current_process)
                    &&& res.eta is None
                    &&& res.connection_error is None
                },
                Err(e) => parsed_as(instance.name@, p.timestep@, Err(e)),
            },
        },
        match r {
            Ok(res) => outcome_complete(Ok(Ok(res))),
            Err(_) => true,
        },
{
    if instance.public_ip.is_none() {
        return Err(MonitorError::NoPublicIp);
    }
    let p = match probe {
        Ok(p) => p,
        Err(e) => {
            return Err(e);
        },
    };
    let ts = match TimeStep::new(instance.name.as_str(), p.timestep.as_str()) {
        Ok(ts) => ts,
        Err(e) => {
            return Err(e);
        },
    };
    Ok(
        InstanceResults {
            instance_id: instance.instance_id.clone(),
            public_ip: copy_text(&instance.public_ip),
            name: instance.name.clone(),
            instance_type: instance.instance_type.clone(),
            timestep_result: Some(ts),
            csv_count: Some(p.csv_count),
            free_disk_space: Some(p.free_disk_space),
            current_process: Some(p.current_process),
            eta: None,
            connection_error: None,
        },
    )
}

} // verus!
