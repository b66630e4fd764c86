//! The errors of one instance's processing.

use vstd::prelude::*;
use crate::text::{decimal, push_decimal};

verus! {

/// Why an instance could not be processed in a cycle. Outside failures (transport,
/// environment, task join) carry their description as text.
#[derive(Debug)]
pub enum MonitorError {
    AwsSdk(String),
    SshConnection(String),
    Io(String),
    Env(String),
    /// A field that should hold an unsigned integer holds this text.
    ParseInt { text: String },
    /// A field that should hold a number holds this text.
    ParseFloat { text: String },
    NoPublicIp,
    KeyFileNotFound { path: String },
    AuthenticationFailed,
    /// The category label ends in a token that names no known wind speed.
    InvalidWindSpeed { speed: String },
    SshCommandFailed { code: i32, stderr: String },
    TimestepParsing { reason: String },
    TaskJoin(String),
    TmuxLaunchFailed { reason: String },
}

/// The decimal text of an `i32`, with a `-` where it is negative.
pub open spec fn signed_decimal(v: int) -> Seq<char> {
    if v < 0 {
        seq!['-'] + decimal((-v) as nat)
    } else {
        decimal(v as nat)
    }
}

/// Appends the decimal text of `v` to `s`.
pub fn push_signed_decimal(s: &mut String, v: i32)
    ensures
        final(s)@ == old(s)@ + signed_decimal(v as int),
{
    if v < 0 {
        s.append("-");
        proof {
            reveal_strlit("-");
        }
        push_decimal(s, (-(v as i64)) as u128);
    } else {
        push_decimal(s, v as u128);
    }
    assert(final(s)@ =~= old(s)@ + signed_decimal(v as int));
}

/// The text that describes each error.
pub open spec fn error_message(e: MonitorError) -> Seq<char> {
    match e {
        MonitorError::AwsSdk(s) => "AWS SDK error: "@ + s@,
        MonitorError::SshConnection(s) => "SSH connection error: "@ + s@,
        MonitorError::Io(s) => "IO error: "@ + s@,
        MonitorError::Env(s) => "Environment variable error: "@ + s@,
        MonitorError::ParseInt { text } => "Parse int error: invalid integer '"@ + text@ + "'"@,
        MonitorError::ParseFloat { text } => "Parse float error: invalid number '"@ + text@
            + "'"@,
        MonitorError::NoPublicIp => "No public IP available for instance"@,
        MonitorError::KeyFileNotFound { path } => "SSH key file not found: "@ + path@,
        MonitorError::AuthenticationFailed => "SSH authentication failed"@,
        MonitorError::InvalidWindSpeed { speed } => "Invalid wind speed: "@ + speed@
            + ". Valid speeds are 2m/s, 7m/s, 12m/s, or 17m/s"@,
        MonitorError::SshCommandFailed { code, stderr } => "SSH command failed with exit code "@
            + signed_decimal(code as int) + ": "@ + stderr@,
        MonitorError::TimestepParsing { reason } => "Timestep parsing failed: "@ + reason@,
        MonitorError::TaskJoin(s) => "Task join error: "@ + s@,
        MonitorError::TmuxLaunchFailed { reason } => "Tmux session launch failed: "@ + reason@,
    }
}

fn text_after(prefix: &str, s: &String) -> (r: String)
    ensures
        r@ == prefix@ + s@,
{
    String::from_str(prefix).concat(s.as_str())
}

impl MonitorError {
    /// The description of this error, as it is shown to the user.
    pub fn message(&self) -> (r: String)
        ensures
            r@ == error_message(*self),
    {
        match self {
            MonitorError::AwsSdk(s) => text_after("AWS SDK error: ", s),
            MonitorError::SshConnection(s) => text_after("SSH connection error: ", s),
            MonitorError::Io(s) => text_after("IO error: ", s),
            MonitorError::Env(s) => text_after("Environment variable error: ", s),
            MonitorError::ParseInt { text } => text_after(
                "Parse int error: invalid integer '",
                text,
            ).concat("'"),
            MonitorError::ParseFloat { text } => text_after(
                "Parse float error: invalid number '",
                text,
            ).concat("'"),
            MonitorError::NoPublicIp => String::from_str("No public IP available for instance"),
            MonitorError::KeyFileNotFound { path } => text_after("SSH key file not found: ", path),
            MonitorError::AuthenticationFailed => String::from_str("SSH authentication failed"),
            MonitorError::InvalidWindSpeed { speed } => text_after(
                "Invalid wind speed: ",
                speed,
            ).concat(". Valid speeds are 2m/s, 7m/s, 12m/s, or 17m/s"),
            MonitorError::SshCommandFailed { code, stderr } => {
                let mut r = String::from_str("SSH command failed with exit code ");
                push_signed_decimal(&mut r, *code);
                r.append(": ");
                r.append(stderr.as_str());
                assert(r@ =~= error_message(*self));
                r
            },
            MonitorError::TimestepParsing { reason } => text_after(
                "Timestep parsing failed: ",
                reason,
            ),
            MonitorError::TaskJoin(s) => text_after("Task join error: ", s),
            MonitorError::TmuxLaunchFailed { reason } => text_after(
                "Tmux session launch failed: ",
                reason,
            ),
        }
    }
}

} // verus!
