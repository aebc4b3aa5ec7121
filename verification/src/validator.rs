use vstd::prelude::*;
use crate::config::{CommandConfig, Config, spec_lookup_command};
use crate::error::PermissionError;

verus! {

/// The outcome of one identity lookup, as the external identity oracle
/// answered it. `Failed` means the lookup mechanism itself failed, which
/// is kept distinct from a definitive no: a lookup outage must neither be
/// mistaken for "not found" nor allow a grant on an unchecked condition.
#[derive(Clone, Copy, PartialEq, Eq, Structural, Debug)]
pub enum LookupAnswer {
    Yes,
    No,
    Failed,
}

/// What the validation pipeline decides for a grant request, checked in
/// order: the command must be configured, the duration positive and
/// within the policy's maximum, the user must exist, and the user must be
/// a member of every required group; the first failure wins.
pub enum ValidationVerdict {
    Allow,
    CommandNotAllowed,
    InvalidDuration { max_minutes: int },
    UserLookupFailed,
    UserNotFound,
    GroupLookupFailed { index: int },
    GroupNotMet { index: int },
}

/// The verdict of the group checks from position `i` on: the first
/// answer that is not a definite yes decides.
pub open spec fn group_verdict(answers: Seq<LookupAnswer>, i: int) -> ValidationVerdict
    decreases answers.len() - i,
{
    if i < 0 || i >= answers.len() {
        ValidationVerdict::Allow
    } else {
        match answers[i] {
            LookupAnswer::Yes => group_verdict(answers, i + 1),
            LookupAnswer::No => ValidationVerdict::GroupNotMet { index: i },
            LookupAnswer::Failed => ValidationVerdict::GroupLookupFailed { index: i },
        }
    }
}

/// The verdict for a grant request, given the policy configuration and
/// the identity oracle's answers: one answer for the user's existence,
/// and one per required group of the command's policy.
pub open spec fn validation_verdict(
    cmds: Seq<(String, CommandConfig)>,
    command: Seq<char>,
    duration_minutes: int,
    user_exists: LookupAnswer,
    groups: Seq<LookupAnswer>,
) -> ValidationVerdict {
    match spec_lookup_command(cmds, command) {
        None => ValidationVerdict::CommandNotAllowed,
        Some(p) => {
            if !(0 < duration_minutes <= p.max_duration) {
                ValidationVerdict::InvalidDuration { max_minutes: p.max_duration as int }
            } else {
                match user_exists {
                    LookupAnswer::Failed => ValidationVerdict::UserLookupFailed,
                    LookupAnswer::No => ValidationVerdict::UserNotFound,
                    LookupAnswer::Yes => group_verdict(groups, 0),
                }
            }
        },
    }
}

/// The required group at the given position of the command's policy.
pub open spec fn required_group_at(
    cmds: Seq<(String, CommandConfig)>,
    command: Seq<char>,
    i: int,
) -> Seq<char> {
    match spec_lookup_command(cmds, command) {
        Some(p) => p.required_groups@[i]@,
        None => Seq::empty(),
    }
}

/// True when the error is the one owed for the verdict, carrying the
/// offending request data.
pub open spec fn error_reports_verdict(
    v: ValidationVerdict,
    e: PermissionError,
    username: Seq<char>,
    command: Seq<char>,
    cmds: Seq<(String, CommandConfig)>,
) -> bool {
    match v {
        ValidationVerdict::Allow => false,
        ValidationVerdict::CommandNotAllowed => e matches PermissionError::CommandNotAllowed(c)
            && c@ == command,
        ValidationVerdict::InvalidDuration { max_minutes } => e matches
            PermissionError::InvalidDuration { max_minutes: m } && m == max_minutes,
        ValidationVerdict::UserLookupFailed => e matches PermissionError::SystemCommand { cmd }
            && cmd@ == "id"@,
        ValidationVerdict::UserNotFound => e matches PermissionError::UserNotFound(u) && u@
            == username,
        ValidationVerdict::GroupLookupFailed { index } => e matches
            PermissionError::SystemCommand { cmd } && cmd@ == "groups"@,
        ValidationVerdict::GroupNotMet { index } => e matches
            PermissionError::GroupRequirementNotMet { user, group } && user@ == username && group@
            == required_group_at(cmds, command, index),
    }
}

/// Gate a grant request against the policy configuration and the
/// identity oracle's answers. Read-only: validation has no side effects.
///
/// The caller supplies one membership answer per required group of the
/// command's policy, in the policy's order.
pub fn validate(
    config: &Config,
    username: &str,
    command: &str,
    duration_minutes: i64,
    user_exists: LookupAnswer,
    group_memberships: &Vec<LookupAnswer>,
) -> (r: Result<(), PermissionError>)
    requires
        spec_lookup_command(config.allowed_commands@, command@) matches Some(p)
            ==> group_memberships@.len() == p.required_groups@.len(),
    ensures
        ({
            let v = validation_verdict(
                config.allowed_commands@,
                command@,
                duration_minutes as int,
                user_exists,
                group_memberships@,
            );
            match r {
                Ok(()) => v is Allow,
                Err(e) => !(v is Allow) && error_reports_verdict(
                    v,
                    e,
                    username@,
                    command@,
                    config.allowed_commands@,
                ),
            }
        }),
{
    let policy = match config.get_command(command) {
        Some(p) => p,
        None => {
            return Err(PermissionError::CommandNotAllowed(command.to_owned()));
        },
    };
    if duration_minutes <= 0 || duration_minutes > policy.max_duration {
        return Err(PermissionError::InvalidDuration { max_minutes: policy.max_duration });
    }
    match user_exists {
        LookupAnswer::Failed => {
            return Err(PermissionError::SystemCommand { cmd: "id".to_owned() });
        },
        LookupAnswer::No => {
            return Err(PermissionError::UserNotFound(username.to_owned()));
        },
        LookupAnswer::Yes => {},
    }
    let m = group_memberships.len();
    let mut i: usize = 0;
    while i < m
        invariant
            i <= m,
            m == group_memberships@.len(),
            m == policy.required_groups@.len(),
            spec_lookup_command(config.allowed_commands@, command@) == Some(*policy),
            user_exists == LookupAnswer::Yes,
            0 < duration_minutes <= policy.max_duration,
            group_verdict(group_memberships@, 0) == group_verdict(group_memberships@, i as int),
        decreases m - i,
    {
        match group_memberships[i] {
            LookupAnswer::Yes => {
                i += 1;
            },
            LookupAnswer::No => {
                proof {
                    assert(group_memberships@[i as int] == LookupAnswer::No);
                    assert(group_verdict(group_memberships@, i as int)
                        == ValidationVerdict::GroupNotMet { index: i as int });
                }
                return Err(
                    PermissionError::GroupRequirementNotMet {
                        user: username.to_owned(),
                        group: policy.required_groups[i].clone(),
                    },
                );
            },
            LookupAnswer::Failed => {
                proof {
                    assert(group_memberships@[i as int] == LookupAnswer::Failed);
                    assert(group_verdict(group_memberships@, i as int)
                        == ValidationVerdict::GroupLookupFailed { index: i as int });
                }
                return Err(PermissionError::SystemCommand { cmd: "groups".to_owned() });
            },
        }
    }
    Ok(())
}

} // verus!
