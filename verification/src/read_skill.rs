//! Runs the agent's "read skill" action: a cached skill is returned at
//! once; a skill referenced by a path that has the shape of a skill file
//! is parsed from disk when the cache misses; anything else fails as not
//! found.
use vstd::prelude::*;

use crate::text::push_str;

verus! {

/// Carries out read-skill actions.
pub struct ReadSkillExecutor;

/// What to do with one read-skill action.
#[derive(Clone, Copy, Debug, PartialEq, Eq, Structural)]
pub enum ReadSkillPlan {
    /// The action is not a skill read.
    InvalidAction,
    /// Record a successful read and return the cached skill's file.
    ReturnCached,
    /// Parse the referenced skill file off the main thread; its outcome is
    /// the result.
    ParseFromDisk,
    /// Record a failed read and answer with `not_found_message`.
    NotFound,
}

/// The plan for an action: only a skill read is valid; the cache answers
/// first; on a miss, a path reference of skill-file shape is read from
/// disk where there is a local file system.
pub open spec fn spec_plan_read(
    is_read_skill: bool,
    cached: bool,
    path_is_skill_file: bool,
    has_local_fs: bool,
) -> ReadSkillPlan {
    if !is_read_skill {
        ReadSkillPlan::InvalidAction
    } else if cached {
        ReadSkillPlan::ReturnCached
    } else if has_local_fs && path_is_skill_file {
        ReadSkillPlan::ParseFromDisk
    } else {
        ReadSkillPlan::NotFound
    }
}

impl ReadSkillExecutor {
    pub fn new() -> (executor: Self) {
        ReadSkillExecutor
    }

    /// Skills that the user made are readable on demand: reads run without
    /// asking.
    pub fn should_autoexecute(&self) -> (r: bool)
        ensures
            r,
    {
        true
    }

    /// The plan for an action (see `spec_plan_read`): `is_read_skill` says
    /// whether the action is a skill read, `cached` whether the skill
    /// manager knows the referenced skill, `path_is_skill_file` whether the
    /// reference is a path shaped like a skill file, and `has_local_fs`
    /// whether this build can read files.
    pub fn plan_read(
        &self,
        is_read_skill: bool,
        cached: bool,
        path_is_skill_file: bool,
        has_local_fs: bool,
    ) -> (plan: ReadSkillPlan)
        ensures
            plan == spec_plan_read(is_read_skill, cached, path_is_skill_file, has_local_fs),
    {
        if !is_read_skill {
            ReadSkillPlan::InvalidAction
        } else if cached {
            ReadSkillPlan::ReturnCached
        } else if has_local_fs && path_is_skill_file {
            ReadSkillPlan::ParseFromDisk
        } else {
            ReadSkillPlan::NotFound
        }
    }
}

/// What the read telemetry record says of one read: whether it failed,
/// and whether it carries the skill's name, scope and provider.
#[derive(Clone, Copy, Debug, PartialEq, Eq, Structural)]
pub struct ReadTelemetry {
    pub error: bool,
    pub with_skill_details: bool,
}

/// The record sent when a plan is carried out: a cached read succeeds with
/// the skill's details, a miss with nothing to read fails without them;
/// an invalid action sends none, and a read from disk sends none.
pub open spec fn spec_read_telemetry(plan: ReadSkillPlan) -> Option<ReadTelemetry> {
    match plan {
        ReadSkillPlan::ReturnCached => Some(ReadTelemetry { error: false, with_skill_details: true }),
        ReadSkillPlan::NotFound => Some(ReadTelemetry { error: true, with_skill_details: false }),
        ReadSkillPlan::InvalidAction => None,
        ReadSkillPlan::ParseFromDisk => None,
    }
}

/// The telemetry record to send for a plan (see `spec_read_telemetry`).
pub fn read_telemetry(plan: ReadSkillPlan) -> (record: Option<ReadTelemetry>)
    ensures
        record == spec_read_telemetry(plan),
{
    match plan {
        ReadSkillPlan::ReturnCached => Some(ReadTelemetry { error: false, with_skill_details: true }),
        ReadSkillPlan::NotFound => Some(ReadTelemetry { error: true, with_skill_details: false }),
        ReadSkillPlan::InvalidAction => None,
        ReadSkillPlan::ParseFromDisk => None,
    }
}

/// The answer to a skill read: the skill file's path and content, or an
/// error message.
#[derive(Clone, Debug, PartialEq, Eq)]
pub enum ReadSkillResult {
    Success { path: String, content: String },
    Error(String),
}

/// The answer once a skill file read from disk was parsed: its path and
/// content on success, else the parse failure against the reference's
/// debug text.
pub fn parsed_skill_result(reference: &str, parsed: Result<(String, String), String>) -> (result: ReadSkillResult)
    ensures
        match parsed {
            Ok((path, content)) => result == ReadSkillResult::Success { path, content },
            Err(e) => result matches ReadSkillResult::Error(m) && m@ == "Skill not found: "@ + reference@
                + " ("@ + e@ + ")"@,
        },
{
    match parsed {
        Ok((path, content)) => ReadSkillResult::Success { path, content },
        Err(e) => ReadSkillResult::Error(parse_failed_message(reference, e.as_str())),
    }
}

/// The error for a skill that could not be found, given the debug text of
/// its reference.
pub fn not_found_message(reference: &str) -> (message: String)
    ensures
        message@ == "Skill not found: "@ + reference@,
{
    let mut message = String::new();
    push_str(&mut message, "Skill not found: ");
    push_str(&mut message, reference);
    assert(Seq::<char>::empty() + "Skill not found: "@ =~= "Skill not found: "@);
    message
}

/// The error for a skill file that could not be parsed, given the debug
/// text of its reference and the parse error.
pub fn parse_failed_message(reference: &str, error: &str) -> (message: String)
    ensures
        message@ == "Skill not found: "@ + reference@ + " ("@ + error@ + ")"@,
{
    let mut message = not_found_message(reference);
    push_str(&mut message, " (");
    push_str(&mut message, error);
    push_str(&mut message, ")");
    message
}

} // verus!
