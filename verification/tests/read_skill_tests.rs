use warp::read_skill::{
    not_found_message, parse_failed_message, parsed_skill_result, read_telemetry, ReadSkillExecutor,
    ReadSkillPlan, ReadSkillResult, ReadTelemetry,
};

#[test]
fn skill_reads_run_without_asking() {
    assert!(ReadSkillExecutor::new().should_autoexecute());
}

#[test]
fn plan_prefers_cache_then_disk_then_not_found() {
    let executor = ReadSkillExecutor::new();
    assert_eq!(executor.plan_read(false, true, true, true), ReadSkillPlan::InvalidAction);
    assert_eq!(executor.plan_read(true, true, true, true), ReadSkillPlan::ReturnCached);
    assert_eq!(executor.plan_read(true, false, true, true), ReadSkillPlan::ParseFromDisk);
    assert_eq!(executor.plan_read(true, false, true, false), ReadSkillPlan::NotFound);
    assert_eq!(executor.plan_read(true, false, false, true), ReadSkillPlan::NotFound);
}

#[test]
fn not_found_messages_name_the_reference() {
    assert_eq!(
        not_found_message("Name(\"deploy\")"),
        "Skill not found: Name(\"deploy\")"
    );
    assert_eq!(
        parse_failed_message("Path(\"/x/SKILL.md\")", "no front matter"),
        "Skill not found: Path(\"/x/SKILL.md\") (no front matter)"
    );
}

#[test]
fn telemetry_records_follow_the_plan() {
    assert_eq!(
        read_telemetry(ReadSkillPlan::ReturnCached),
        Some(ReadTelemetry { error: false, with_skill_details: true })
    );
    assert_eq!(
        read_telemetry(ReadSkillPlan::NotFound),
        Some(ReadTelemetry { error: true, with_skill_details: false })
    );
    assert_eq!(read_telemetry(ReadSkillPlan::InvalidAction), None);
    assert_eq!(read_telemetry(ReadSkillPlan::ParseFromDisk), None);
}

#[test]
fn parsed_skill_files_answer_the_read() {
    assert_eq!(
        parsed_skill_result("Path(\"/s/SKILL.md\")", Ok(("/s/SKILL.md".into(), "body".into()))),
        ReadSkillResult::Success { path: "/s/SKILL.md".into(), content: "body".into() }
    );
    assert_eq!(
        parsed_skill_result("Path(\"/s/SKILL.md\")", Err("bad front matter".into())),
        ReadSkillResult::Error("Skill not found: Path(\"/s/SKILL.md\") (bad front matter)".into())
    );
}
