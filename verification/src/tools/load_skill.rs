//! The tool that reads a skill's instructions.

use vstd::prelude::*;

use crate::json;
use crate::json::Json;
use crate::tools::{AgentKind, PermissionCheck, PermissionView, Tool, ToolDefView};

verus! {

pub const LOAD_SKILL_NAME: &'static str = "load_skill";

pub const LOAD_SKILL_DESCRIPTION: &'static str = "Load a skill definition by name. Returns the complete SKILL.md content.";

pub const LOAD_SKILL_SCHEMA: &'static str = r#"{"type":"object","properties":{"name":{"type":"string","description":"Name of the skill to load"}},"required":["name"]}"#;

/// The tool that reads a skill's instructions.
pub struct LoadSkillTool;

impl LoadSkillTool {
    /// The name of the skill to load, or the answer to an input that names none.
    pub fn wanted(&self, input: &Json) -> (r: Result<String, String>)
        ensures
            match json::text_str_member(input@, "name"@) {
                Some(name) => r is Ok && r->Ok_0@ == name,
                None => r is Err && r->Err_0@ == "Error: missing name"@,
            },
    {
        match input.str_member("name") {
            Some(name) => Ok(name),
            None => Err("Error: missing name".to_string()),
        }
    }
}

impl Tool for LoadSkillTool {
    open spec fn facts(&self) -> ToolDefView {
        ToolDefView {
            name: LOAD_SKILL_NAME@,
            description: LOAD_SKILL_DESCRIPTION@,
            input_schema: LOAD_SKILL_SCHEMA@,
        }
    }

    open spec fn permission(&self, input: Seq<char>) -> PermissionView {
        PermissionView::Pass
    }

    open spec fn offered(&self, kind: AgentKind) -> bool {
        true
    }

    fn name(&self) -> (r: &str) {
        LOAD_SKILL_NAME
    }

    fn description(&self) -> (r: &str) {
        LOAD_SKILL_DESCRIPTION
    }

    fn input_schema(&self) -> (r: Json) {
        Json { text: LOAD_SKILL_SCHEMA.to_string() }
    }

    fn check_permission(&self, input: &Json) -> (r: PermissionCheck) {
        PermissionCheck::Pass
    }

    fn available_for(&self, kind: AgentKind) -> (r: bool) {
        true
    }
}

} // verus!
