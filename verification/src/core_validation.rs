//! Schema validation reports.

use vstd::prelude::*;
use crate::agent_schema::{schema_version_spec, SemanticAgent};
use crate::component_types::Protocols;
use crate::text::str_eq;
use vstd::string::StrSliceExecFns;
use vstd::string::StringExecFns;

verus! {

/// Whether any protocol is switched on.
pub open spec fn protocols_enabled(p: Protocols) -> bool {
    ||| (p.mcp matches Some(c) && c.enabled)
    ||| (p.a2a matches Some(c) && c.enabled)
    ||| (p.agent_protocol matches Some(c) && c.enabled)
}

/// The outcome of validating an agent definition: errors make it
/// invalid, warnings do not.
#[derive(Debug)]
pub struct ValidationReport {
    pub valid: bool,
    pub errors: Vec<String>,
    pub warnings: Vec<String>,
}

impl ValidationReport {
    /// An empty, valid report.
    pub fn new() -> (r: Self)
        ensures
            r.valid,
            r.errors@.len() == 0,
            r.warnings@.len() == 0,
    {
        ValidationReport { valid: true, errors: Vec::new(), warnings: Vec::new() }
    }

    /// Records an error; the report becomes invalid.
    pub fn add_error(&mut self, error: String)
        ensures
            !final(self).valid,
            final(self).errors@ == old(self).errors@.push(error),
            final(self).warnings@ == old(self).warnings@,
    {
        self.valid = false;
        self.errors.push(error);
    }

    /// Records a warning; validity is unchanged.
    pub fn add_warning(&mut self, warning: String)
        ensures
            final(self).valid == old(self).valid,
            final(self).warnings@ == old(self).warnings@.push(warning),
            final(self).errors@ == old(self).errors@,
    {
        self.warnings.push(warning);
    }
}

impl Default for ValidationReport {
    /// The same report as [`ValidationReport::new`].
    fn default() -> (r: Self)
        ensures
            r.valid,
            r.errors@.len() == 0,
            r.warnings@.len() == 0,
    {
        ValidationReport::new()
    }
}

/// The validation report as handed across a language boundary: plain
/// fields only.
#[derive(Debug)]
pub struct JsValidationReport {
    pub valid: bool,
    pub errors: Vec<String>,
    pub warnings: Vec<String>,
}


/// Validates an agent definition: a missing schema version or identity
/// id is an error; an off-version schema or an agent with no protocol
/// enabled only warns.
pub fn validate_agent(agent: &SemanticAgent) -> (r: ValidationReport)
    ensures
        r.valid == (agent.schema_version@.len() > 0 && agent.identity.id@.len() > 0),
        r.errors@.len() == (if agent.schema_version@.len() == 0 {
            1int
        } else {
            0int
        }) + (if agent.identity.id@.len() == 0 {
            1int
        } else {
            0int
        }),
        agent.schema_version@.len() == 0 ==> r.errors@[0]@ == "Missing schema_version"@,
        agent.identity.id@.len() == 0 ==> r.errors@[if agent.schema_version@.len() == 0 {
            1int
        } else {
            0int
        }]@ == "Missing identity.id"@,
        r.warnings@.len() == (if agent.schema_version@.len() > 0 && agent.schema_version@
            != schema_version_spec() {
            1int
        } else {
            0int
        }) + (if !protocols_enabled(agent.protocols) {
            1int
        } else {
            0int
        }),
        (agent.schema_version@.len() > 0 && agent.schema_version@ != schema_version_spec())
            ==> r.warnings@[0]@ == "Schema version differs from 2.0.0"@,
        !protocols_enabled(agent.protocols) ==> r.warnings@[if agent.schema_version@.len() > 0
            && agent.schema_version@ != schema_version_spec() {
            1int
        } else {
            0int
        }]@ == "No protocols enabled - agent may not be functional"@,
{
    let mut report = ValidationReport::new();

    if agent.schema_version.as_str().unicode_len() == 0 {
        report.add_error(String::from_str("Missing schema_version"));
    } else if !str_eq(agent.schema_version.as_str(), crate::agent_schema::schema_version()) {
        report.add_warning(String::from_str("Schema version differs from 2.0.0"));
    }

    if agent.identity.id.as_str().unicode_len() == 0 {
        report.add_error(String::from_str("Missing identity.id"));
    }

    let has_protocol = match &agent.protocols.mcp {
        Some(c) => c.enabled,
        None => false,
    } || match &agent.protocols.a2a {
        Some(c) => c.enabled,
        None => false,
    } || match &agent.protocols.agent_protocol {
        Some(c) => c.enabled,
        None => false,
    };
    if !has_protocol {
        report.add_warning(
            String::from_str("No protocols enabled - agent may not be functional"),
        );
    }

    report
}

} // verus!
