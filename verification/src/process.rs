//! The process resource detector's computation: turning the command-line
//! arguments and the process id into the resource attributes that are
//! exported alongside traces. Reading the process metadata and binding the
//! attributes to an exporter's resource type are the surrounding system's
//! concern.

use vstd::prelude::*;

verus! {

/// A resource attribute value: an array of strings or an integer.
pub enum AttributeValue {
    StringArray(Vec<String>),
    Int(i64),
}

/// One resource attribute: a semantic-convention key and its value.
pub struct ResourceAttribute {
    pub key: String,
    pub value: AttributeValue,
}

/// Detect process information.
///
/// The detector yields exactly two attributes: the full command-line
/// arguments of the application (`process.command_args`) and the OS-assigned
/// process id (`process.pid`).
pub struct ProcessResourceDetector;

impl ProcessResourceDetector {
    /// Builds the attribute set from the process metadata handed in: the
    /// command arguments verbatim under `process.command_args`, and the
    /// process id under `process.pid`. It never fails.
    pub fn detect_attributes(args: Vec<String>, pid: u32) -> (r: Vec<ResourceAttribute>)
        ensures
            r@.len() == 2,
            r@[0].key@ == "process.command_args"@,
            r@[0].value matches AttributeValue::StringArray(a) && a.deep_view()
                == args.deep_view(),
            r@[1].key@ == "process.pid"@,
            r@[1].value matches AttributeValue::Int(p) && p == pid as i64,
    {
        let command_args = ResourceAttribute {
            key: "process.command_args".to_owned(),
            value: AttributeValue::StringArray(args),
        };
        let process_id = ResourceAttribute {
            key: "process.pid".to_owned(),
            value: AttributeValue::Int(pid as i64),
        };
        let mut r: Vec<ResourceAttribute> = Vec::new();
        r.push(command_args);
        r.push(process_id);
        r
    }
}

} // verus!
