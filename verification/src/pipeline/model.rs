//! The pipeline data model shared by the editor and the engine.
use vstd::prelude::*;
use crate::text::push_str;
use crate::text::string_of;

verus! {

/// A scalar parameter value of a node, as the engine reads it.
pub enum ParamValue {
    /// A JSON string.
    Text(String),
    /// A JSON number that is a non-negative integer within `u64`.
    Unsigned(u64),
    /// Any other JSON value (negative or fractional numbers, booleans, null, arrays, objects).
    Other,
}

/// The parameters of a node: the fields of its JSON object, in order.
/// A node whose parameters are not a JSON object has no fields.
pub struct ParamMap {
    pub entries: Vec<(String, ParamValue)>,
}

/// A node of a pipeline: one atomic operation.
pub struct PipelineNode {
    /// Unique id given by the editor, such as "node-1".
    pub id: String,
    /// The node type, a key of the node catalogue, such as "image_compress".
    pub node_type: String,
    /// Display label.
    pub label: String,
    /// Parameters, shaped by the node type's parameter definitions.
    pub params: ParamMap,
}

/// An edge: the output of `source` feeds the input of `target`.
pub struct PipelineEdge {
    pub id: String,
    pub source: String,
    /// The output port of `source` ("output" when none is given).
    pub source_port: String,
    pub target: String,
    /// The input port of `target` ("input" when none is given).
    pub target_port: String,
}

/// A pipeline: nodes and the edges between them.
pub struct Pipeline {
    pub name: String,
    pub description: String,
    pub nodes: Vec<PipelineNode>,
    pub edges: Vec<PipelineEdge>,
}

/// The value stored under `key`, if any (the first field with that key).
pub open spec fn param_lookup(entries: Seq<(String, ParamValue)>, key: Seq<char>) -> Option<ParamValue>
    decreases entries.len(),
{
    if entries.len() == 0 {
        None
    } else if entries[0].0@ == key {
        Some(entries[0].1)
    } else {
        param_lookup(entries.drop_first(), key)
    }
}

/// The string stored under `key`, if the field exists and is a string.
pub open spec fn param_text(params: ParamMap, key: Seq<char>) -> Option<Seq<char>> {
    match param_lookup(params.entries@, key) {
        Some(ParamValue::Text(s)) => Some(s@),
        _ => None,
    }
}

/// The unsigned integer stored under `key`, if the field exists and is one.
pub open spec fn param_unsigned(params: ParamMap, key: Seq<char>) -> Option<u64> {
    match param_lookup(params.entries@, key) {
        Some(ParamValue::Unsigned(n)) => Some(n),
        _ => None,
    }
}

impl ParamMap {
    /// The string field `key`, if present and a string.
    pub fn get_text(&self, key: &str) -> (r: Option<String>)
        ensures
            match r {
                Some(s) => param_text(*self, key@) == Some(s@),
                None => param_text(*self, key@) is None,
            },
    {
        let mut i: usize = 0;
        assert(self.entries@.subrange(0, self.entries@.len() as int) =~= self.entries@);
        while i < self.entries.len()
            invariant
                i <= self.entries.len(),
                param_lookup(self.entries@, key@) == param_lookup(self.entries@.subrange(i as int, self.entries@.len() as int), key@),
            decreases self.entries.len() - i,
        {
            let ghost rest = self.entries@.subrange(i as int, self.entries@.len() as int);
            assert(rest.drop_first() =~= self.entries@.subrange(i + 1, self.entries@.len() as int));
            if str_equal(&self.entries[i].0, key) {
                return match &self.entries[i].1 {
                    ParamValue::Text(s) => Some(s.clone()),
                    _ => None,
                };
            }
            i = i + 1;
        }
        None
    }

    /// The unsigned field `key`, if present and an unsigned integer.
    pub fn get_unsigned(&self, key: &str) -> (r: Option<u64>)
        ensures
            r == param_unsigned(*self, key@),
    {
        let mut i: usize = 0;
        assert(self.entries@.subrange(0, self.entries@.len() as int) =~= self.entries@);
        while i < self.entries.len()
            invariant
                i <= self.entries.len(),
                param_lookup(self.entries@, key@) == param_lookup(self.entries@.subrange(i as int, self.entries@.len() as int), key@),
            decreases self.entries.len() - i,
        {
            let ghost rest = self.entries@.subrange(i as int, self.entries@.len() as int);
            assert(rest.drop_first() =~= self.entries@.subrange(i + 1, self.entries@.len() as int));
            if str_equal(&self.entries[i].0, key) {
                return match &self.entries[i].1 {
                    ParamValue::Unsigned(n) => Some(*n),
                    _ => None,
                };
            }
            i = i + 1;
        }
        None
    }
}

/// Whether a string equals a string slice, character by character.
pub fn str_equal(a: &String, b: &str) -> (r: bool)
    ensures
        r == (a@ == b@),
{
    let mut bs: Vec<char> = Vec::new();
    push_str(&mut bs, b);
    let bb = string_of(bs.as_slice());
    *a == bb
}

/// The output port an edge leaves from when the editor names none.
pub fn default_source_port() -> (s: String)
    ensures
        s@ == "output"@,
{
    String::from_str("output")
}

/// The input port an edge enters when the editor names none.
pub fn default_target_port() -> (s: String)
    ensures
        s@ == "input"@,
{
    String::from_str("input")
}

/// The port type a port definition has when the editor gives none.
pub fn default_port_type() -> (s: String)
    ensures
        s@ == "file"@,
{
    String::from_str("file")
}


/// A port of a node type.
pub struct PortDef {
    pub id: String,
    pub label: String,
    /// "file" | "file[]" | "string" | "number" (a folder's path is a "string").
    pub port_type: String,
}

/// The kind of input a parameter takes.
pub enum ParamType {
    String,
    Number,
    Boolean,
    Select,
    File,
    Directory,
    /// A slider over whole numbers from `min` to `max` in steps of `step`.
    Slider { min: i64, max: i64, step: i64 },
}

/// The default value of a parameter.
pub enum ParamDefault {
    Text(String),
    /// A whole number.
    Number(i64),
}

/// One choice of a select parameter.
pub struct SelectOption {
    pub value: String,
    pub label: String,
}

/// The definition of a configurable parameter of a node type.
pub struct ParamDef {
    pub key: String,
    pub label: String,
    pub param_type: ParamType,
    pub default: Option<ParamDefault>,
    pub required: bool,
    pub help: String,
    pub options: Vec<SelectOption>,
}

/// A kind of node the editor offers.
pub struct NodeType {
    /// Type id, such as "image_compress".
    pub id: String,
    pub name: String,
    /// The category the editor groups types by.
    pub category: String,
    pub description: String,
    pub icon: String,
    pub inputs: Vec<PortDef>,
    pub outputs: Vec<PortDef>,
    pub params: Vec<ParamDef>,
}

/// The state of a running pipeline.
pub enum PipelineStatus {
    Ready,
    Running,
    Paused,
    Completed,
    Failed(String),
    Cancelled,
}

/// A progress report of a running pipeline.
pub struct PipelineProgress {
    pub pipeline_id: String,
    pub current_step: u32,
    pub total_steps: u32,
    pub current_node_id: String,
    pub current_node_label: String,
    pub status: PipelineStatus,
}


impl ParamMap {
    /// A copy of the parameters.
    pub fn copy(&self) -> (r: ParamMap)
        ensures
            r.entries@ == self.entries@,
    {
        let mut entries: Vec<(String, ParamValue)> = Vec::new();
        let mut i: usize = 0;
        while i < self.entries.len()
            invariant
                i <= self.entries.len(),
                entries.len() == i,
                forall|k: int| 0 <= k < i ==> entries@[k] == self.entries@[k],
            decreases self.entries.len() - i,
        {
            let v = match &self.entries[i].1 {
                ParamValue::Text(s) => ParamValue::Text(s.clone()),
                ParamValue::Unsigned(n) => ParamValue::Unsigned(*n),
                ParamValue::Other => ParamValue::Other,
            };
            entries.push((self.entries[i].0.clone(), v));
            i = i + 1;
        }
        assert(entries@ =~= self.entries@);
        ParamMap { entries }
    }
}

} // verus!
