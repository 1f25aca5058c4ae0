//! Units of batch work: each has a fresh random id, an input and an output.
use vstd::prelude::*;

verus! {

/// A lowercase hexadecimal digit.
pub open spec fn is_lower_hex(c: char) -> bool {
    ('0' <= c && c <= '9') || ('a' <= c && c <= 'f')
}

/// The hyphenated text form of a UUID: 36 characters, '-' at 8, 13, 18 and
/// 23, lowercase hex digits elsewhere.
pub open spec fn is_task_id(s: Seq<char>) -> bool {
    &&& s.len() == 36
    &&& forall|i: int| 0 <= i < 36 ==> if i == 8 || i == 13 || i == 18 || i == 23 {
        #[trigger] s[i] == '-'
    } else {
        is_lower_hex(s[i])
    }
}

/// `uuid::Uuid::new_v4` as text (`to_string`). The value rests on chance; as
/// the crate's source shows, `Display` writes the hyphenated lowercase form.
#[verifier::external_body]
fn new_task_id() -> (r: String)
    ensures
        is_task_id(r@),
{
    uuid::Uuid::new_v4().to_string()
}

/// One unit of batch work before it runs.
pub struct TaskPlan {
    pub id: String,
    pub input_path: String,
    pub output_path: String,
}

/// A unit of work reading `input` and writing `output`, under a fresh id.
pub fn plan_task(input: &str, output: &str) -> (t: TaskPlan)
    ensures
        t.input_path@ == input@,
        t.output_path@ == output@,
        is_task_id(t.id@),
{
    TaskPlan { id: new_task_id(), input_path: String::from_str(input), output_path: String::from_str(output) }
}

} // verus!
