//! Batch renaming: the names of the copies and the summary of a run.
use vstd::prelude::*;
use crate::text::{push_str, push_decimal, string_of, decimal, chars_of};
use crate::paths::{std_extension, std_parent, std_join, std_path_eq, extension, parent, join, same_path};
use crate::pipeline::preview::views;

verus! {

/// The new file name for number `num`: the prefix as given (so "img_" gives
/// "img_1"), the number, then "_" and the suffix when there is one, then '.'
/// and the extension; the '.' is left out when the extension is empty and
/// both a prefix and a suffix are given.
pub open spec fn renamed_name(prefix: Seq<char>, num: nat, suffix: Seq<char>, ext: Seq<char>) -> Seq<char> {
    if suffix.len() == 0 {
        prefix + decimal(num) + seq!['.'] + ext
    } else if prefix.len() > 0 && ext.len() == 0 {
        prefix + decimal(num) + seq!['_'] + suffix
    } else {
        prefix + decimal(num) + seq!['_'] + suffix + seq!['.'] + ext
    }
}

/// The directory the copy of `file` goes to: `output_dir` when given, else the
/// file's own directory (empty when it has none).
pub open spec fn rename_dir(file: Seq<char>, output_dir: Option<Seq<char>>) -> Seq<char> {
    match output_dir {
        Some(d) => d,
        None => match std_parent(file) {
            Some(p) => p,
            None => Seq::empty(),
        },
    }
}

/// The path of the copy of `file` with number `num`.
pub open spec fn renamed_path(file: Seq<char>, num: nat, prefix: Seq<char>, suffix: Seq<char>, output_dir: Option<Seq<char>>) -> Seq<char> {
    let ext = match std_extension(file) {
        Some(e) => e,
        None => Seq::empty(),
    };
    std_join(rename_dir(file, output_dir), renamed_name(prefix, num, suffix, ext))
}

/// The new name of a file.
pub fn renamed_file_name(prefix: &str, num: u32, suffix: &str, ext: &str) -> (r: String)
    ensures
        r@ == renamed_name(prefix@, num as nat, suffix@, ext@),
{
    let pe = chars_of(prefix).len() == 0;
    let se = chars_of(suffix).len() == 0;
    let ee = chars_of(ext).len() == 0;
    let mut cs: Vec<char> = Vec::new();
    push_str(&mut cs, prefix);
    push_decimal(&mut cs, num as u128);
    if !se {
        cs.push('_');
        push_str(&mut cs, suffix);
    }
    if se || pe || !ee {
        cs.push('.');
        push_str(&mut cs, ext);
    }
    assert(cs@ =~= renamed_name(prefix@, num as nat, suffix@, ext@));
    string_of(cs.as_slice())
}

/// The path of the copy of `file` with number `num`.
pub fn renamed_file_path(file: &str, num: u32, prefix: &str, suffix: &str, output_dir: Option<&str>) -> (r: String)
    ensures
        r@ == renamed_path(file@, num as nat, prefix@, suffix@, match output_dir {
            Some(d) => Some(d@),
            None => None,
        }),
{
    let dir = match output_dir {
        Some(d) => String::from_str(d),
        None => match parent(file) {
            Some(p) => p,
            None => String::new(),
        },
    };
    let ext = match extension(file) {
        Some(e) => e,
        None => String::new(),
    };
    let name = renamed_file_name(prefix, num, suffix, ext.as_str());
    join(dir.as_str(), name.as_str())
}

/// The paths of the copies of `files`, numbered from `start` in order.
pub fn rename_plan(files: &Vec<String>, prefix: &str, start: u32, suffix: &str, output_dir: Option<&str>) -> (r: Vec<String>)
    requires
        files.len() > 0 ==> start + files.len() - 1 <= u32::MAX,
    ensures
        r.len() == files.len(),
        forall|i: int| 0 <= i < files.len() ==> #[trigger] r@[i]@ == renamed_path(files@[i]@, (start + i) as nat, prefix@, suffix@, match output_dir {
            Some(d) => Some(d@),
            None => None,
        }),
{
    let mut r: Vec<String> = Vec::new();
    let mut i: usize = 0;
    while i < files.len()
        invariant
            i <= files.len(),
            r.len() == i,
            files.len() > 0 ==> start + files.len() - 1 <= u32::MAX,
            forall|k: int| 0 <= k < i ==> #[trigger] r@[k]@ == renamed_path(files@[k]@, (start + k) as nat, prefix@, suffix@, match output_dir {
                Some(d) => Some(d@),
                None => None,
            }),
        decreases files.len() - i,
    {
        let num = start + (i as u32);
        r.push(renamed_file_path(files[i].as_str(), num, prefix, suffix, output_dir));
        i = i + 1;
    }
    r
}

/// The result of a batch rename.
pub struct RenameResult {
    pub success: bool,
    pub msg: String,
    pub fail_list: Vec<String>,
}

/// The summary of a batch rename of `total` files: all copies made, or the failures.
pub open spec fn rename_summary_spec(total: nat, outcome: Result<Seq<Seq<char>>, Seq<Seq<char>>>) -> (bool, Seq<char>, Seq<Seq<char>>) {
    match outcome {
        Ok(outputs) => (true, "全部成功: "@ + decimal(outputs.len()) + seq!['/'] + decimal(total), Seq::empty()),
        Err(fails) => {
            let ok: nat = if total >= fails.len() { (total - fails.len()) as nat } else { 0 };
            (ok > 0, decimal(ok) + seq!['/'] + decimal(total) + " 成功, "@ + decimal(fails.len()) + " 失败"@, fails)
        },
    }
}

/// Summarizes a batch rename of `total` files.
pub fn rename_result(total: usize, outcome: Result<Vec<String>, Vec<String>>) -> (r: RenameResult)
    ensures
        (r.success, r.msg@, views(r.fail_list@)) == rename_summary_spec(total as nat, match outcome {
            Ok(o) => Ok(views(o@)),
            Err(f) => Err(views(f@)),
        }),
{
    match outcome {
        Ok(outputs) => {
            let mut cs: Vec<char> = Vec::new();
            push_str(&mut cs, "全部成功: ");
            push_decimal(&mut cs, outputs.len() as u128);
            cs.push('/');
            push_decimal(&mut cs, total as u128);
            let fail_list: Vec<String> = Vec::new();
            assert(views(fail_list@) =~= Seq::<Seq<char>>::empty());
            assert(cs@ =~= "全部成功: "@ + decimal(outputs.len() as nat) + seq!['/'] + decimal(total as nat));
            RenameResult { success: true, msg: string_of(cs.as_slice()), fail_list }
        },
        Err(fail_list) => {
            let ok: usize = if total >= fail_list.len() { total - fail_list.len() } else { 0 };
            let mut cs: Vec<char> = Vec::new();
            push_decimal(&mut cs, ok as u128);
            cs.push('/');
            push_decimal(&mut cs, total as u128);
            push_str(&mut cs, " 成功, ");
            push_decimal(&mut cs, fail_list.len() as u128);
            push_str(&mut cs, " 失败");
            assert(cs@ =~= decimal(ok as nat) + seq!['/'] + decimal(total as nat) + " 成功, "@ + decimal(fail_list.len() as nat) + " 失败"@);
            RenameResult { success: ok > 0, msg: string_of(cs.as_slice()), fail_list }
        },
    }
}

/// "{file} → {target}: 目标已存在"
pub fn target_exists_message(file: &str, target: &str) -> (r: String)
    ensures
        r@ == file@ + " → "@ + target@ + ": 目标已存在"@,
{
    let mut cs: Vec<char> = Vec::new();
    push_str(&mut cs, file);
    push_str(&mut cs, " → ");
    push_str(&mut cs, target);
    push_str(&mut cs, ": 目标已存在");
    string_of(cs.as_slice())
}


/// Whether the copy of `original` cannot go to `new_path`: something that is
/// not the original itself is already there.
pub fn target_taken(new_path: &str, original: &str, present: bool) -> (r: bool)
    ensures
        r == (present && !std_path_eq(new_path@, original@)),
{
    present && !same_path(new_path, original)
}

/// What became of one file of a batch rename.
pub enum CopyOutcome {
    /// Copied to its new path.
    Copied,
    /// Not copied: something other than the file itself is at the new path.
    TargetTaken,
    /// The copy failed for the given reason.
    Failed(String),
}

/// The new paths of the files copied among the first `n`, in order.
pub open spec fn copies_upto(targets: Seq<Seq<char>>, outcomes: Seq<CopyOutcome>, n: int) -> Seq<Seq<char>>
    decreases n,
{
    if n <= 0 {
        Seq::empty()
    } else {
        copies_upto(targets, outcomes, n - 1) + if outcomes[n - 1] is Copied {
            seq![targets[n - 1]]
        } else {
            Seq::empty()
        }
    }
}

/// The failure lines of the first `n` files, in order.
pub open spec fn failures_upto(files: Seq<Seq<char>>, targets: Seq<Seq<char>>, outcomes: Seq<CopyOutcome>, n: int) -> Seq<Seq<char>>
    decreases n,
{
    if n <= 0 {
        Seq::empty()
    } else {
        failures_upto(files, targets, outcomes, n - 1) + match outcomes[n - 1] {
            CopyOutcome::Copied => Seq::empty(),
            CopyOutcome::TargetTaken => seq![files[n - 1] + " → "@ + targets[n - 1] + ": 目标已存在"@],
            CopyOutcome::Failed(e) => seq![files[n - 1] + ": "@ + e@],
        }
    }
}

/// The outcome of a batch rename: the new paths when every file was copied,
/// else every failure line.
pub open spec fn rename_outcome_spec(files: Seq<Seq<char>>, targets: Seq<Seq<char>>, outcomes: Seq<CopyOutcome>) -> Result<Seq<Seq<char>>, Seq<Seq<char>>> {
    let f = failures_upto(files, targets, outcomes, files.len() as int);
    if f.len() == 0 {
        Ok(copies_upto(targets, outcomes, files.len() as int))
    } else {
        Err(f)
    }
}

/// Gathers what became of each file of a batch rename into its outcome.
pub fn rename_outcome(files: &Vec<String>, targets: &Vec<String>, outcomes: &Vec<CopyOutcome>) -> (r: Result<Vec<String>, Vec<String>>)
    requires
        files.len() == targets.len(),
        files.len() == outcomes.len(),
    ensures
        match r {
            Ok(o) => rename_outcome_spec(views(files@), views(targets@), outcomes@) == Ok::<Seq<Seq<char>>, Seq<Seq<char>>>(views(o@)),
            Err(f) => rename_outcome_spec(views(files@), views(targets@), outcomes@) == Err::<Seq<Seq<char>>, Seq<Seq<char>>>(views(f@)),
        },
{
    let ghost fv = views(files@);
    let ghost tv = views(targets@);
    let mut outputs: Vec<String> = Vec::new();
    let mut fails: Vec<String> = Vec::new();
    let mut i: usize = 0;
    while i < files.len()
        invariant
            files.len() == targets.len(),
            files.len() == outcomes.len(),
            fv == views(files@),
            tv == views(targets@),
            i <= files.len(),
            views(outputs@) == copies_upto(tv, outcomes@, i as int),
            views(fails@) == failures_upto(fv, tv, outcomes@, i as int),
        decreases files.len() - i,
    {
        let ghost oo = views(outputs@);
        let ghost of = views(fails@);
        match &outcomes[i] {
            CopyOutcome::Copied => {
                outputs.push(targets[i].clone());
                assert(views(outputs@) =~= oo + seq![tv[i as int]]);
                assert(views(fails@) =~= of + Seq::<Seq<char>>::empty());
            },
            CopyOutcome::TargetTaken => {
                fails.push(target_exists_message(files[i].as_str(), targets[i].as_str()));
                assert(views(fails@) =~= of + seq![fv[i as int] + " → "@ + tv[i as int] + ": 目标已存在"@]);
                assert(views(outputs@) =~= oo + Seq::<Seq<char>>::empty());
            },
            CopyOutcome::Failed(e) => {
                let mut m: Vec<char> = Vec::new();
                push_str(&mut m, files[i].as_str());
                push_str(&mut m, ": ");
                push_str(&mut m, e.as_str());
                fails.push(string_of(m.as_slice()));
                assert(views(fails@) =~= of + seq![fv[i as int] + ": "@ + e@]);
                assert(views(outputs@) =~= oo + Seq::<Seq<char>>::empty());
            },
        }
        i = i + 1;
    }
    if fails.len() == 0 {
        Ok(outputs)
    } else {
        Err(fails)
    }
}

proof fn lemma_outcome_counts(files: Seq<Seq<char>>, targets: Seq<Seq<char>>, outcomes: Seq<CopyOutcome>, n: int)
    requires
        0 <= n,
    ensures
        copies_upto(targets, outcomes, n).len() + failures_upto(files, targets, outcomes, n).len() == n,
    decreases n,
{
    if n > 0 {
        lemma_outcome_counts(files, targets, outcomes, n - 1);
    }
}

/// A batch rename answers one line per file: every file was either copied or
/// failed, so when none failed all `n` of `n` are reported copied, and when `k`
/// failed, `n - k` of `n` are reported copied with the `k` failure lines.
pub proof fn rename_summary_counts(files: Seq<Seq<char>>, targets: Seq<Seq<char>>, outcomes: Seq<CopyOutcome>)
    ensures
        copies_upto(targets, outcomes, files.len() as int).len() + failures_upto(files, targets, outcomes, files.len() as int).len() == files.len(),
        ({
            let n = files.len();
            let k = failures_upto(files, targets, outcomes, n as int).len();
            let summary = rename_summary_spec(n, rename_outcome_spec(files, targets, outcomes));
            &&& k == 0 ==> summary == (true, "全部成功: "@ + decimal(n) + seq!['/'] + decimal(n), Seq::<Seq<char>>::empty())
            &&& k > 0 ==> summary == (n - k > 0, decimal((n - k) as nat) + seq!['/'] + decimal(n) + " 成功, "@ + decimal(k) + " 失败"@,
                failures_upto(files, targets, outcomes, n as int))
        }),
{
    lemma_outcome_counts(files, targets, outcomes, files.len() as int);
}

/// A renamed file's name starts with the prefix as given, followed by the
/// number in decimal; without a suffix it ends with '.' and the extension,
/// with one it continues with '_' and the suffix.
pub proof fn renamed_names_start_with_prefix_and_number(prefix: Seq<char>, num: nat, suffix: Seq<char>, ext: Seq<char>)
    ensures
        ({
            let n = renamed_name(prefix, num, suffix, ext);
            let head = prefix + decimal(num);
            &&& n.len() >= head.len()
            &&& n.subrange(0, head.len() as int) == head
            &&& suffix.len() == 0 ==> n.subrange(head.len() as int, n.len() as int) == seq!['.'] + ext
            &&& suffix.len() > 0 ==> n.subrange(head.len() as int, (head.len() + 1 + suffix.len()) as int) == seq!['_'] + suffix
        }),
{
    let head = prefix + decimal(num);
    let n = renamed_name(prefix, num, suffix, ext);
    if suffix.len() == 0 {
        assert(n =~= head + (seq!['.'] + ext));
    } else if prefix.len() > 0 && ext.len() == 0 {
        assert(n =~= head + (seq!['_'] + suffix));
    } else {
        assert(n =~= head + (seq!['_'] + suffix) + (seq!['.'] + ext));
    }
    assert(n.subrange(0, head.len() as int) =~= head);
    if suffix.len() == 0 {
        assert(n.subrange(head.len() as int, n.len() as int) =~= seq!['.'] + ext);
    } else {
        assert(n.subrange(head.len() as int, (head.len() + 1 + suffix.len()) as int) =~= seq!['_'] + suffix);
    }
}

} // verus!
