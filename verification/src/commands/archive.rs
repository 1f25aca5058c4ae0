//! Archive commands: which extractor a file needs, where it goes, and how files
//! are batched into zip archives.
use vstd::prelude::*;
use crate::text::{join_spec, join_texts, split_char, split_pieces, push_str, push_decimal, string_of, decimal, to_lowercase, std_lowercase, ends_with, ends_with_spec, str_eq, chars_of};
use crate::paths::{std_extension, std_file_stem, std_join, extension, file_stem, join};
use crate::pipeline::preview::views;
use crate::commands::batch::{TaskPlan, plan_task, is_task_id};

verus! {

/// The lower-cased extension of a path, or nothing.
pub open spec fn archive_ext(path: Seq<char>) -> Seq<char> {
    match std_extension(path) {
        Some(e) => std_lowercase(e),
        None => Seq::empty(),
    }
}

/// The lower-cased extension of a path ("" when it has none).
pub fn get_ext(path: &str) -> (r: String)
    ensures
        r@ == archive_ext(path@),
{
    match extension(path) {
        Some(e) => to_lowercase(e.as_str()),
        None => String::new(),
    }
}

/// The archive formats the toolkit knows.
pub open spec fn is_archive_ext_spec(ext: Seq<char>) -> bool {
    ext == "zip"@ || ext == "tar"@ || ext == "gz"@ || ext == "tgz"@ || ext == "7z"@ || ext == "rar"@
}

/// Whether `ext` is a known archive format.
pub fn is_archive_ext(ext: &str) -> (r: bool)
    ensures
        r == is_archive_ext_spec(ext@),
{
    str_eq(ext, "zip") || str_eq(ext, "tar") || str_eq(ext, "gz") || str_eq(ext, "tgz") || str_eq(ext, "7z") || str_eq(ext, "rar")
}

/// How an archive is unpacked.
#[derive(PartialEq, Eq, Structural, Clone, Copy, Debug)]
pub enum ExtractMethod {
    Zip,
    TarGz,
    Tar,
    SevenZip,
}

/// The method for unpacking `input`, or why it cannot be unpacked.
pub open spec fn extract_method_spec(input: Seq<char>) -> Result<ExtractMethod, Seq<char>> {
    let ext = archive_ext(input);
    if ext == "zip"@ {
        Ok(ExtractMethod::Zip)
    } else if ext == "gz"@ || ext == "tgz"@ {
        if ends_with_spec(input, ".tar.gz"@) || ext == "tgz"@ {
            Ok(ExtractMethod::TarGz)
        } else {
            Err("不支持的格式: ."@ + ext + ", 仅支持 .tar.gz"@)
        }
    } else if ext == "tar"@ {
        Ok(ExtractMethod::Tar)
    } else if ext == "7z"@ {
        Ok(ExtractMethod::SevenZip)
    } else {
        Err("不支持该格式, 支持的格式: zip, tar, tar.gz, 7z"@)
    }
}

/// Chooses how to unpack an archive by its extension.
pub fn extract_method(input: &str) -> (r: Result<ExtractMethod, String>)
    ensures
        match r {
            Ok(m) => extract_method_spec(input@) == Ok::<ExtractMethod, Seq<char>>(m),
            Err(e) => extract_method_spec(input@) == Err::<ExtractMethod, Seq<char>>(e@),
        },
{
    let ext = get_ext(input);
    let e = ext.as_str();
    if str_eq(e, "zip") {
        Ok(ExtractMethod::Zip)
    } else if str_eq(e, "gz") || str_eq(e, "tgz") {
        if ends_with(input, ".tar.gz") || str_eq(e, "tgz") {
            Ok(ExtractMethod::TarGz)
        } else {
            let mut cs: Vec<char> = Vec::new();
            push_str(&mut cs, "不支持的格式: .");
            push_str(&mut cs, e);
            push_str(&mut cs, ", 仅支持 .tar.gz");
            Err(string_of(cs.as_slice()))
        }
    } else if str_eq(e, "tar") {
        Ok(ExtractMethod::Tar)
    } else if str_eq(e, "7z") {
        Ok(ExtractMethod::SevenZip)
    } else {
        Err(String::from_str("不支持该格式, 支持的格式: zip, tar, tar.gz, 7z"))
    }
}

/// The name an archive unpacks under: its stem ("extracted" when it has
/// none), and for a ".tar.gz" file the stem without its ".tar" as well, so
/// that both extensions go.
pub open spec fn extract_name_spec(input: Seq<char>) -> Seq<char> {
    let stem = match std_file_stem(input) {
        Some(s) => s,
        None => "extracted"@,
    };
    if ends_with_spec(input, ".tar.gz"@) && ends_with_spec(stem, ".tar"@) {
        stem.take(stem.len() - 4)
    } else {
        stem
    }
}

/// The directory an archive is unpacked into: its name under the output directory.
pub open spec fn extract_dir_spec(input: Seq<char>, output_dir: Seq<char>) -> Seq<char> {
    std_join(output_dir, extract_name_spec(input))
}

/// The directory an archive is unpacked into.
pub fn extract_dir(input: &str, output_dir: &str) -> (r: String)
    ensures
        r@ == extract_dir_spec(input@, output_dir@),
{
    let stem = match file_stem(input) {
        Some(s) => s,
        None => String::from_str("extracted"),
    };
    let name = if ends_with(input, ".tar.gz") && ends_with(stem.as_str(), ".tar") {
        let cs = chars_of(stem.as_str());
        proof {
            reveal_strlit(".tar");
        }
        let mut kept: Vec<char> = Vec::new();
        let n = cs.len() - 4;
        let mut i: usize = 0;
        while i < n
            invariant
                n == cs.len() - 4,
                cs.len() >= 4,
                i <= n,
                kept@ == cs@.take(i as int),
            decreases n - i,
        {
            kept.push(cs[i]);
            assert(kept@ =~= cs@.take(i + 1));
            i = i + 1;
        }
        string_of(kept.as_slice())
    } else {
        stem
    };
    join(output_dir, name.as_str())
}

/// A batch command needs at least one file.
pub fn check_files(count: usize) -> (r: Result<(), String>)
    ensures
        r is Ok <==> count > 0,
        r matches Err(m) ==> m@ == "文件列表不能为空"@,
{
    if count == 0 {
        Err(String::from_str("文件列表不能为空"))
    } else {
        Ok(())
    }
}

/// Only zip archives can be made; `format` is compared without case.
pub open spec fn check_compress_format_spec(format: Seq<char>) -> Result<(), Seq<char>> {
    if std_lowercase(format) == "zip"@ {
        Ok(())
    } else {
        Err("暂不支持格式: "@ + format + ", 目前仅支持 zip"@)
    }
}

/// Checks the archive format asked for.
pub fn check_compress_format(format: &str) -> (r: Result<(), String>)
    ensures
        match r {
            Ok(_) => check_compress_format_spec(format@) is Ok,
            Err(m) => check_compress_format_spec(format@) == Err::<(), Seq<char>>(m@),
        },
{
    let fmt = to_lowercase(format);
    if str_eq(fmt.as_str(), "zip") {
        Ok(())
    } else {
        let mut cs: Vec<char> = Vec::new();
        push_str(&mut cs, "暂不支持格式: ");
        push_str(&mut cs, format);
        push_str(&mut cs, ", 目前仅支持 zip");
        Err(string_of(cs.as_slice()))
    }
}

/// The batches of `n` files: one batch of all of them when there are at most 20,
/// else consecutive runs of 20, the last one shorter.
pub open spec fn batch_count(n: nat) -> nat {
    if n <= 20 {
        1
    } else {
        ((n + 19) / 20) as nat
    }
}

/// The `i`-th batch of `files`.
pub open spec fn batch_spec(files: Seq<Seq<char>>, i: int) -> Seq<Seq<char>> {
    if files.len() <= 20 {
        files
    } else {
        let lo = 20 * i;
        let hi = if 20 * i + 20 <= files.len() { 20 * i + 20 } else { files.len() as int };
        files.subrange(lo, hi)
    }
}

/// Splits the files to pack into batches.
pub fn compress_batches(files: &Vec<String>) -> (r: Vec<Vec<String>>)
    ensures
        r.len() == batch_count(files.len() as nat),
        forall|i: int| 0 <= i < r.len() ==> views((#[trigger] r@[i])@) == batch_spec(views(files@), i),
{
    let mut r: Vec<Vec<String>> = Vec::new();
    if files.len() <= 20 {
        r.push(crate::pipeline::preview::copy_strings(files));
        return r;
    }
    let ghost fv = views(files@);
    let n = files.len();
    let count: usize = n / 20 + if n % 20 != 0 { 1 } else { 0 };
    assert(count as nat == batch_count(n as nat));
    let mut j: usize = 0;
    while j < count
        invariant
            n == files.len(),
            n > 20,
            count as nat == batch_count(n as nat),
            count == n / 20 + if n % 20 != 0 { 1usize } else { 0usize },
            j <= count,
            fv == views(files@),
            r.len() == j,
            forall|i: int| 0 <= i < r.len() ==> views((#[trigger] r@[i])@) == batch_spec(fv, i),
        decreases count - j,
    {
        assert(j * 20 < n) by (nonlinear_arith)
            requires
                j < n / 20 + (if n % 20 != 0 { 1usize } else { 0usize }),
                n > 20,
        ;
        let lo = j * 20;
        let hi = if n - lo >= 20 { lo + 20 } else { n };
        let mut b: Vec<String> = Vec::new();
        let mut k = lo;
        while k < hi
            invariant
                lo <= k <= hi,
                hi <= files.len(),
                views(b@) == fv.subrange(lo as int, k as int),
                fv == views(files@),
            decreases hi - k,
        {
            let ghost old_b = b@;
            b.push(files[k].clone());
            assert(views(b@) =~= views(old_b).push(files@[k as int]@));
            assert(views(b@) =~= fv.subrange(lo as int, k + 1));
            k = k + 1;
        }
        let ghost old_r = r@;
        r.push(b);
        proof {
            assert forall|i: int| 0 <= i < r.len() implies views((#[trigger] r@[i])@) == batch_spec(fv, i) by {
                if i < old_r.len() {
                    assert(r@[i] == old_r[i]);
                }
            }
        }
        j = j + 1;
    }
    r
}

/// The file name of batch `i` of `count`: "archive.zip" alone, else "archive_{i+1}.zip".
pub open spec fn archive_name_spec(i: nat, count: nat) -> Seq<char> {
    if count > 1 {
        "archive_"@ + decimal(i + 1) + ".zip"@
    } else {
        "archive.zip"@
    }
}

/// The file name of batch `i` of `count`.
pub fn archive_name(i: usize, count: usize) -> (r: String)
    requires
        i < count,
    ensures
        r@ == archive_name_spec(i as nat, count as nat),
{
    if count > 1 {
        let mut cs: Vec<char> = Vec::new();
        push_str(&mut cs, "archive_");
        push_decimal(&mut cs, (i as u128) + 1);
        push_str(&mut cs, ".zip");
        assert(cs@ =~= archive_name_spec(i as nat, count as nat));
        string_of(cs.as_slice())
    } else {
        String::from_str("archive.zip")
    }
}


/// The label of a batch: its paths joined by '|'.
pub fn batch_label(batch: &Vec<String>) -> (r: String)
    ensures
        r@ == join_spec(views(batch@), "|"@),
{
    join_texts(batch, "|")
}

/// The paths of a batch label: the pieces between its '|' characters.
pub fn batch_members(label: &str) -> (r: Vec<String>)
    ensures
        views(r@) == split_char(label@, '|'),
{
    let pieces = split_pieces(label, '|');
    let mut r: Vec<String> = Vec::new();
    let mut i: usize = 0;
    while i < pieces.len()
        invariant
            i <= pieces.len(),
            views(r@) =~= pieces@.map_values(|v: Vec<char>| v@).take(i as int),
        decreases pieces.len() - i,
    {
        let ghost before = views(r@);
        r.push(string_of(pieces[i].as_slice()));
        assert(views(r@) =~= before.push(pieces@[i as int]@));
        i = i + 1;
    }
    assert(pieces@.map_values(|v: Vec<char>| v@).take(pieces.len() as int) =~= pieces@.map_values(|v: Vec<char>| v@));
    r
}

/// The units of work that unpack each archive into a folder of its own under
/// `output_dir`, in the order of the files.
pub fn extract_tasks(files: &Vec<String>, output_dir: &str) -> (tasks: Vec<TaskPlan>)
    ensures
        tasks.len() == files.len(),
        forall|i: int| 0 <= i < tasks.len() ==> {
            &&& (#[trigger] tasks@[i]).input_path@ == files@[i]@
            &&& tasks@[i].output_path@ == extract_dir_spec(files@[i]@, output_dir@)
            &&& is_task_id(tasks@[i].id@)
        },
{
    let mut tasks: Vec<TaskPlan> = Vec::new();
    let mut i: usize = 0;
    while i < files.len()
        invariant
            i <= files.len(),
            tasks.len() == i,
            forall|k: int| 0 <= k < i ==> {
                &&& (#[trigger] tasks@[k]).input_path@ == files@[k]@
                &&& tasks@[k].output_path@ == extract_dir_spec(files@[k]@, output_dir@)
                &&& is_task_id(tasks@[k].id@)
            },
        decreases files.len() - i,
    {
        let dir = extract_dir(files[i].as_str(), output_dir);
        tasks.push(plan_task(files[i].as_str(), dir.as_str()));
        i = i + 1;
    }
    tasks
}

/// The units of work that pack the files: one per batch, reading the batch's
/// label and writing its archive under `output_dir`.
pub fn compress_tasks(files: &Vec<String>, output_dir: &str) -> (tasks: Vec<TaskPlan>)
    ensures
        tasks.len() == batch_count(files.len() as nat),
        forall|i: int| 0 <= i < tasks.len() ==> {
            &&& (#[trigger] tasks@[i]).input_path@ == join_spec(batch_spec(views(files@), i), "|"@)
            &&& tasks@[i].output_path@ == std_join(output_dir@, archive_name_spec(i as nat, tasks.len() as nat))
            &&& is_task_id(tasks@[i].id@)
        },
{
    let batches = compress_batches(files);
    let count = batches.len();
    let mut tasks: Vec<TaskPlan> = Vec::new();
    let mut i: usize = 0;
    while i < count
        invariant
            count == batches.len(),
            count == batch_count(files.len() as nat),
            forall|k: int| 0 <= k < batches.len() ==> views((#[trigger] batches@[k])@) == batch_spec(views(files@), k),
            i <= count,
            tasks.len() == i,
            forall|k: int| 0 <= k < i ==> {
                &&& (#[trigger] tasks@[k]).input_path@ == join_spec(batch_spec(views(files@), k), "|"@)
                &&& tasks@[k].output_path@ == std_join(output_dir@, archive_name_spec(k as nat, count as nat))
                &&& is_task_id(tasks@[k].id@)
            },
        decreases count - i,
    {
        let label = batch_label(&batches[i]);
        let name = archive_name(i, count);
        let out = join(output_dir, name.as_str());
        assert(views(batches@[i as int]@) == batch_spec(views(files@), i as int));
        tasks.push(plan_task(label.as_str(), out.as_str()));
        i = i + 1;
    }
    tasks
}

/// Archives are unpacked by their lower-cased extension: "zip" as zip, "tar"
/// as tar, "7z" with 7-Zip, "tgz" and a ".tar.gz" name as gzipped tar; a
/// ".gz" that is not ".tar.gz" and any other extension are refused.
pub proof fn extract_method_by_extension(input: Seq<char>)
    ensures
        archive_ext(input) == "zip"@ ==> extract_method_spec(input) == Ok::<ExtractMethod, Seq<char>>(ExtractMethod::Zip),
        archive_ext(input) == "tar"@ ==> extract_method_spec(input) == Ok::<ExtractMethod, Seq<char>>(ExtractMethod::Tar),
        archive_ext(input) == "7z"@ ==> extract_method_spec(input) == Ok::<ExtractMethod, Seq<char>>(ExtractMethod::SevenZip),
        archive_ext(input) == "tgz"@ ==> extract_method_spec(input) == Ok::<ExtractMethod, Seq<char>>(ExtractMethod::TarGz),
        archive_ext(input) == "gz"@ ==> (extract_method_spec(input) is Ok <==> ends_with_spec(input, ".tar.gz"@)),
        archive_ext(input) == "gz"@ && ends_with_spec(input, ".tar.gz"@) ==> extract_method_spec(input) == Ok::<ExtractMethod, Seq<char>>(ExtractMethod::TarGz),
        archive_ext(input) != "zip"@ && archive_ext(input) != "tar"@ && archive_ext(input) != "7z"@
            && archive_ext(input) != "tgz"@ && archive_ext(input) != "gz"@ ==> extract_method_spec(input) is Err,
{
    reveal_strlit("zip");
    reveal_strlit("tar");
    reveal_strlit("7z");
    reveal_strlit("tgz");
    reveal_strlit("gz");
    assert("tar"@[0] != "zip"@[0] && "tar"@.len() != "gz"@.len() && "tar"@[0] != "tgz"@[1]);
    assert("tar"@ != "tgz"@) by { assert("tar"@[1] != "tgz"@[1]); }
    assert("7z"@[0] != "gz"@[0] && "7z"@.len() != "zip"@.len() && "7z"@.len() != "tgz"@.len());
    assert("tgz"@[0] != "zip"@[0] && "tgz"@.len() != "gz"@.len());
    assert("gz"@.len() != "zip"@.len());
}

/// Only zip archives are made: the format, in lower case, must be "zip".
pub proof fn compress_format_is_zip(format: Seq<char>)
    ensures
        check_compress_format_spec(format) is Ok <==> std_lowercase(format) == "zip"@,
{
}

} // verus!
