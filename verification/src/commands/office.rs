//! Office document conversion: which inputs and targets are accepted, the name
//! the converter gives its output, and the summary.
use vstd::prelude::*;
use crate::text::{push_str, string_of, to_lowercase, std_lowercase, str_eq};
use crate::paths::{std_extension, std_file_stem, std_path_eq, extension, file_stem, same_path};
use crate::commands::pdf::{format_size, pdf_size_text};

verus! {

/// The input formats the converter reads.
pub open spec fn supported_input(ext: Seq<char>) -> bool {
    ext == "docx"@ || ext == "doc"@ || ext == "xlsx"@ || ext == "xls"@ || ext == "pptx"@ || ext == "ppt"@
        || ext == "odt"@ || ext == "ods"@ || ext == "odp"@
}

/// The formats the converter writes.
pub open spec fn supported_target(fmt: Seq<char>) -> bool {
    fmt == "pdf"@ || fmt == "html"@ || fmt == "docx"@ || fmt == "txt"@ || fmt == "csv"@
}

/// The lower-cased extension of the input ("" when it has none).
pub open spec fn input_ext(input: Seq<char>) -> Seq<char> {
    match std_extension(input) {
        Some(e) => std_lowercase(e),
        None => Seq::empty(),
    }
}

/// The checks on a conversion request (after the input was found to exist):
/// the lower-cased target format, or why the request is refused.
pub open spec fn check_conversion_spec(input: Seq<char>, target_format: Seq<char>) -> Result<Seq<char>, Seq<char>> {
    let ext = input_ext(input);
    let fmt = std_lowercase(target_format);
    if !supported_input(ext) {
        Err("不支持的输入格式: ."@ + ext + ", 支持的格式: [\"docx\", \"doc\", \"xlsx\", \"xls\", \"pptx\", \"ppt\", \"odt\", \"ods\", \"odp\"]"@)
    } else if !supported_target(fmt) {
        Err("不支持的目标格式: "@ + fmt + ", 支持的格式: [\"pdf\", \"html\", \"docx\", \"txt\", \"csv\"]"@)
    } else {
        Ok(fmt)
    }
}

/// Checks a conversion request; gives the lower-cased target format.
pub fn check_conversion(input: &str, target_format: &str) -> (r: Result<String, String>)
    ensures
        match r {
            Ok(f) => check_conversion_spec(input@, target_format@) == Ok::<Seq<char>, Seq<char>>(f@),
            Err(m) => check_conversion_spec(input@, target_format@) == Err::<Seq<char>, Seq<char>>(m@),
        },
{
    let ext = match extension(input) {
        Some(e) => to_lowercase(e.as_str()),
        None => String::new(),
    };
    let e = ext.as_str();
    let ok_in = str_eq(e, "docx") || str_eq(e, "doc") || str_eq(e, "xlsx") || str_eq(e, "xls") || str_eq(e, "pptx")
        || str_eq(e, "ppt") || str_eq(e, "odt") || str_eq(e, "ods") || str_eq(e, "odp");
    if !ok_in {
        let mut cs: Vec<char> = Vec::new();
        push_str(&mut cs, "不支持的输入格式: .");
        push_str(&mut cs, e);
        push_str(&mut cs, ", 支持的格式: [\"docx\", \"doc\", \"xlsx\", \"xls\", \"pptx\", \"ppt\", \"odt\", \"ods\", \"odp\"]");
        return Err(string_of(cs.as_slice()));
    }
    let fmt = to_lowercase(target_format);
    let f = fmt.as_str();
    let ok_out = str_eq(f, "pdf") || str_eq(f, "html") || str_eq(f, "docx") || str_eq(f, "txt") || str_eq(f, "csv");
    if !ok_out {
        let mut cs: Vec<char> = Vec::new();
        push_str(&mut cs, "不支持的目标格式: ");
        push_str(&mut cs, f);
        push_str(&mut cs, ", 支持的格式: [\"pdf\", \"html\", \"docx\", \"txt\", \"csv\"]");
        return Err(string_of(cs.as_slice()));
    }
    Ok(fmt)
}

/// The file name the converter writes: "{stem}.{fmt}", or "output.{fmt}".
pub open spec fn generated_name_spec(input: Seq<char>, fmt: Seq<char>) -> Seq<char> {
    match std_file_stem(input) {
        Some(s) => s + seq!['.'] + fmt,
        None => "output."@ + fmt,
    }
}

/// The file name the converter writes for `input`.
pub fn generated_name(input: &str, fmt: &str) -> (r: String)
    ensures
        r@ == generated_name_spec(input@, fmt@),
{
    let mut cs: Vec<char> = Vec::new();
    match file_stem(input) {
        Some(s) => {
            push_str(&mut cs, s.as_str());
            cs.push('.');
        },
        None => {
            push_str(&mut cs, "output.");
        },
    }
    push_str(&mut cs, fmt);
    assert(cs@ =~= generated_name_spec(input@, fmt@));
    string_of(cs.as_slice())
}

/// "转换完成: {input} → {output}\n文件大小: {size}"
pub open spec fn conversion_summary_spec(input: Seq<char>, output: Seq<char>, size: nat) -> Seq<char> {
    "转换完成: "@ + input + " → "@ + output + "\n文件大小: "@ + pdf_size_text(size)
}

/// The message of a finished conversion.
pub fn conversion_summary(input: &str, output: &str, file_size: u64) -> (r: String)
    ensures
        r@ == conversion_summary_spec(input@, output@, file_size as nat),
{
    let mut cs: Vec<char> = Vec::new();
    push_str(&mut cs, "转换完成: ");
    push_str(&mut cs, input);
    push_str(&mut cs, " → ");
    push_str(&mut cs, output);
    push_str(&mut cs, "\n文件大小: ");
    let size = format_size(file_size);
    push_str(&mut cs, size.as_str());
    assert(cs@ =~= conversion_summary_spec(input@, output@, file_size as nat));
    string_of(cs.as_slice())
}


/// Whether the file LibreOffice wrote must be moved onto the output path:
/// it exists and is not the output itself.
pub fn moves_onto_output(generated: &str, output: &str, present: bool) -> (r: bool)
    ensures
        r == (present && !std_path_eq(generated@, output@)),
{
    present && !same_path(generated, output)
}

/// A conversion is accepted exactly when the input's lower-cased extension is
/// one of docx, doc, xlsx, xls, pptx, ppt, odt, ods, odp and the lower-cased
/// target one of pdf, html, docx, txt, csv; it then gives that target.
pub proof fn conversion_accepts_the_listed_formats(input: Seq<char>, target_format: Seq<char>)
    ensures
        ({
            let ext = input_ext(input);
            let fmt = std_lowercase(target_format);
            let input_ok = ext == "docx"@ || ext == "doc"@ || ext == "xlsx"@ || ext == "xls"@ || ext == "pptx"@
                || ext == "ppt"@ || ext == "odt"@ || ext == "ods"@ || ext == "odp"@;
            let target_ok = fmt == "pdf"@ || fmt == "html"@ || fmt == "docx"@ || fmt == "txt"@ || fmt == "csv"@;
            &&& input_ok && target_ok ==> check_conversion_spec(input, target_format) == Ok::<Seq<char>, Seq<char>>(fmt)
            &&& !(input_ok && target_ok) ==> check_conversion_spec(input, target_format) is Err
        }),
{
}

} // verus!
