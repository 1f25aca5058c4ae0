//! PDF commands: page-range parsing, split naming, size texts, and the plan
//! by which several documents are merged into one.
use vstd::prelude::*;
use crate::text::{
    chars_of, string_of, push_str, push_decimal, char_from_digit, decimal, digit_char, trim_spec, trim_chars,
    parse_u32_spec, parse_u32, str_eq,
};
use crate::commands::diskusage::{int_as_f64, round_half_even_div, u64_as_f64_value, div_round_half_even};

verus! {

/// The index of the first `c` in `s`.
pub open spec fn first_index_of(s: Seq<char>, c: char) -> Option<int>
    decreases s.len(),
{
    if s.len() == 0 {
        None
    } else if s[0] == c {
        Some(0)
    } else {
        match first_index_of(s.drop_first(), c) {
            Some(i) => Some(i + 1),
            None => None,
        }
    }
}

/// "页码 {page} 超出范围 (1-{total})"
pub open spec fn out_of_range_message(page: nat, total: nat) -> Seq<char> {
    "页码 "@ + decimal(page) + " 超出范围 (1-"@ + decimal(total) + ")"@
}

/// "无效页码: {text}"
pub open spec fn invalid_page_message(text: Seq<char>) -> Seq<char> {
    "无效页码: "@ + text
}

/// What a page range ("3", "1-5", "5-") means for a document of `total` pages:
/// the first and last page, 1-based, or why it is refused.
pub open spec fn parse_range_spec(range: Seq<char>, total: u32) -> Result<(u32, u32), Seq<char>> {
    match first_index_of(range, '-') {
        Some(i) => {
            let s = trim_spec(range.take(i));
            let e = trim_spec(range.skip(i + 1));
            if s.len() == 0 {
                Err("无效页码范围: "@ + range)
            } else {
                match parse_u32_spec(s) {
                    None => Err(invalid_page_message(s)),
                    Some(start) => if start < 1 || start > total {
                        Err(out_of_range_message(start as nat, total as nat))
                    } else if e.len() == 0 {
                        Ok((start, total))
                    } else {
                        match parse_u32_spec(e) {
                            None => Err(invalid_page_message(e)),
                            Some(end) => if end > total {
                                Err(out_of_range_message(end as nat, total as nat))
                            } else if start > end {
                                Err("起始页码 "@ + decimal(start as nat) + " 不能大于结束页码 "@ + decimal(end as nat))
                            } else {
                                Ok((start, end))
                            },
                        }
                    },
                }
            }
        },
        None => match parse_u32_spec(trim_spec(range)) {
            None => Err(invalid_page_message(range)),
            Some(p) => if p < 1 || p > total {
                Err(out_of_range_message(p as nat, total as nat))
            } else {
                Ok((p, p))
            },
        },
    }
}

fn find_char(s: &Vec<char>, c: char) -> (r: Option<usize>)
    ensures
        match r {
            Some(i) => first_index_of(s@, c) == Some(i as int) && i < s.len(),
            None => first_index_of(s@, c) is None,
        },
{
    let mut i: usize = 0;
    assert(s@.skip(0) =~= s@);
    while i < s.len()
        invariant
            i <= s.len(),
            forall|k: int| 0 <= k < i ==> s@[k] != c,
            first_index_of(s@, c) == match first_index_of(s@.skip(i as int), c) {
                Some(j) => Some(j + i),
                None => None::<int>,
            },
        decreases s.len() - i,
    {
        assert(s@.skip(i as int).drop_first() =~= s@.skip(i + 1));
        if s[i] == c {
            return Some(i);
        }
        i = i + 1;
    }
    None
}

fn sub_chars(s: &Vec<char>, from: usize, to: usize) -> (r: Vec<char>)
    requires
        from <= to <= s.len(),
    ensures
        r@ == s@.subrange(from as int, to as int),
{
    let mut r: Vec<char> = Vec::new();
    let mut k = from;
    while k < to
        invariant
            from <= k <= to,
            to <= s.len(),
            r@ == s@.subrange(from as int, k as int),
        decreases to - k,
    {
        r.push(s[k]);
        assert(r@ =~= s@.subrange(from as int, k + 1));
        k = k + 1;
    }
    r
}

fn out_of_range(page: u32, total: u32) -> (r: String)
    ensures
        r@ == out_of_range_message(page as nat, total as nat),
{
    let mut cs: Vec<char> = Vec::new();
    push_str(&mut cs, "页码 ");
    push_decimal(&mut cs, page as u128);
    push_str(&mut cs, " 超出范围 (1-");
    push_decimal(&mut cs, total as u128);
    push_str(&mut cs, ")");
    assert(cs@ =~= out_of_range_message(page as nat, total as nat));
    string_of(cs.as_slice())
}

fn invalid_page(text: &Vec<char>) -> (r: String)
    ensures
        r@ == invalid_page_message(text@),
{
    let mut cs: Vec<char> = Vec::new();
    push_str(&mut cs, "无效页码: ");
    let mut t = text.clone();
    cs.append(&mut t);
    string_of(cs.as_slice())
}

/// Parses a page range: "3" is page 3, "1-5" pages 1 to 5, "5-" page 5 to the end.
pub fn parse_range(range: &str, total_pages: u32) -> (r: Result<(u32, u32), String>)
    ensures
        match r {
            Ok(pages) => parse_range_spec(range@, total_pages) == Ok::<(u32, u32), Seq<char>>(pages),
            Err(m) => parse_range_spec(range@, total_pages) == Err::<(u32, u32), Seq<char>>(m@),
        },
        r matches Ok((s, e)) ==> 1 <= s <= e <= total_pages,
{
    let cs = chars_of(range);
    match find_char(&cs, '-') {
        Some(i) => {
            let s = trim_chars(&sub_chars(&cs, 0, i));
            let e = trim_chars(&sub_chars(&cs, i + 1, cs.len()));
            assert(cs@.subrange(0, i as int) =~= range@.take(i as int));
            assert(cs@.subrange(i + 1, cs@.len() as int) =~= range@.skip(i + 1));
            if s.len() == 0 {
                let mut m: Vec<char> = Vec::new();
                push_str(&mut m, "无效页码范围: ");
                push_str(&mut m, range);
                return Err(string_of(m.as_slice()));
            }
            let start = match parse_u32(&s) {
                None => return Err(invalid_page(&s)),
                Some(v) => v,
            };
            if start < 1 || start > total_pages {
                return Err(out_of_range(start, total_pages));
            }
            let end = if e.len() == 0 {
                total_pages
            } else {
                let v = match parse_u32(&e) {
                    None => return Err(invalid_page(&e)),
                    Some(v) => v,
                };
                if v > total_pages {
                    return Err(out_of_range(v, total_pages));
                }
                v
            };
            if start > end {
                let mut m: Vec<char> = Vec::new();
                push_str(&mut m, "起始页码 ");
                push_decimal(&mut m, start as u128);
                push_str(&mut m, " 不能大于结束页码 ");
                push_decimal(&mut m, end as u128);
                return Err(string_of(m.as_slice()));
            }
            Ok((start, end))
        },
        None => {
            let t = trim_chars(&cs);
            match parse_u32(&t) {
                None => {
                    let mut m: Vec<char> = Vec::new();
                    push_str(&mut m, "无效页码: ");
                    push_str(&mut m, range);
                    Err(string_of(m.as_slice()))
                },
                Some(p) => {
                    if p < 1 || p > total_pages {
                        Err(out_of_range(p, total_pages))
                    } else {
                        Ok((p, p))
                    }
                },
            }
        },
    }
}


/// The size text of the PDF commands: "{:.1} MB" from 1 MB, "{:.0} KB" from 1 KB,
/// else "{} B", each number the double-precision quotient rounded to nearest, ties to even.
pub open spec fn pdf_size_text(size: nat) -> Seq<char> {
    if size >= 1048576 {
        let t = round_half_even_div(int_as_f64(size) * 10, 1048576);
        decimal(t / 10) + seq!['.', digit_char(t % 10)] + " MB"@
    } else if size >= 1024 {
        decimal(round_half_even_div(size, 1024)) + " KB"@
    } else {
        decimal(size) + " B"@
    }
}

/// Formats a file size for the PDF commands' messages.
pub fn format_size(size: u64) -> (r: String)
    ensures
        r@ == pdf_size_text(size as nat),
{
    let mut cs: Vec<char> = Vec::new();
    if size >= 1048576 {
        let f = u64_as_f64_value(size);
        let t = div_round_half_even(f * 10, 1048576);
        push_decimal(&mut cs, t / 10);
        cs.push('.');
        cs.push(char_from_digit((t % 10) as u32));
        push_str(&mut cs, " MB");
    } else if size >= 1024 {
        let q = div_round_half_even(size as u128, 1024);
        push_decimal(&mut cs, q);
        push_str(&mut cs, " KB");
    } else {
        push_decimal(&mut cs, size as u128);
        push_str(&mut cs, " B");
    }
    assert(cs@ =~= pdf_size_text(size as nat));
    string_of(cs.as_slice())
}

/// The file name of the part of a split holding pages `start` to `end`:
/// "split_{start}-{end}.pdf", with "end" for the last page of the document.
pub open spec fn split_name_spec(start: u32, end: u32, total: u32) -> Seq<char> {
    "split_"@ + decimal(start as nat) + seq!['-'] + (if end == total { "end"@ } else { decimal(end as nat) }) + ".pdf"@
}

/// The file name of a split part.
pub fn split_output_name(start: u32, end: u32, total_pages: u32) -> (r: String)
    ensures
        r@ == split_name_spec(start, end, total_pages),
{
    let mut cs: Vec<char> = Vec::new();
    push_str(&mut cs, "split_");
    push_decimal(&mut cs, start as u128);
    cs.push('-');
    if end == total_pages {
        push_str(&mut cs, "end");
    } else {
        push_decimal(&mut cs, end as u128);
    }
    push_str(&mut cs, ".pdf");
    assert(cs@ =~= split_name_spec(start, end, total_pages));
    string_of(cs.as_slice())
}

/// The pages of `pages` outside `start..=end`, in order.
pub open spec fn pages_outside(pages: Seq<u32>, start: u32, end: u32) -> Seq<u32>
    decreases pages.len(),
{
    if pages.len() == 0 {
        Seq::empty()
    } else {
        pages_outside(pages.drop_last(), start, end) + if pages.last() < start || pages.last() > end {
            seq![pages.last()]
        } else {
            Seq::empty()
        }
    }
}

/// The pages to delete so that only `start..=end` remain.
pub fn pages_to_delete(pages: &Vec<u32>, start: u32, end: u32) -> (r: Vec<u32>)
    ensures
        r@ == pages_outside(pages@, start, end),
{
    let mut r: Vec<u32> = Vec::new();
    let mut i: usize = 0;
    assert(pages@.take(0) =~= Seq::<u32>::empty());
    while i < pages.len()
        invariant
            i <= pages.len(),
            r@ == pages_outside(pages@.take(i as int), start, end),
        decreases pages.len() - i,
    {
        assert(pages@.take(i + 1).drop_last() =~= pages@.take(i as int));
        let p = pages[i];
        if p < start || p > end {
            r.push(p);
        }
        assert(r@ =~= pages_outside(pages@.take(i + 1), start, end));
        i = i + 1;
    }
    assert(pages@.take(pages.len() as int) =~= pages@);
    r
}

/// Merging needs at least two files.
pub fn check_merge_inputs(file_count: usize) -> (r: Result<(), String>)
    ensures
        r is Ok <==> file_count >= 2,
        r matches Err(m) ==> m@ == "至少需要两个 PDF 文件才能合并"@,
{
    if file_count < 2 {
        Err(String::from_str("至少需要两个 PDF 文件才能合并"))
    } else {
        Ok(())
    }
}

/// Splitting needs at least one range.
pub fn check_split_ranges(range_count: usize) -> (r: Result<(), String>)
    ensures
        r is Ok <==> range_count > 0,
        r matches Err(m) ==> m@ == "页码范围不能为空"@,
{
    if range_count == 0 {
        Err(String::from_str("页码范围不能为空"))
    } else {
        Ok(())
    }
}

/// "合并完成: {count} 个文件 → {output}\n总大小: {size}"
pub open spec fn merge_summary_spec(count: nat, output: Seq<char>, total_size: nat) -> Seq<char> {
    "合并完成: "@ + decimal(count) + " 个文件 → "@ + output + "\n总大小: "@ + pdf_size_text(total_size)
}

/// The message of a finished merge.
pub fn merge_summary(count: usize, output_path: &str, total_size: u64) -> (r: String)
    ensures
        r@ == merge_summary_spec(count as nat, output_path@, total_size as nat),
{
    let mut cs: Vec<char> = Vec::new();
    push_str(&mut cs, "合并完成: ");
    push_decimal(&mut cs, count as u128);
    push_str(&mut cs, " 个文件 → ");
    push_str(&mut cs, output_path);
    push_str(&mut cs, "\n总大小: ");
    let size = format_size(total_size);
    push_str(&mut cs, size.as_str());
    assert(cs@ =~= merge_summary_spec(count as nat, output_path@, total_size as nat));
    string_of(cs.as_slice())
}

// ============================================================
// Merging documents
// ============================================================

/// The part an object of a source document plays in a merge, by its /Type.
#[derive(PartialEq, Eq, Structural, Clone, Copy, Debug)]
pub enum ObjectRole {
    /// The document catalog; the last one seen becomes the merged one.
    Catalog,
    /// A page-tree root dictionary; they are combined, the last one seen first.
    Pages,
    /// A page, an outline or a page tree root that is not a dictionary: left out.
    Skipped,
    /// Anything else: carried over as it is.
    Other,
}

/// The role of an object with the given /Type ("" when it has none).
pub open spec fn role_spec(kind_name: Seq<char>, is_dict: bool) -> ObjectRole {
    if kind_name == "Catalog"@ {
        ObjectRole::Catalog
    } else if kind_name == "Pages"@ {
        if is_dict {
            ObjectRole::Pages
        } else {
            ObjectRole::Skipped
        }
    } else if kind_name == "Page"@ || kind_name == "Outlines"@ || kind_name == "Outline"@ {
        ObjectRole::Skipped
    } else {
        ObjectRole::Other
    }
}

/// The role of an object in a merge.
pub fn object_role(kind_name: &str, is_dict: bool) -> (r: ObjectRole)
    ensures
        r == role_spec(kind_name@, is_dict),
{
    if str_eq(kind_name, "Catalog") {
        ObjectRole::Catalog
    } else if str_eq(kind_name, "Pages") {
        if is_dict {
            ObjectRole::Pages
        } else {
            ObjectRole::Skipped
        }
    } else if str_eq(kind_name, "Page") || str_eq(kind_name, "Outlines") || str_eq(kind_name, "Outline") {
        ObjectRole::Skipped
    } else {
        ObjectRole::Other
    }
}

/// What a merge reads of one source document, after its objects were
/// renumbered apart from those of the others: each object's id and role, in
/// id order, and the ids of its pages, in page order.
pub struct PdfDocSummary {
    pub objects: Vec<(u32, u16, ObjectRole)>,
    pub pages: Vec<(u32, u16)>,
}

/// The objects of document `d` with the given role, tagged with `d`.
pub open spec fn with_role(d: usize, objs: Seq<(u32, u16, ObjectRole)>, role: ObjectRole) -> Seq<(usize, u32, u16)>
    decreases objs.len(),
{
    if objs.len() == 0 {
        Seq::empty()
    } else {
        let r = with_role(d, objs.drop_last(), role);
        if objs.last().2 == role {
            r.push((d, objs.last().0, objs.last().1))
        } else {
            r
        }
    }
}

/// The objects of all documents with the given role, in order.
pub open spec fn all_with_role(docs: Seq<PdfDocSummary>, role: ObjectRole) -> Seq<(usize, u32, u16)>
    decreases docs.len(),
{
    if docs.len() == 0 {
        Seq::empty()
    } else {
        all_with_role(docs.drop_last(), role) + with_role((docs.len() - 1) as usize, docs.last().objects@, role)
    }
}

/// The pages of document `d`, tagged with `d`.
pub open spec fn tagged_pages(d: usize, pages: Seq<(u32, u16)>) -> Seq<(usize, u32, u16)> {
    pages.map_values(|p: (u32, u16)| (d, p.0, p.1))
}

/// The pages of all documents, in order.
pub open spec fn all_pages(docs: Seq<PdfDocSummary>) -> Seq<(usize, u32, u16)>
    decreases docs.len(),
{
    if docs.len() == 0 {
        Seq::empty()
    } else {
        all_pages(docs.drop_last()) + tagged_pages((docs.len() - 1) as usize, docs.last().pages@)
    }
}

/// Whether object id `a` comes before `b`.
pub open spec fn id_before(a: (u32, u16), b: (u32, u16)) -> bool {
    a.0 < b.0 || (a.0 == b.0 && a.1 < b.1)
}

/// `kids` lists, in increasing order, each id of the given pages once.
pub open spec fn kids_of(pages: Seq<(usize, u32, u16)>, kids: Seq<(u32, u16)>) -> bool {
    &&& forall|a: int, b: int| 0 <= a < b < kids.len() ==> id_before(#[trigger] kids[a], #[trigger] kids[b])
    &&& forall|x: (u32, u16)| #[trigger] kids.contains(x) <==> exists|k: int| 0 <= k < pages.len() && (#[trigger] pages[k]).1 == x.0 && pages[k].2 == x.1
}

/// How documents are merged: the objects carried over (later ones replace
/// earlier ones with the same id); the page-tree roots in the order seen,
/// the last being the merged root, each combined with the one seen before;
/// the page objects in the order seen, which the merged root's kids become,
/// in increasing order; and the catalog.
pub struct MergePlan {
    pub others: Vec<(usize, u32, u16)>,
    pub pages_chain: Vec<(usize, u32, u16)>,
    pub page_objects: Vec<(usize, u32, u16)>,
    pub kids: Vec<(u32, u16)>,
    pub catalog: (usize, u32, u16),
}

/// What merging comes to: a single document is kept as it is.
pub enum MergeOutcome {
    Single,
    Merged(MergePlan),
}

/// Appends the objects of document `d` with the given role.
fn push_with_role(out: &mut Vec<(usize, u32, u16)>, d: usize, objs: &Vec<(u32, u16, ObjectRole)>, role: ObjectRole)
    ensures
        final(out)@ == old(out)@ + with_role(d, objs@, role),
{
    let mut k: usize = 0;
    assert(objs@.take(0) =~= Seq::<(u32, u16, ObjectRole)>::empty());
    assert(old(out)@ + with_role(d, objs@.take(0), role) =~= old(out)@);
    while k < objs.len()
        invariant
            k <= objs.len(),
            out@ == old(out)@ + with_role(d, objs@.take(k as int), role),
        decreases objs.len() - k,
    {
        assert(objs@.take(k + 1).drop_last() =~= objs@.take(k as int));
        assert(objs@.take(k + 1).last() == objs@[k as int]);
        let (a, b, r) = objs[k];
        if r == role {
            out.push((d, a, b));
            assert(out@ =~= old(out)@ + with_role(d, objs@.take(k + 1), role));
        } else {
            assert(out@ =~= old(out)@ + with_role(d, objs@.take(k + 1), role));
        }
        k = k + 1;
    }
    assert(objs@.take(objs.len() as int) =~= objs@);
}

/// Adds an object id to an increasing list of distinct ids.
fn insert_kid(kids: &mut Vec<(u32, u16)>, x: (u32, u16))
    requires
        forall|a: int, b: int| 0 <= a < b < old(kids).len() ==> id_before(#[trigger] old(kids)@[a], #[trigger] old(kids)@[b]),
    ensures
        forall|a: int, b: int| 0 <= a < b < final(kids).len() ==> id_before(#[trigger] final(kids)@[a], #[trigger] final(kids)@[b]),
        forall|y: (u32, u16)| #[trigger] final(kids)@.contains(y) <==> (old(kids)@.contains(y) || y == x),
{
    let mut p: usize = 0;
    while p < kids.len() && id_before_exec(kids[p], x)
        invariant
            p <= kids.len(),
            kids@ == old(kids)@,
            forall|t: int| 0 <= t < p ==> id_before(#[trigger] kids@[t], x),
        decreases kids.len() - p,
    {
        p = p + 1;
    }
    if p < kids.len() && kids[p].0 == x.0 && kids[p].1 == x.1 {
        assert(kids@[p as int] == x);
        return;
    }
    let ghost before = kids@;
    kids.insert(p, x);
    proof {
        assert forall|a: int, b: int| 0 <= a < b < kids.len() implies id_before(#[trigger] kids@[a], #[trigger] kids@[b]) by {
            if b < p {
            } else if b == p {
                assert(kids@[a] == before[a]);
            } else if a < p {
                assert(kids@[a] == before[a]);
                assert(kids@[b] == before[b - 1]);
                assert(id_before(before[a], before[p as int]) || a == p);
            } else if a == p {
                assert(kids@[b] == before[b - 1]);
                if b - 1 > p {
                    assert(id_before(before[p as int], before[b - 1]));
                }
            } else {
                assert(kids@[a] == before[a - 1]);
                assert(kids@[b] == before[b - 1]);
            }
        }
        assert forall|y: (u32, u16)| #[trigger] kids@.contains(y) <==> (before.contains(y) || y == x) by {
            if before.contains(y) {
                let w = choose|w: int| 0 <= w < before.len() && before[w] == y;
                if w < p {
                    assert(kids@[w] == y);
                } else {
                    assert(kids@[w + 1] == y);
                }
            }
            if y == x {
                assert(kids@[p as int] == y);
            }
            if kids@.contains(y) {
                let w = choose|w: int| 0 <= w < kids.len() && kids@[w] == y;
                if w < p {
                    assert(before[w] == y);
                } else if w > p {
                    assert(before[w - 1] == y);
                }
            }
        }
    }
}

/// Whether id `a` comes before `b`.
fn id_before_exec(a: (u32, u16), b: (u32, u16)) -> (r: bool)
    ensures
        r == id_before(a, b),
{
    a.0 < b.0 || (a.0 == b.0 && a.1 < b.1)
}

/// The plan for merging the documents summarised in `docs`: a single
/// document stays as it is; otherwise the plan, or why there is none.
pub fn merge_plan(docs: &Vec<PdfDocSummary>) -> (r: Result<MergeOutcome, String>)
    ensures
        docs.len() == 0 ==> (r matches Err(e) && e@ == "没有文档可合并"@),
        docs.len() == 1 ==> (r matches Ok(MergeOutcome::Single)),
        docs.len() >= 2 ==> {
            let chain = all_with_role(docs@, ObjectRole::Pages);
            let cats = all_with_role(docs@, ObjectRole::Catalog);
            if chain.len() == 0 {
                (r matches Err(e) && e@ == "未找到 Pages 根对象"@)
            } else if cats.len() == 0 {
                (r matches Err(e) && e@ == "未找到 Catalog 根对象"@)
            } else {
                (r matches Ok(MergeOutcome::Merged(plan)) && {
                    &&& plan.others@ == all_with_role(docs@, ObjectRole::Other)
                    &&& plan.pages_chain@ == chain
                    &&& plan.page_objects@ == all_pages(docs@)
                    &&& kids_of(all_pages(docs@), plan.kids@)
                    &&& plan.catalog == cats.last()
                })
            }
        },
{
    if docs.len() == 0 {
        return Err("没有文档可合并".to_string());
    }
    if docs.len() == 1 {
        return Ok(MergeOutcome::Single);
    }
    let mut others: Vec<(usize, u32, u16)> = Vec::new();
    let mut chain: Vec<(usize, u32, u16)> = Vec::new();
    let mut cats: Vec<(usize, u32, u16)> = Vec::new();
    let mut pages: Vec<(usize, u32, u16)> = Vec::new();
    let mut kids: Vec<(u32, u16)> = Vec::new();
    let mut d: usize = 0;
    assert(docs@.take(0) =~= Seq::<PdfDocSummary>::empty());
    while d < docs.len()
        invariant
            d <= docs.len(),
            others@ == all_with_role(docs@.take(d as int), ObjectRole::Other),
            chain@ == all_with_role(docs@.take(d as int), ObjectRole::Pages),
            cats@ == all_with_role(docs@.take(d as int), ObjectRole::Catalog),
            pages@ == all_pages(docs@.take(d as int)),
            kids_of(pages@, kids@),
        decreases docs.len() - d,
    {
        assert(docs@.take(d + 1).drop_last() =~= docs@.take(d as int));
        assert(docs@.take(d + 1).last() == docs@[d as int]);
        let doc = &docs[d];
        push_with_role(&mut others, d, &doc.objects, ObjectRole::Other);
        push_with_role(&mut chain, d, &doc.objects, ObjectRole::Pages);
        push_with_role(&mut cats, d, &doc.objects, ObjectRole::Catalog);
        let ghost pages_before = pages@;
        let mut k: usize = 0;
        while k < doc.pages.len()
            invariant
                k <= doc.pages.len(),
                pages@ == pages_before + tagged_pages(d, doc.pages@.take(k as int)),
                kids_of(pages@, kids@),
            decreases doc.pages.len() - k,
        {
            let (a, b) = doc.pages[k];
            let ghost old_pages = pages@;
            let ghost old_kids = kids@;
            pages.push((d, a, b));
            insert_kid(&mut kids, (a, b));
            assert(tagged_pages(d, doc.pages@.take(k + 1)) =~= tagged_pages(d, doc.pages@.take(k as int)).push((d, a, b)));
            proof {
                assert forall|x: (u32, u16)| #[trigger] kids@.contains(x) <==> exists|t: int| 0 <= t < pages@.len() && (#[trigger] pages@[t]).1 == x.0 && pages@[t].2 == x.1 by {
                    if old_kids.contains(x) {
                        let t = choose|t: int| 0 <= t < old_pages.len() && (#[trigger] old_pages[t]).1 == x.0 && old_pages[t].2 == x.1;
                        assert(pages@[t] == old_pages[t]);
                    }
                    if x == (a, b) {
                        assert(pages@[old_pages.len() as int] == (d, a, b));
                    }
                    if exists|t: int| 0 <= t < pages@.len() && (#[trigger] pages@[t]).1 == x.0 && pages@[t].2 == x.1 {
                        let t = choose|t: int| 0 <= t < pages@.len() && (#[trigger] pages@[t]).1 == x.0 && pages@[t].2 == x.1;
                        if t < old_pages.len() {
                            assert(old_pages[t] == pages@[t]);
                            assert(old_kids.contains(x));
                        }
                    }
                }
            }
            k = k + 1;
        }
        assert(doc.pages@.take(doc.pages.len() as int) =~= doc.pages@);
        d = d + 1;
    }
    assert(docs@.take(docs.len() as int) =~= docs@);
    if chain.len() == 0 {
        return Err("未找到 Pages 根对象".to_string());
    }
    if cats.len() == 0 {
        return Err("未找到 Catalog 根对象".to_string());
    }
    let catalog = cats[cats.len() - 1];
    Ok(MergeOutcome::Merged(MergePlan { others, pages_chain: chain, page_objects: pages, kids, catalog }))
}

proof fn lemma_first_index_after(a: Seq<char>, b: Seq<char>, c: char)
    requires
        forall|i: int| 0 <= i < a.len() ==> a[i] != c,
    ensures
        first_index_of(a + b, c) == match first_index_of(b, c) {
            Some(j) => Some(j + a.len()),
            None => None::<int>,
        },
    decreases a.len(),
{
    if a.len() == 0 {
        assert(a + b =~= b);
    } else {
        assert((a + b).drop_first() =~= a.drop_first() + b);
        assert((a + b)[0] == a[0]);
        lemma_first_index_after(a.drop_first(), b, c);
    }
}

/// Every page range inside the document is accepted as written: "s-e" gives
/// pages s to e, "s-" pages s to the last, and "p" page p alone, for all
/// 1 <= s <= e <= total and 1 <= p <= total, the last page included.
pub proof fn parse_range_accepts_ranges_in_the_document(s: u32, e: u32, total: u32)
    requires
        1 <= s <= e <= total,
    ensures
        parse_range_spec(decimal(s as nat) + seq!['-'] + decimal(e as nat), total) == Ok::<(u32, u32), Seq<char>>((s, e)),
        parse_range_spec(decimal(s as nat) + seq!['-'], total) == Ok::<(u32, u32), Seq<char>>((s, total)),
        parse_range_spec(decimal(s as nat), total) == Ok::<(u32, u32), Seq<char>>((s, s)),
        parse_range_spec(decimal(e as nat), total) == Ok::<(u32, u32), Seq<char>>((e, e)),
{
    let ds = decimal(s as nat);
    let de = decimal(e as nat);
    crate::text::lemma_decimal_digits(s as nat);
    crate::text::lemma_decimal_digits(e as nat);
    crate::text::lemma_trim_digits(ds);
    crate::text::lemma_trim_digits(de);
    crate::text::lemma_parse_decimal(s);
    crate::text::lemma_parse_decimal(e);
    assert forall|i: int| 0 <= i < ds.len() implies ds[i] != '-' by {
        assert('0' <= ds[i] <= '9');
    }
    assert forall|i: int| 0 <= i < de.len() implies de[i] != '-' by {
        assert('0' <= de[i] <= '9');
    }
    // "s-e"
    let r1 = ds + seq!['-'] + de;
    assert(r1 =~= ds + (seq!['-'] + de));
    lemma_first_index_after(ds, seq!['-'] + de, '-');
    assert(first_index_of(seq!['-'] + de, '-') == Some(0int));
    assert(r1.take(ds.len() as int) =~= ds);
    assert(r1.skip(ds.len() as int + 1) =~= de);
    // "s-"
    let r2 = ds + seq!['-'];
    lemma_first_index_after(ds, seq!['-'], '-');
    assert(first_index_of(seq!['-'], '-') == Some(0int));
    assert(r2.take(ds.len() as int) =~= ds);
    assert(r2.skip(ds.len() as int + 1) =~= Seq::<char>::empty());
    assert(trim_spec(Seq::<char>::empty()) =~= Seq::<char>::empty());
    // "p"
    lemma_first_index_after(ds, Seq::empty(), '-');
    assert(ds + Seq::<char>::empty() =~= ds);
    lemma_first_index_after(de, Seq::empty(), '-');
    assert(de + Seq::<char>::empty() =~= de);
}

/// The pages to delete when keeping `start..=end` are exactly the pages
/// outside that range: a page is deleted if and only if it is a page of the
/// document below `start` or above `end`.
pub proof fn pages_to_delete_are_those_outside(pages: Seq<u32>, start: u32, end: u32)
    ensures
        forall|x: u32| #[trigger] pages_outside(pages, start, end).contains(x) <==> (pages.contains(x) && (x < start || x > end)),
    decreases pages.len(),
{
    if pages.len() > 0 {
        pages_to_delete_are_those_outside(pages.drop_last(), start, end);
        let rest = pages_outside(pages.drop_last(), start, end);
        let last = pages.last();
        assert forall|x: u32| #[trigger] pages_outside(pages, start, end).contains(x) <==> (pages.contains(x) && (x < start || x > end)) by {
            if last < start || last > end {
                assert(pages_outside(pages, start, end) == rest.push(last));
            } else {
                assert(pages_outside(pages, start, end) =~= rest);
            }
            assert(pages =~= pages.drop_last().push(last));
            if pages.contains(x) && !pages.drop_last().contains(x) {
                let k = choose|k: int| 0 <= k < pages.len() && pages[k] == x;
                if k < pages.len() - 1 {
                    assert(pages.drop_last()[k] == x);
                }
            }
            if pages.drop_last().contains(x) {
                let k = choose|k: int| 0 <= k < pages.drop_last().len() && pages.drop_last()[k] == x;
                assert(pages[k] == x);
            }
            if pages_outside(pages, start, end).contains(x) && !rest.contains(x) {
                let k = choose|k: int| 0 <= k < pages_outside(pages, start, end).len() && pages_outside(pages, start, end)[k] == x;
                if k < rest.len() {
                    assert(pages_outside(pages, start, end)[k] == rest[k]);
                }
            }
            if rest.contains(x) {
                let k = choose|k: int| 0 <= k < rest.len() && rest[k] == x;
                assert(pages_outside(pages, start, end)[k] == x);
            }
            if x == last && (x < start || x > end) {
                assert(pages_outside(pages, start, end)[rest.len() as int] == x);
            }
        }
    } else {
        assert forall|x: u32| #[trigger] pages_outside(pages, start, end).contains(x) <==> (pages.contains(x) && (x < start || x > end)) by {
            assert(pages_outside(pages, start, end) =~= Seq::<u32>::empty());
        }
    }
}

/// A split part is named "split_", its first page, '-', then "end" when it
/// reaches the document's last page, else its last page, and ".pdf".
pub proof fn split_names(start: u32, end: u32, total: u32)
    ensures
        end == total ==> split_name_spec(start, end, total) == "split_"@ + decimal(start as nat) + "-end.pdf"@,
        end != total ==> split_name_spec(start, end, total) == "split_"@ + decimal(start as nat) + seq!['-'] + decimal(end as nat) + ".pdf"@,
{
    reveal_strlit("-end.pdf");
    reveal_strlit("end");
    reveal_strlit(".pdf");
    assert("-end.pdf"@ =~= seq!['-'] + "end"@ + ".pdf"@);
    assert("split_"@ + decimal(start as nat) + seq!['-'] + "end"@ + ".pdf"@ =~= "split_"@ + decimal(start as nat) + "-end.pdf"@);
}

} // verus!
