use filetoolkit::commands::pdf::{merge_plan, object_role, MergeOutcome, ObjectRole, PdfDocSummary};

fn doc(objects: Vec<(u32, u16, ObjectRole)>, pages: Vec<(u32, u16)>) -> PdfDocSummary {
    PdfDocSummary { objects, pages }
}

#[test]
fn roles_by_type() {
    assert_eq!(object_role("Catalog", true), ObjectRole::Catalog);
    assert_eq!(object_role("Pages", true), ObjectRole::Pages);
    assert_eq!(object_role("Pages", false), ObjectRole::Skipped);
    assert_eq!(object_role("Page", true), ObjectRole::Skipped);
    assert_eq!(object_role("Outlines", true), ObjectRole::Skipped);
    assert_eq!(object_role("Font", true), ObjectRole::Other);
    assert_eq!(object_role("", false), ObjectRole::Other);
}

#[test]
fn nothing_or_one_document() {
    assert_eq!(merge_plan(&vec![]).err().unwrap(), "没有文档可合并");
    assert!(matches!(merge_plan(&vec![doc(vec![], vec![])]), Ok(MergeOutcome::Single)));
}

#[test]
fn two_documents() {
    let a = doc(
        vec![(1, 0, ObjectRole::Catalog), (2, 0, ObjectRole::Pages), (3, 0, ObjectRole::Skipped), (4, 0, ObjectRole::Other)],
        vec![(3, 0)],
    );
    let b = doc(
        vec![(5, 0, ObjectRole::Catalog), (6, 0, ObjectRole::Pages), (7, 0, ObjectRole::Skipped), (8, 0, ObjectRole::Skipped), (9, 0, ObjectRole::Other)],
        vec![(8, 0), (7, 0)],
    );
    match merge_plan(&vec![a, b]) {
        Ok(MergeOutcome::Merged(plan)) => {
            assert_eq!(plan.others, vec![(0, 4, 0), (1, 9, 0)]);
            assert_eq!(plan.pages_chain, vec![(0, 2, 0), (1, 6, 0)]);
            assert_eq!(plan.page_objects, vec![(0, 3, 0), (1, 8, 0), (1, 7, 0)]);
            assert_eq!(plan.kids, vec![(3, 0), (7, 0), (8, 0)]);
            assert_eq!(plan.catalog, (1, 5, 0));
        }
        _ => panic!("expected a merge plan"),
    }
}

#[test]
fn missing_roots() {
    let no_pages = vec![doc(vec![(1, 0, ObjectRole::Catalog)], vec![]), doc(vec![], vec![])];
    assert_eq!(merge_plan(&no_pages).err().unwrap(), "未找到 Pages 根对象");
    let no_catalog = vec![doc(vec![(1, 0, ObjectRole::Pages)], vec![]), doc(vec![], vec![])];
    assert_eq!(merge_plan(&no_catalog).err().unwrap(), "未找到 Catalog 根对象");
}
