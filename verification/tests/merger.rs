use fusion::combiner::pdf::merger::{merge, MergeError, PdfDocument};
use fusion::combiner::pdf::object::{Dictionary, Kind, Object, ObjectId};

fn name(text: &str) -> Object {
    Object::Name(text.as_bytes().to_vec())
}

fn dictionary(entries: Vec<(&str, Object)>) -> Object {
    Object::Dictionary(Dictionary {
        entries: entries.into_iter().map(|(k, v)| (k.as_bytes().to_vec(), v)).collect(),
    })
}

/// A document of `pages` pages whose object numbers start at `first`: the catalog, the page
/// tree, an outline, then per page the page and its content.
fn document(first: u32, pages: u32) -> PdfDocument {
    let catalog: ObjectId = (first, 0);
    let tree: ObjectId = (first + 1, 0);
    let outlines: ObjectId = (first + 2, 0);
    let mut objects = vec![
        (
            catalog,
            dictionary(vec![
                ("Type", name("Catalog")),
                ("Pages", Object::Reference(tree)),
                ("Outlines", Object::Reference(outlines)),
                ("Marker", Object::Integer(first as i64)),
            ]),
        ),
        (
            tree,
            dictionary(vec![
                ("Type", name("Pages")),
                ("Count", Object::Integer(pages as i64)),
                ("Kids", Object::Array(vec![])),
                ("Marker", Object::Integer(first as i64)),
            ]),
        ),
        (outlines, dictionary(vec![("Type", name("Outlines"))])),
    ];
    let mut listed = vec![];
    for p in 0..pages {
        let page: ObjectId = (first + 3 + 2 * p, 0);
        let content: ObjectId = (first + 4 + 2 * p, 0);
        objects.push((
            page,
            dictionary(vec![
                ("Type", name("Page")),
                ("Parent", Object::Reference(tree)),
                ("Contents", Object::Reference(content)),
            ]),
        ));
        objects.push((content, Object::String(b"text".to_vec(), fusion::combiner::pdf::object::StringFormat::Literal)));
        listed.push(page);
    }
    PdfDocument { objects, pages: listed, root: Some(catalog) }
}

fn entry<'a>(object: &'a Object, key: &str) -> Option<&'a Object> {
    match object {
        Object::Dictionary(d) => d.get(key.as_bytes()),
        _ => None,
    }
}

#[test]
fn cover_contents_and_two_files_merge_into_ten_pages() {
    let inputs = vec![document(1, 1), document(100, 2), document(200, 3), document(300, 4)];
    let listed: Vec<ObjectId> = inputs.iter().flat_map(|d| d.pages.clone()).collect();
    let merged = merge(inputs).unwrap();

    let catalogs: Vec<&(ObjectId, Object)> =
        merged.objects.iter().filter(|(_, o)| o.classify() == Kind::Catalog).collect();
    let trees: Vec<&(ObjectId, Object)> =
        merged.objects.iter().filter(|(_, o)| o.classify() == Kind::Pages).collect();
    assert_eq!(catalogs.len(), 1);
    assert_eq!(trees.len(), 1);
    let (catalog_id, catalog) = catalogs[0];
    let (tree_id, tree) = trees[0];
    // The first catalog and the first page tree give their ids.
    assert_eq!(*catalog_id, (1, 0));
    assert_eq!(*tree_id, (2, 0));
    assert_eq!(merged.root, Some(*catalog_id));

    assert_eq!(entry(tree, "Count"), Some(&Object::Integer(10)));
    match entry(tree, "Kids") {
        Some(Object::Array(kids)) => {
            assert_eq!(kids.len(), 10);
            let ids: Vec<ObjectId> = kids
                .iter()
                .map(|k| match k {
                    Object::Reference(id) => *id,
                    other => panic!("unexpected kid {:?}", other),
                })
                .collect();
            assert_eq!(ids, listed);
        }
        other => panic!("unexpected kids {:?}", other),
    }
    assert_eq!(merged.pages, listed);

    let pages: Vec<&(ObjectId, Object)> =
        merged.objects.iter().filter(|(_, o)| o.classify() == Kind::Page).collect();
    assert_eq!(pages.len(), 10);
    for (_, page) in pages {
        assert_eq!(entry(page, "Parent"), Some(&Object::Reference(*tree_id)));
        assert!(matches!(entry(page, "Contents"), Some(Object::Reference(_))));
    }

    assert_eq!(entry(catalog, "Pages"), Some(&Object::Reference(*tree_id)));
    assert_eq!(entry(catalog, "Outlines"), None);
    // The catalog is that of the first document.
    assert_eq!(entry(catalog, "Marker"), Some(&Object::Integer(1)));
    // Outlines are left out; the contents of the pages are taken over.
    assert!(merged.objects.iter().all(|(_, o)| o.classify() != Kind::Outlines));
    let copied = merged.objects.iter().filter(|(_, o)| matches!(o, Object::String(..))).count();
    assert_eq!(copied, 10);
    assert_eq!(merged.objects.len(), 10 + 10 + 2);
    // A later page tree adds its entries to the first.
    assert_eq!(entry(tree, "Marker"), Some(&Object::Integer(300)));
}

#[test]
fn without_catalog_or_page_tree_there_is_no_root() {
    assert_eq!(merge(vec![]), Err(MergeError::RootNotFound));
    let mut no_catalog = document(1, 1);
    no_catalog.objects.remove(0);
    assert_eq!(merge(vec![no_catalog]), Err(MergeError::RootNotFound));
    let mut no_tree = document(1, 1);
    no_tree.objects.remove(1);
    assert_eq!(merge(vec![no_tree]), Err(MergeError::RootNotFound));
}

#[test]
fn a_page_that_is_not_listed_is_left_out() {
    let mut input = document(1, 2);
    input.pages.pop();
    let merged = merge(vec![input]).unwrap();
    let pages = merged.objects.iter().filter(|(_, o)| o.classify() == Kind::Page).count();
    assert_eq!(pages, 1);
    let tree = merged.objects.iter().find(|(_, o)| o.classify() == Kind::Pages).unwrap();
    assert_eq!(entry(&tree.1, "Count"), Some(&Object::Integer(1)));
}

#[test]
fn objects_that_are_no_dictionaries_are_no_roots() {
    let mut input = document(1, 1);
    // A stream that calls itself a catalog is left out, and the catalog that follows is taken.
    let stream = Object::Stream(fusion::combiner::pdf::object::Stream {
        dict: Dictionary { entries: vec![(b"Type".to_vec(), name("Catalog"))] },
        content: vec![],
        allows_compression: true,
        start_position: None,
    });
    input.objects.insert(0, ((50, 0), stream));
    let merged = merge(vec![input]).unwrap();
    assert_eq!(merged.root, Some((1, 0)));
    assert!(merged.objects.iter().all(|(id, _)| *id != (50, 0)));
}
