//! Merging PDF documents into one: the objects of all of them under one
//! catalog and one page tree.

use super::object::{
    key_count, key_kids, key_parent, key_type, name_catalog, name_outline, name_outlines,
    name_page, name_pages, Dictionary, Kind, Object, ObjectId,
};
use vstd::prelude::*;

verus! {

/// A PDF document as a list of objects. Where an id stands more than once
/// among the objects, its last entry counts.
#[derive(Debug, PartialEq)]
pub struct PdfDocument {
    /// The objects with their ids.
    pub objects: Vec<(ObjectId, Object)>,
    /// The ids of the pages, in page order.
    pub pages: Vec<ObjectId>,
    /// The id of the catalog that the trailer names as `/Root`.
    pub root: Option<ObjectId>,
}

/// Why documents could not be merged.
#[derive(Debug, Clone, Copy, PartialEq, Eq, Structural)]
pub enum MergeError {
    /// There is no catalog or no page tree among the objects.
    RootNotFound,
}

/// What merging does with an object.
#[derive(Debug, Clone, Copy, PartialEq, Eq, Structural)]
pub enum Role {
    /// It is taken over as it is.
    Copied,
    /// It is a page and goes under the one page tree.
    Page,
    /// It is a catalog; the first one becomes the catalog of the result.
    Catalog,
    /// It is the root of a page tree; all of them become one.
    Root,
    /// It is left out: an outline, a page that its document does not
    /// list, or a catalog, page or page tree that is no dictionary.
    Dropped,
}

/// An object of one of the documents with what merging does with it.
pub struct Item {
    pub id: ObjectId,
    pub object: Object,
    pub role: Role,
}

/// What merging does with the object `entry` of a document whose pages are
/// `pages`.
pub open spec fn role_of(entry: (ObjectId, Object), pages: Seq<ObjectId>) -> Role {
    match entry.1.kind() {
        Kind::Other => Role::Copied,
        Kind::Page => if entry.1 is Dictionary && pages.contains(entry.0) {
            Role::Page
        } else {
            Role::Dropped
        },
        Kind::Catalog => if entry.1 is Dictionary {
            Role::Catalog
        } else {
            Role::Dropped
        },
        Kind::Pages => if entry.1 is Dictionary {
            Role::Root
        } else {
            Role::Dropped
        },
        _ => Role::Dropped,
    }
}

/// The object `entry` of a document whose pages are `pages`, as an item.
pub open spec fn item_of(entry: (ObjectId, Object), pages: Seq<ObjectId>) -> Item {
    Item { id: entry.0, object: entry.1, role: role_of(entry, pages) }
}

/// The objects of one document as items, in order.
pub open spec fn items_of(objects: Seq<(ObjectId, Object)>, pages: Seq<ObjectId>) -> Seq<Item> {
    objects.map_values(|e: (ObjectId, Object)| item_of(e, pages))
}

/// The objects of all documents as items, document by document.
pub open spec fn items(documents: Seq<PdfDocument>) -> Seq<Item>
    decreases documents.len(),
{
    if documents.len() == 0 {
        Seq::<Item>::empty()
    } else {
        items(documents.drop_last()) + items_of(
            documents.last().objects@,
            documents.last().pages@,
        )
    }
}

/// The pages of all documents, document by document.
pub open spec fn listed_pages(documents: Seq<PdfDocument>) -> Seq<ObjectId>
    decreases documents.len(),
{
    if documents.len() == 0 {
        Seq::<ObjectId>::empty()
    } else {
        listed_pages(documents.drop_last()) + documents.last().pages@
    }
}

/// The number of pages of all documents together.
pub open spec fn page_total(documents: Seq<PdfDocument>) -> nat
    decreases documents.len(),
{
    if documents.len() == 0 {
        0
    } else {
        page_total(documents.drop_last()) + documents.last().pages@.len()
    }
}

/// The items with the role `role`, in order.
pub open spec fn with_role(all: Seq<Item>, role: Role) -> Seq<Item>
    decreases all.len(),
{
    if all.len() == 0 {
        Seq::<Item>::empty()
    } else if all.last().role == role {
        with_role(all.drop_last(), role).push(all.last())
    } else {
        with_role(all.drop_last(), role)
    }
}

/// The first item with the role `role`.
pub open spec fn first_with(all: Seq<Item>, role: Role) -> Option<Item>
    decreases all.len(),
{
    if all.len() == 0 {
        None
    } else {
        match first_with(all.drop_last(), role) {
            Some(item) => Some(item),
            None => if all.last().role == role {
                Some(all.last())
            } else {
                None
            },
        }
    }
}

/// The dictionary of an object that is one.
pub open spec fn dictionary_of(object: Object) -> Dictionary {
    object->Dictionary_0
}

/// The value of `key` in the page tree roots merged: the last root that
/// has the key gives its value.
pub open spec fn root_value(all: Seq<Item>, key: Seq<u8>) -> Option<Object>
    decreases all.len(),
{
    if all.len() == 0 {
        None
    } else if all.last().role == Role::Root {
        match dictionary_of(all.last().object).value(key) {
            Some(v) => Some(v),
            None => root_value(all.drop_last(), key),
        }
    } else {
        root_value(all.drop_last(), key)
    }
}

/// References to the objects `ids`, in order.
pub open spec fn references(ids: Seq<ObjectId>) -> Seq<Object> {
    ids.map_values(|id: ObjectId| Object::Reference(id))
}

/// `entry` is the page `item` with its parent set to `root`.
pub open spec fn is_page_under(item: Item, root: ObjectId, entry: (ObjectId, Object)) -> bool {
    &&& entry.0 == item.id
    &&& entry.1 matches Object::Dictionary(d)
    &&& forall|key: Seq<u8>|
        #[trigger] d.value(key) == (if key == key_parent() {
            Some(Object::Reference(root))
        } else {
            dictionary_of(item.object).value(key)
        })
}

/// `entry` is the one page tree root: the roots merged, with the pages
/// `kids` as its kids and their number as its count.
pub open spec fn is_root_of(
    all: Seq<Item>,
    root: ObjectId,
    kids: Seq<ObjectId>,
    entry: (ObjectId, Object),
) -> bool {
    &&& entry.0 == root
    &&& entry.1 matches Object::Dictionary(d)
    &&& d.value(key_count()) == Some(Object::Integer(kids.len() as i64))
    &&& d.value(key_kids()) matches Some(Object::Array(a))
    &&& a@ == references(kids)
    &&& forall|key: Seq<u8>|
        key != key_count() && key != key_kids() ==> #[trigger] d.value(key) == root_value(
            all,
            key,
        )
}

/// `entry` is the catalog `item` with the page tree `root` as its pages
/// and without outlines.
pub open spec fn is_catalog_of(item: Item, root: ObjectId, entry: (ObjectId, Object)) -> bool {
    &&& entry.0 == item.id
    &&& entry.1 matches Object::Dictionary(d)
    &&& forall|key: Seq<u8>|
        #[trigger] d.value(key) == (if key == name_pages() {
            Some(Object::Reference(root))
        } else if key == name_outlines() {
            None
        } else {
            dictionary_of(item.object).value(key)
        })
}

/// `merged` is what the documents with the items `all` and the pages
/// `kids` merge into: the copied objects as they are, then the pages under
/// the one page tree, then the root of that tree, then the catalog, which
/// the trailer names.
pub open spec fn is_merged(all: Seq<Item>, kids: Seq<ObjectId>, merged: PdfDocument) -> bool {
    let copied = with_role(all, Role::Copied);
    let pages = with_role(all, Role::Page);
    &&& first_with(all, Role::Catalog) matches Some(catalog)
    &&& first_with(all, Role::Root) matches Some(root)
    &&& merged.pages@ == kids
    &&& merged.root == Some(catalog.id)
    &&& merged.objects@.len() == copied.len() + pages.len() + 2
    &&& forall|k: int|
        0 <= k < copied.len() ==> #[trigger] merged.objects@[k] == (copied[k].id, copied[k].object)
    &&& forall|k: int|
        0 <= k < pages.len() ==> is_page_under(
            #[trigger] pages[k],
            root.id,
            merged.objects@[copied.len() + k],
        )
    &&& is_root_of(all, root.id, kids, merged.objects@[copied.len() + pages.len() as int])
    &&& is_catalog_of(catalog, root.id, merged.objects@[copied.len() + pages.len() + 1 as int])
}

/// Whether `id` is one of `ids`.
fn contains_id(ids: &Vec<ObjectId>, id: ObjectId) -> (r: bool)
    ensures
        r == ids@.contains(id),
{
    let n = ids.len();
    let mut i: usize = 0;
    while i < n
        invariant
            n == ids@.len(),
            i <= n,
            forall|k: int| 0 <= k < i ==> ids@[k] != id,
        decreases n - i,
    {
        let other = ids[i];
        if other.0 == id.0 && other.1 == id.1 {
            assert(ids@[i as int] == id);
            return true;
        }
        i = i + 1;
    }
    false
}

/// What has been gathered from the objects seen so far.
struct Gathered {
    copied: Vec<(ObjectId, Object)>,
    pages: Vec<(ObjectId, Dictionary)>,
    catalog: Option<(ObjectId, Dictionary)>,
    root: Option<(ObjectId, Dictionary)>,
}

/// The copied objects are those that the items `seen` give.
spec fn copied_matches(copied: Seq<(ObjectId, Object)>, seen: Seq<Item>) -> bool {
    let want = with_role(seen, Role::Copied);
    &&& copied.len() == want.len()
    &&& forall|k: int| 0 <= k < want.len() ==> #[trigger] copied[k] == (want[k].id, want[k].object)
}

/// The pages are those that the items `seen` give.
spec fn pages_match(pages: Seq<(ObjectId, Dictionary)>, seen: Seq<Item>) -> bool {
    let want = with_role(seen, Role::Page);
    &&& pages.len() == want.len()
    &&& forall|k: int|
        0 <= k < want.len() ==> (#[trigger] pages[k]).0 == want[k].id && Object::Dictionary(
            pages[k].1,
        ) == want[k].object
}

/// The catalog is the first that the items `seen` give.
spec fn catalog_matches(catalog: Option<(ObjectId, Dictionary)>, seen: Seq<Item>) -> bool {
    match catalog {
        Some((id, d)) => first_with(seen, Role::Catalog) matches Some(item) && item.id == id
            && item.object == Object::Dictionary(d),
        None => first_with(seen, Role::Catalog) is None,
    }
}

/// The root is that of the first page tree that the items `seen` give, with
/// the roots of all of them merged into it.
spec fn root_matches(root: Option<(ObjectId, Dictionary)>, seen: Seq<Item>) -> bool {
    match root {
        Some((id, d)) => first_with(seen, Role::Root) matches Some(item) && item.id == id
            && forall|key: Seq<u8>| #[trigger] d.value(key) == root_value(seen, key),
        None => first_with(seen, Role::Root) is None,
    }
}

/// An item that is not copied leaves the copied objects as they are, and so
/// for the pages.
proof fn lemma_other_role(seen: Seq<Item>, item: Item, role: Role)
    requires
        item.role != role,
    ensures
        with_role(seen.push(item), role) == with_role(seen, role),
{
    assert(seen.push(item).drop_last() =~= seen);
}

/// An item with the role asked for comes last among those with that role.
proof fn lemma_same_role(seen: Seq<Item>, item: Item)
    ensures
        with_role(seen.push(item), item.role) == with_role(seen, item.role).push(item),
{
    assert(seen.push(item).drop_last() =~= seen);
}

/// An item that is no candidate leaves the first candidate as it is.
proof fn lemma_first_with_next(seen: Seq<Item>, item: Item, role: Role)
    ensures
        first_with(seen.push(item), role) == (match first_with(seen, role) {
            Some(first) => Some(first),
            None => if item.role == role {
                Some(item)
            } else {
                None
            },
        }),
{
    assert(seen.push(item).drop_last() =~= seen);
}

/// The merged roots with one more item.
proof fn lemma_root_value_next(seen: Seq<Item>, item: Item, key: Seq<u8>)
    ensures
        root_value(seen.push(item), key) == (if item.role == Role::Root {
            match dictionary_of(item.object).value(key) {
                Some(v) => Some(v),
                None => root_value(seen, key),
            }
        } else {
            root_value(seen, key)
        }),
{
    assert(seen.push(item).drop_last() =~= seen);
}

/// Where no item is the root of a page tree, the merged roots have no value.
proof fn lemma_no_root_no_value(all: Seq<Item>, key: Seq<u8>)
    requires
        first_with(all, Role::Root) is None,
    ensures
        root_value(all, key) is None,
    decreases all.len(),
{
    if all.len() > 0 {
        lemma_no_root_no_value(all.drop_last(), key);
    }
}

impl Gathered {
    /// What was gathered is what the items `seen` give.
    spec fn matches(&self, seen: Seq<Item>) -> bool {
        &&& copied_matches(self.copied@, seen)
        &&& pages_match(self.pages@, seen)
        &&& catalog_matches(self.catalog, seen)
        &&& root_matches(self.root, seen)
    }

    /// Takes in the next object of a document whose pages are `pages`.
    fn take(&mut self, entry: (ObjectId, Object), pages: &Vec<ObjectId>, Ghost(seen): Ghost<
        Seq<Item>,
    >)
        requires
            old(self).matches(seen),
        ensures
            final(self).matches(seen.push(item_of(entry, pages@))),
    {
        let ghost item = item_of(entry, pages@);
        let ghost next = seen.push(item);
        proof {
            lemma_first_with_next(seen, item, Role::Catalog);
            lemma_first_with_next(seen, item, Role::Root);
            lemma_same_role(seen, item);
            if item.role != Role::Copied {
                lemma_other_role(seen, item, Role::Copied);
            }
            if item.role != Role::Page {
                lemma_other_role(seen, item, Role::Page);
            }
            assert forall|key: Seq<u8>|
                item.role != Role::Root implies #[trigger] root_value(next, key) == root_value(
                seen,
                key,
            ) by {
                lemma_root_value_next(seen, item, key);
            }
        }
        let (id, object) = entry;
        match object.classify() {
            Kind::Other => {
                self.copied.push((id, object));
            },
            Kind::Page => {
                match object {
                    Object::Dictionary(d) => {
                        if contains_id(pages, id) {
                            self.pages.push((id, d));
                        }
                    },
                    _ => {},
                }
            },
            Kind::Catalog => {
                match object {
                    Object::Dictionary(d) => {
                        if self.catalog.is_none() {
                            self.catalog = Some((id, d));
                        }
                    },
                    _ => {},
                }
            },
            Kind::Pages => {
                match object {
                    Object::Dictionary(d) => {
                        proof {
                            assert forall|key: Seq<u8>|
                                #[trigger] root_value(next, key) == (match d.value(key) {
                                    Some(v) => Some(v),
                                    None => root_value(seen, key),
                                }) by {
                                lemma_root_value_next(seen, item, key);
                            }
                        }
                        match &mut self.root {
                            Some(root) => {
                                root.1.extend(d);
                            },
                            None => {
                                proof {
                                    assert forall|key: Seq<u8>| #[trigger]
                                        root_value(seen, key) is None by {
                                        lemma_no_root_no_value(seen, key);
                                    }
                                }
                                self.root = Some((id, d));
                            },
                        }
                    },
                    _ => {},
                }
            },
            _ => {},
        }
        proof {
            assert(copied_matches(self.copied@, next));
            assert(pages_match(self.pages@, next));
            assert(catalog_matches(self.catalog, next));
            assert(root_matches(self.root, next));
        }
    }
}

/// References to the objects `ids`.
fn references_to(ids: &Vec<ObjectId>) -> (r: Vec<Object>)
    ensures
        r@ == references(ids@),
{
    let mut r: Vec<Object> = Vec::new();
    let n = ids.len();
    let mut i: usize = 0;
    while i < n
        invariant
            n == ids@.len(),
            i <= n,
            r@ == references(ids@.take(i as int)),
        decreases n - i,
    {
        r.push(Object::Reference(ids[i]));
        i = i + 1;
        assert(r@ =~= references(ids@.take(i as int)));
    }
    assert(ids@.take(n as int) =~= ids@);
    r
}

/// Puts together what was gathered: the pages get their parent, the root
/// its kids and count, the catalog its page tree.
fn finish(gathered: Gathered, kids: Vec<ObjectId>, Ghost(all): Ghost<Seq<Item>>) -> (r: Result<
    PdfDocument,
    MergeError,
>)
    requires
        gathered.matches(all),
    ensures
        r is Ok <==> first_with(all, Role::Catalog) is Some && first_with(all, Role::Root) is Some,
        r matches Ok(merged) ==> is_merged(all, kids@, merged),
{
    let Gathered { copied, pages, catalog, root } = gathered;
    let (catalog_id, mut catalog_dict) = match catalog {
        Some(found) => found,
        None => {
            return Err(MergeError::RootNotFound);
        },
    };
    let (root_id, mut root_dict) = match root {
        Some(found) => found,
        None => {
            return Err(MergeError::RootNotFound);
        },
    };
    let ghost want_copied = with_role(all, Role::Copied);
    let ghost want_pages = with_role(all, Role::Page);
    let ghost old_catalog = catalog_dict;
    let mut objects = copied;
    let base = objects.len();
    for page in it: pages
        invariant
            it.seq() == pages@,
            pages_match(pages@, all),
            want_pages == with_role(all, Role::Page),
            base == want_copied.len(),
            objects@.len() == base + it.index(),
            forall|k: int|
                0 <= k < base ==> #[trigger] objects@[k] == (want_copied[k].id, want_copied[k].object),
            forall|k: int|
                0 <= k < it.index() ==> is_page_under(
                    #[trigger] want_pages[k],
                    root_id,
                    objects@[base + k],
                ),
    {
        let ghost k = it.index();
        assert(page == pages@[k]);
        let (id, mut d) = page;
        let parent = vec![80u8, 97u8, 114u8, 101u8, 110u8, 116u8];
        assert(parent@ =~= key_parent());
        d.set(parent, Object::Reference(root_id));
        objects.push((id, Object::Dictionary(d)));
        assert(is_page_under(want_pages[k], root_id, objects@[base + k]));
    }
    let count = vec![67u8, 111u8, 117u8, 110u8, 116u8];
    let kids_key = vec![75u8, 105u8, 100u8, 115u8];
    let pages_key = vec![80u8, 97u8, 103u8, 101u8, 115u8];
    let outlines = vec![79u8, 117u8, 116u8, 108u8, 105u8, 110u8, 101u8, 115u8];
    proof {
        assert(count@ =~= key_count());
        assert(kids_key@ =~= key_kids());
        assert(pages_key@ =~= name_pages());
        assert(outlines@ =~= name_outlines());
    }
    let number = #[verifier::truncate] (kids.len() as i64);
    root_dict.set(count, Object::Integer(number));
    root_dict.set(kids_key, Object::Array(references_to(&kids)));
    objects.push((root_id, Object::Dictionary(root_dict)));
    catalog_dict.set(pages_key, Object::Reference(root_id));
    catalog_dict.remove(outlines.as_slice());
    objects.push((catalog_id, Object::Dictionary(catalog_dict)));
    let merged = PdfDocument { objects, pages: kids, root: Some(catalog_id) };
    proof {
        let n = want_copied.len() + want_pages.len();
        assert(is_root_of(all, root_id, kids@, merged.objects@[n as int]));
        assert(is_catalog_of(
            first_with(all, Role::Catalog)->0,
            root_id,
            merged.objects@[n + 1 as int],
        ));
    }
    Ok(merged)
}

/// Merges the documents into one. The objects are gone through document by
/// document: the first catalog becomes the catalog of the result; the roots
/// of the page trees become one, each later one adding its entries to it;
/// the pages that their document lists go under that root; outlines are
/// left out; every other object is taken over as it is. The root gets the
/// listed pages as its kids and their number as its count, the catalog the
/// root as its pages and no outlines, and the trailer names the catalog.
/// Fails where there is no catalog or no page tree.
pub fn merge(documents: Vec<PdfDocument>) -> (r: Result<PdfDocument, MergeError>)
    ensures
        r is Ok <==> first_with(items(documents@), Role::Catalog) is Some && first_with(
            items(documents@),
            Role::Root,
        ) is Some,
        r matches Ok(merged) ==> is_merged(items(documents@), listed_pages(documents@), merged),
{
    let mut gathered = Gathered {
        copied: Vec::new(),
        pages: Vec::new(),
        catalog: None,
        root: None,
    };
    let mut kids: Vec<ObjectId> = Vec::new();
    let ghost all = documents@;
    let ghost mut merged: int = 0;
    for document in docs: documents
        invariant
            docs.seq() == all,
            merged == docs.index(),
            gathered.matches(items(all.take(merged))),
            kids@ == listed_pages(all.take(merged)),
    {
        let ghost before = items(all.take(merged));
        let ghost done = all.take(merged);
        let ghost next = all.take(merged + 1);
        proof {
            assert(next.drop_last() =~= done);
            assert(next.last() == document);
        }
        let PdfDocument { objects, pages, root: _ } = document;
        let mut pages = pages;
        let ghost listed = pages@;
        let ghost entries = objects@;
        let ghost mut taken: int = 0;
        assert(before + items_of(entries.take(0), listed) =~= before);
        for entry in objs: objects
            invariant
                objs.seq() == entries,
                taken == objs.index(),
                pages@ == listed,
                gathered.matches(before + items_of(entries.take(taken), listed)),
        {
            let ghost seen = before + items_of(entries.take(taken), listed);
            gathered.take(entry, &pages, Ghost(seen));
            proof {
                assert(seen.push(item_of(entry, listed)) =~= before + items_of(
                    entries.take(taken + 1),
                    listed,
                ));
                taken = taken + 1;
            }
        }
        assert(entries.take(entries.len() as int) =~= entries);
        kids.append(&mut pages);
        proof {
            merged = merged + 1;
        }
    }
    assert(all.take(all.len() as int) =~= all);
    finish(gathered, kids, Ghost(items(all)))
}

/// The role of an item fits its object: what is copied is of no special
/// kind, and a page, a catalog and a root are dictionaries of their kind.
pub open spec fn fits(item: Item) -> bool {
    match item.role {
        Role::Copied => item.object.kind() == Kind::Other,
        Role::Page => item.object.kind() == Kind::Page && item.object is Dictionary,
        Role::Catalog => item.object.kind() == Kind::Catalog && item.object is Dictionary,
        Role::Root => item.object.kind() == Kind::Pages && item.object is Dictionary,
        Role::Dropped => true,
    }
}

/// Every item of the list fits.
pub open spec fn all_fit(all: Seq<Item>) -> bool {
    forall|i: int| 0 <= i < all.len() ==> fits(#[trigger] all[i])
}

/// The items of documents fit.
pub proof fn lemma_items_fit(documents: Seq<PdfDocument>)
    ensures
        all_fit(items(documents)),
    decreases documents.len(),
{
    if documents.len() > 0 {
        lemma_items_fit(documents.drop_last());
        let front = items(documents.drop_last());
        let back = items_of(documents.last().objects@, documents.last().pages@);
        assert forall|i: int| 0 <= i < items(documents).len() implies fits(
            #[trigger] items(documents)[i],
        ) by {
            if i < front.len() {
                assert(items(documents)[i] == front[i]);
            } else {
                assert(items(documents)[i] == back[i - front.len()]);
            }
        }
    }
}

/// The items picked by role have that role, and fit if all do.
proof fn lemma_with_role_fits(all: Seq<Item>, role: Role)
    requires
        all_fit(all),
    ensures
        forall|k: int|
            0 <= k < with_role(all, role).len() ==> (#[trigger] with_role(all, role)[k]).role
                == role && fits(with_role(all, role)[k]),
    decreases all.len(),
{
    if all.len() > 0 {
        assert forall|i: int| 0 <= i < all.drop_last().len() implies fits(
            #[trigger] all.drop_last()[i],
        ) by {
            assert(all.drop_last()[i] == all[i]);
        }
        lemma_with_role_fits(all.drop_last(), role);
        assert(fits(all[all.len() - 1]));
    }
}

/// The first item of a role has that role, and fits if all do.
proof fn lemma_first_with_fits(all: Seq<Item>, role: Role)
    requires
        all_fit(all),
    ensures
        first_with(all, role) matches Some(item) ==> item.role == role && fits(item),
    decreases all.len(),
{
    if all.len() > 0 {
        assert forall|i: int| 0 <= i < all.drop_last().len() implies fits(
            #[trigger] all.drop_last()[i],
        ) by {
            assert(all.drop_last()[i] == all[i]);
        }
        lemma_first_with_fits(all.drop_last(), role);
        assert(fits(all[all.len() - 1]));
    }
}

/// The merged roots are of the kind of a page tree root.
proof fn lemma_root_declared(all: Seq<Item>)
    requires
        all_fit(all),
        first_with(all, Role::Root) is Some,
    ensures
        root_value(all, key_type()) matches Some(Object::Name(n)) && n@ == name_pages(),
    decreases all.len(),
{
    if all.len() > 0 {
        let last = all[all.len() - 1];
        assert(fits(last));
        assert forall|i: int| 0 <= i < all.drop_last().len() implies fits(
            #[trigger] all.drop_last()[i],
        ) by {
            assert(all.drop_last()[i] == all[i]);
        }
        lemma_kind_names();
        if last.role == Role::Root {
        } else {
            lemma_root_declared(all.drop_last());
        }
    }
}

/// The names of the kinds differ from each other, and the keys that
/// merging writes differ from `Type`.
proof fn lemma_kind_names()
    ensures
        name_catalog() != name_pages(),
        name_catalog() != name_page(),
        name_catalog() != name_outlines(),
        name_catalog() != name_outline(),
        name_pages() != name_page(),
        name_pages() != name_outlines(),
        name_pages() != name_outline(),
        name_page() != name_outlines(),
        name_page() != name_outline(),
        name_outlines() != name_outline(),
        key_type() != key_parent(),
        key_type() != key_count(),
        key_type() != key_kids(),
        key_type() != name_pages(),
        key_type() != name_outlines(),
        key_count() != key_kids(),
        key_parent() != key_count(),
{
    assert(name_catalog()[0] != name_outline()[0]);
    assert(key_type()[0] != key_kids()[0]);
    assert(name_catalog().len() != name_pages().len());
    assert(name_catalog().len() != name_page().len());
    assert(name_catalog().len() != name_outlines().len());
    assert(name_pages().len() != name_page().len());
    assert(name_pages().len() != name_outlines().len());
    assert(name_pages().len() != name_outline().len());
    assert(name_page().len() != name_outlines().len());
    assert(name_page().len() != name_outline().len());
    assert(name_outlines().len() != name_outline().len());
    assert(key_type().len() != key_parent().len());
    assert(key_type().len() != key_count().len());
    assert(key_type().len() != name_pages().len());
    assert(key_type().len() != name_outlines().len());
    assert(key_count().len() != key_kids().len());
    assert(key_parent().len() != key_count().len());
}

/// The listed pages of all documents are as many as the documents have
/// pages together.
pub proof fn lemma_listed_pages_len(documents: Seq<PdfDocument>)
    ensures
        listed_pages(documents).len() == page_total(documents),
    decreases documents.len(),
{
    if documents.len() > 0 {
        lemma_listed_pages_len(documents.drop_last());
    }
}

/// What merging gives has exactly one catalog, its last object, which the
/// trailer names, and exactly one page tree root, the object before it;
/// the count of that root is the number of pages of all documents
/// together; and the parent of every page object is that root.
pub proof fn lemma_merged_shape(documents: Seq<PdfDocument>, merged: PdfDocument)
    requires
        is_merged(items(documents), listed_pages(documents), merged),
    ensures
        merged.objects@.len() >= 2,
        forall|k: int|
            0 <= k < merged.objects@.len() ==> ((#[trigger] merged.objects@[k]).1.kind()
                == Kind::Catalog <==> k == merged.objects@.len() - 1),
        forall|k: int|
            0 <= k < merged.objects@.len() ==> ((#[trigger] merged.objects@[k]).1.kind()
                == Kind::Pages <==> k == merged.objects@.len() - 2),
        merged.root == Some(merged.objects@[merged.objects@.len() - 1].0),
        merged.objects@[merged.objects@.len() - 2].1 matches Object::Dictionary(root)
            && root.value(key_count()) == Some(
            Object::Integer(page_total(documents) as i64),
        ),
        forall|k: int|
            0 <= k < merged.objects@.len() && (#[trigger] merged.objects@[k]).1.kind()
                == Kind::Page ==> (merged.objects@[k].1 matches Object::Dictionary(page)
                && page.value(key_parent()) == Some(
                Object::Reference(merged.objects@[merged.objects@.len() - 2].0),
            )),
{
    let all = items(documents);
    let kids = listed_pages(documents);
    let copied = with_role(all, Role::Copied);
    let pages = with_role(all, Role::Page);
    let catalog = first_with(all, Role::Catalog)->0;
    let root = first_with(all, Role::Root)->0;
    let n = merged.objects@.len() as int;
    let base = copied.len() as int;
    lemma_items_fit(documents);
    lemma_with_role_fits(all, Role::Copied);
    lemma_with_role_fits(all, Role::Page);
    lemma_first_with_fits(all, Role::Catalog);
    lemma_first_with_fits(all, Role::Root);
    lemma_root_declared(all);
    lemma_kind_names();
    lemma_listed_pages_len(documents);
    let root_entry = merged.objects@[n - 2];
    let catalog_entry = merged.objects@[n - 1];
    assert(is_root_of(all, root.id, kids, root_entry));
    assert(is_catalog_of(catalog, root.id, catalog_entry));
    let root_dict = dictionary_of(root_entry.1);
    let catalog_dict = dictionary_of(catalog_entry.1);
    assert(root_dict.value(key_type()) == root_value(all, key_type()));
    assert(root_entry.1.kind() == Kind::Pages);
    assert(catalog_dict.value(key_type()) == dictionary_of(catalog.object).value(key_type()));
    assert(catalog_entry.1.kind() == Kind::Catalog);
    assert forall|k: int| 0 <= k < n - 2 implies (#[trigger] merged.objects@[k]).1.kind()
        != Kind::Catalog && merged.objects@[k].1.kind() != Kind::Pages && (merged.objects@[k].1.kind()
        == Kind::Page ==> (merged.objects@[k].1 matches Object::Dictionary(page) && page.value(
        key_parent(),
    ) == Some(Object::Reference(root_entry.0)))) by {
        if k < base {
            assert(merged.objects@[k] == (copied[k].id, copied[k].object));
            assert(copied[k].role == Role::Copied && fits(copied[k]));
        } else {
            let j = k - base;
            assert(pages[j].role == Role::Page && fits(pages[j]));
            assert(is_page_under(pages[j], root.id, merged.objects@[base + j]));
            let d = dictionary_of(merged.objects@[k].1);
            assert(d.value(key_type()) == dictionary_of(pages[j].object).value(key_type()));
            assert(d.value(key_parent()) == Some(Object::Reference(root.id)));
        }
    }
}

/// No two items have the same id.
pub open spec fn distinct_items(all: Seq<Item>) -> bool {
    forall|i: int, j: int| 0 <= i < j < all.len() ==> all[i].id != all[j].id
}

/// No two objects have the same id.
pub open spec fn distinct_ids(objects: Seq<(ObjectId, Object)>) -> bool {
    forall|i: int, j: int| 0 <= i < j < objects.len() ==> objects[i].0 != objects[j].0
}

/// One of the items has the id `id` and the role `role`.
pub open spec fn has(all: Seq<Item>, id: ObjectId, role: Role) -> bool {
    exists|i: int| 0 <= i < all.len() && (#[trigger] all[i]).id == id && all[i].role == role
}

/// Among items with distinct ids, an id has one role only.
proof fn lemma_one_role(all: Seq<Item>, id: ObjectId, a: Role, b: Role)
    requires
        distinct_items(all),
        has(all, id, a),
        has(all, id, b),
    ensures
        a == b,
{
    let i = choose|i: int| 0 <= i < all.len() && (#[trigger] all[i]).id == id && all[i].role == a;
    let j = choose|j: int| 0 <= j < all.len() && (#[trigger] all[j]).id == id && all[j].role == b;
    if i < j {
        assert(all[i].id != all[j].id);
    }
    if j < i {
        assert(all[j].id != all[i].id);
    }
}

/// The items picked by role are among the items, and have distinct ids if
/// the items have.
proof fn lemma_with_role_distinct(all: Seq<Item>, role: Role)
    requires
        distinct_items(all),
    ensures
        distinct_items(with_role(all, role)),
        forall|k: int|
            0 <= k < with_role(all, role).len() ==> has(
                all,
                (#[trigger] with_role(all, role)[k]).id,
                role,
            ),
    decreases all.len(),
{
    if all.len() > 0 {
        let rest = all.drop_last();
        let last = all[all.len() - 1];
        assert forall|i: int, j: int| 0 <= i < j < rest.len() implies rest[i].id != rest[j].id by {
            assert(all[i].id != all[j].id);
        }
        lemma_with_role_distinct(rest, role);
        let picked = with_role(all, role);
        let before = with_role(rest, role);
        assert forall|k: int| 0 <= k < picked.len() implies has(all, (#[trigger] picked[k]).id, role) by {
            if k < before.len() {
                assert(picked[k] == before[k]);
                assert(has(rest, before[k].id, role));
                let i = choose|i: int|
                    0 <= i < rest.len() && (#[trigger] rest[i]).id == before[k].id && rest[i].role
                        == role;
                assert(all[i] == rest[i]);
            } else {
                assert(all[all.len() - 1] == picked[k]);
            }
        }
        assert forall|i: int, j: int| 0 <= i < j < picked.len() implies picked[i].id
            != picked[j].id by {
            if j >= before.len() {
                assert(picked[i] == before[i]);
                assert(has(rest, before[i].id, role));
                let m = choose|m: int|
                    0 <= m < rest.len() && (#[trigger] rest[m]).id == before[i].id && rest[m].role
                        == role;
                assert(all[m] == rest[m]);
                assert(all[m].id != all[all.len() - 1].id);
            } else {
                assert(picked[i] == before[i]);
                assert(picked[j] == before[j]);
            }
        }
    }
}

/// The first item of a role is among the items.
proof fn lemma_first_with_has(all: Seq<Item>, role: Role)
    ensures
        first_with(all, role) matches Some(item) ==> has(all, item.id, role),
    decreases all.len(),
{
    if all.len() > 0 {
        let rest = all.drop_last();
        lemma_first_with_has(rest, role);
        match first_with(rest, role) {
            Some(item) => {
                let i = choose|i: int|
                    0 <= i < rest.len() && (#[trigger] rest[i]).id == item.id && rest[i].role
                        == role;
                assert(all[i] == rest[i]);
            },
            None => {
                if all[all.len() - 1].role == role {
                    assert(all[all.len() - 1].id == all.last().id);
                }
            },
        }
    }
}

/// Where no two objects of the documents have the same id, no two objects
/// of what they merge into have: as a document it holds every object of the
/// list, so one catalog and one page tree root.
pub proof fn lemma_merged_ids_distinct(documents: Seq<PdfDocument>, merged: PdfDocument)
    requires
        is_merged(items(documents), listed_pages(documents), merged),
        distinct_items(items(documents)),
    ensures
        distinct_ids(merged.objects@),
{
    let all = items(documents);
    let copied = with_role(all, Role::Copied);
    let pages = with_role(all, Role::Page);
    let catalog = first_with(all, Role::Catalog)->0;
    let root = first_with(all, Role::Root)->0;
    let base = copied.len() as int;
    let n = merged.objects@.len() as int;
    lemma_with_role_distinct(all, Role::Copied);
    lemma_with_role_distinct(all, Role::Page);
    lemma_first_with_has(all, Role::Catalog);
    lemma_first_with_has(all, Role::Root);
    // The role under which the object at each place of the list came in.
    let role_at = |k: int|
        if k < base {
            Role::Copied
        } else if k < n - 2 {
            Role::Page
        } else if k == n - 2 {
            Role::Root
        } else {
            Role::Catalog
        };
    assert forall|k: int| 0 <= k < n implies has(all, (#[trigger] merged.objects@[k]).0, role_at(k)) by {
        if k < base {
            assert(merged.objects@[k] == (copied[k].id, copied[k].object));
            assert(has(all, copied[k].id, Role::Copied));
        } else if k < n - 2 {
            assert(is_page_under(pages[k - base], root.id, merged.objects@[base + (k - base)]));
            assert(has(all, pages[k - base].id, Role::Page));
        } else if k == n - 2 {
            assert(is_root_of(all, root.id, listed_pages(documents), merged.objects@[k]));
        } else {
            assert(is_catalog_of(catalog, root.id, merged.objects@[k]));
        }
    }
    assert forall|i: int, j: int| 0 <= i < j < n implies merged.objects@[i].0
        != merged.objects@[j].0 by {
        let a = merged.objects@[i].0;
        let b = merged.objects@[j].0;
        assert(has(all, a, role_at(i)));
        assert(has(all, b, role_at(j)));
        if a == b {
            lemma_one_role(all, a, role_at(i), role_at(j));
            if j < base {
                assert(merged.objects@[i] == (copied[i].id, copied[i].object));
                assert(merged.objects@[j] == (copied[j].id, copied[j].object));
                assert(copied[i].id != copied[j].id);
            } else {
                assert(is_page_under(pages[i - base], root.id, merged.objects@[base + (i - base)]));
                assert(is_page_under(pages[j - base], root.id, merged.objects@[base + (j - base)]));
                assert(pages[i - base].id != pages[j - base].id);
            }
        }
    }
}

} // verus!
