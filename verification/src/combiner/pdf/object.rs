//! The objects of a PDF document as plain values, as far as the rules of
//! assembly read and write them.

use vstd::prelude::*;

verus! {

/// Object number and generation.
pub type ObjectId = (u32, u16);

/// How a string object is written.
#[derive(Debug, Clone, Copy, PartialEq, Eq, Structural)]
pub enum StringFormat {
    Literal,
    Hexadecimal,
}

/// A PDF object.
#[derive(Debug, PartialEq)]
pub enum Object {
    Null,
    Boolean(bool),
    Integer(i64),
    /// A real number, held as the bits of its single-precision value.
    Real(u32),
    Name(Vec<u8>),
    String(Vec<u8>, StringFormat),
    Array(Vec<Object>),
    Dictionary(Dictionary),
    Stream(Stream),
    Reference(ObjectId),
}

/// A dictionary object: keys with their values. Where a key stands more
/// than once, its last entry counts.
#[derive(Debug, PartialEq)]
pub struct Dictionary {
    pub entries: Vec<(Vec<u8>, Object)>,
}

/// A stream object.
#[derive(Debug, PartialEq)]
pub struct Stream {
    pub dict: Dictionary,
    pub content: Vec<u8>,
    pub allows_compression: bool,
    pub start_position: Option<usize>,
}

/// The kinds of object that assembly tells apart, by the `/Type` entry.
#[derive(Debug, Clone, Copy, PartialEq, Eq, Structural)]
pub enum Kind {
    Catalog,
    Pages,
    Page,
    Outlines,
    Outline,
    Other,
}

/// The name `Type`.
pub open spec fn key_type() -> Seq<u8> {
    seq![84u8, 121u8, 112u8, 101u8]
}

/// The name `Catalog`.
pub open spec fn name_catalog() -> Seq<u8> {
    seq![67u8, 97u8, 116u8, 97u8, 108u8, 111u8, 103u8]
}

/// The name `Pages`.
pub open spec fn name_pages() -> Seq<u8> {
    seq![80u8, 97u8, 103u8, 101u8, 115u8]
}

/// The name `Page`.
pub open spec fn name_page() -> Seq<u8> {
    seq![80u8, 97u8, 103u8, 101u8]
}

/// The name `Outlines`.
pub open spec fn name_outlines() -> Seq<u8> {
    seq![79u8, 117u8, 116u8, 108u8, 105u8, 110u8, 101u8, 115u8]
}

/// The name `Outline`.
pub open spec fn name_outline() -> Seq<u8> {
    seq![79u8, 117u8, 116u8, 108u8, 105u8, 110u8, 101u8]
}

/// The name `Parent`.
pub open spec fn key_parent() -> Seq<u8> {
    seq![80u8, 97u8, 114u8, 101u8, 110u8, 116u8]
}

/// The name `Count`.
pub open spec fn key_count() -> Seq<u8> {
    seq![67u8, 111u8, 117u8, 110u8, 116u8]
}

/// The name `Kids`.
pub open spec fn key_kids() -> Seq<u8> {
    seq![75u8, 105u8, 100u8, 115u8]
}

/// The name `Annot`.
pub open spec fn name_annot() -> Seq<u8> {
    seq![65u8, 110u8, 110u8, 111u8, 116u8]
}

/// The name `Dest`.
pub open spec fn key_dest() -> Seq<u8> {
    seq![68u8, 101u8, 115u8, 116u8]
}

/// The name `XYZ`.
pub open spec fn name_xyz() -> Seq<u8> {
    seq![88u8, 89u8, 90u8]
}

/// What the entries say of `key`: the value of its last entry.
pub open spec fn lookup(entries: Seq<(Vec<u8>, Object)>, key: Seq<u8>) -> Option<Object>
    decreases entries.len(),
{
    if entries.len() == 0 {
        None
    } else if entries.last().0@ == key {
        Some(entries.last().1)
    } else {
        lookup(entries.drop_last(), key)
    }
}

/// In entries put one behind the other, the later ones count first.
pub proof fn lemma_lookup_concat(
    a: Seq<(Vec<u8>, Object)>,
    b: Seq<(Vec<u8>, Object)>,
    key: Seq<u8>,
)
    ensures
        lookup(a + b, key) == (match lookup(b, key) {
            Some(v) => Some(v),
            None => lookup(a, key),
        }),
    decreases b.len(),
{
    if b.len() == 0 {
        assert(a + b =~= a);
    } else {
        assert((a + b).drop_last() =~= a + b.drop_last());
        assert((a + b).last() == b.last());
        lemma_lookup_concat(a, b.drop_last(), key);
    }
}

/// The name that `value` holds, if it is a name.
pub open spec fn name_of(value: Option<Object>) -> Option<Seq<u8>> {
    match value {
        Some(Object::Name(n)) => Some(n@),
        _ => None,
    }
}

/// The kind that a type name stands for.
pub open spec fn kind_of_name(name: Option<Seq<u8>>) -> Kind {
    if name == Some(name_catalog()) {
        Kind::Catalog
    } else if name == Some(name_pages()) {
        Kind::Pages
    } else if name == Some(name_page()) {
        Kind::Page
    } else if name == Some(name_outlines()) {
        Kind::Outlines
    } else if name == Some(name_outline()) {
        Kind::Outline
    } else {
        Kind::Other
    }
}

/// Whether two byte strings are the same.
pub fn same_bytes(a: &[u8], b: &[u8]) -> (r: bool)
    ensures
        r == (a@ == b@),
{
    let n = a.len();
    if b.len() != n {
        return false;
    }
    let mut i: usize = 0;
    while i < n
        invariant
            n == a@.len(),
            n == b@.len(),
            i <= n,
            forall|k: int| 0 <= k < i ==> a@[k] == b@[k],
        decreases n - i,
    {
        if a[i] != b[i] {
            return false;
        }
        i = i + 1;
    }
    assert(a@ =~= b@);
    true
}

impl Dictionary {
    /// The value of `key`, if the dictionary has it.
    pub open spec fn value(&self, key: Seq<u8>) -> Option<Object> {
        lookup(self.entries@, key)
    }

    /// The name under `/Type`, if there is one.
    pub open spec fn declared_type(&self) -> Option<Seq<u8>> {
        name_of(self.value(key_type()))
    }

    /// An empty dictionary.
    pub fn new() -> (r: Self)
        ensures
            forall|key: Seq<u8>| r.value(key) is None,
    {
        Dictionary { entries: Vec::new() }
    }

    /// The value of `key`, if the dictionary has it.
    pub fn get(&self, key: &[u8]) -> (r: Option<&Object>)
        ensures
            match r {
                Some(v) => self.value(key@) == Some(*v),
                None => self.value(key@) is None,
            },
    {
        let mut i = self.entries.len();
        assert(self.entries@.take(i as int) =~= self.entries@);
        while i > 0
            invariant
                i <= self.entries@.len(),
                self.value(key@) == lookup(self.entries@.take(i as int), key@),
            decreases i,
        {
            i = i - 1;
            proof {
                assert(self.entries@.take(i + 1).drop_last() =~= self.entries@.take(i as int));
                assert(self.entries@.take(i + 1).last() == self.entries@[i as int]);
            }
            if same_bytes(self.entries[i].0.as_slice(), key) {
                return Some(&self.entries[i].1);
            }
        }
        None
    }

    /// Gives `key` the value `value`.
    pub fn set(&mut self, key: Vec<u8>, value: Object)
        ensures
            forall|k: Seq<u8>|
                #[trigger] final(self).value(k) == (if k == key@ {
                    Some(value)
                } else {
                    old(self).value(k)
                }),
    {
        self.entries.push((key, value));
        assert(self.entries@.drop_last() =~= old(self).entries@);
    }

    /// Takes `key` out.
    pub fn remove(&mut self, key: &[u8])
        ensures
            forall|k: Seq<u8>|
                #[trigger] final(self).value(k) == (if k == key@ {
                    None
                } else {
                    old(self).value(k)
                }),
    {
        let mut i: usize = 0;
        let ghost mut done: Seq<(Vec<u8>, Object)> = Seq::empty();
        while i < self.entries.len()
            invariant
                i <= self.entries@.len(),
                done.len() + (self.entries@.len() - i) == old(self).entries@.len(),
                self.entries@.skip(i as int) == old(self).entries@.skip(done.len() as int),
                done == old(self).entries@.take(done.len() as int),
                forall|k: Seq<u8>|
                    #[trigger] lookup(self.entries@.take(i as int), k) == (if k == key@ {
                        None
                    } else {
                        lookup(done, k)
                    }),
            decreases self.entries@.len() - i,
        {
            let ghost current = self.entries@;
            let ghost entry = current[i as int];
            proof {
                assert(entry == current.skip(i as int)[0]);
                assert(entry == old(self).entries@[done.len() as int]);
                assert(old(self).entries@.take(done.len() + 1 as int) =~= done.push(entry));
                assert(done.push(entry).drop_last() =~= done);
            }
            if same_bytes(self.entries[i].0.as_slice(), key) {
                self.entries.remove(i);
                proof {
                    assert(self.entries@.take(i as int) =~= current.take(i as int));
                    assert(self.entries@.skip(i as int) =~= current.skip(i + 1));
                    assert(current.skip(i + 1) =~= current.skip(i as int).skip(1));
                    assert(old(self).entries@.skip(done.len() + 1 as int) =~= old(self).entries@.skip(
                        done.len() as int,
                    ).skip(1));
                    assert forall|k: Seq<u8>|
                        #[trigger] lookup(self.entries@.take(i as int), k) == (if k == key@ {
                            None
                        } else {
                            lookup(done.push(entry), k)
                        }) by {
                        assert(lookup(current.take(i as int), k) == (if k == key@ {
                            None
                        } else {
                            lookup(done, k)
                        }));
                    }
                    done = done.push(entry);
                }
            } else {
                proof {
                    assert(current.take(i + 1).drop_last() =~= current.take(i as int));
                    assert(current.take(i + 1).last() == entry);
                    assert(current.skip(i + 1) =~= current.skip(i as int).skip(1));
                    assert(old(self).entries@.skip(done.len() + 1 as int) =~= old(self).entries@.skip(
                        done.len() as int,
                    ).skip(1));
                    assert forall|k: Seq<u8>|
                        #[trigger] lookup(current.take(i + 1), k) == (if k == key@ {
                            None
                        } else {
                            lookup(done.push(entry), k)
                        }) by {
                        assert(lookup(current.take(i as int), k) == (if k == key@ {
                            None
                        } else {
                            lookup(done, k)
                        }));
                    }
                    done = done.push(entry);
                }
                i = i + 1;
            }
        }
        proof {
            assert(self.entries@.take(i as int) =~= self.entries@);
            assert(done =~= old(self).entries@);
        }
    }

    /// Adds the entries of `other`; where both have a key, that of `other`
    /// counts.
    pub fn extend(&mut self, other: Dictionary)
        ensures
            forall|k: Seq<u8>|
                #[trigger] final(self).value(k) == (match other.value(k) {
                    Some(v) => Some(v),
                    None => old(self).value(k),
                }),
    {
        let mut other = other;
        let ghost added = other.entries@;
        self.entries.append(&mut other.entries);
        proof {
            assert forall|k: Seq<u8>|
                #[trigger] self.value(k) == (match lookup(added, k) {
                    Some(v) => Some(v),
                    None => old(self).value(k),
                }) by {
                lemma_lookup_concat(old(self).entries@, added, k);
            }
        }
    }

    /// Whether the name under `/Type` is `name`.
    pub fn type_is(&self, name: &[u8]) -> (r: bool)
        ensures
            r == (self.declared_type() == Some(name@)),
    {
        let key = vec![84u8, 121u8, 112u8, 101u8];
        assert(key@ =~= key_type());
        match self.get(key.as_slice()) {
            Some(Object::Name(n)) => same_bytes(n.as_slice(), name),
            _ => false,
        }
    }
}

impl Object {
    /// The name under `/Type` of a dictionary or of a stream's dictionary.
    pub open spec fn declared_type(&self) -> Option<Seq<u8>> {
        match self {
            Object::Dictionary(d) => d.declared_type(),
            Object::Stream(s) => s.dict.declared_type(),
            _ => None,
        }
    }

    /// The kind of the object.
    pub open spec fn kind(&self) -> Kind {
        kind_of_name(self.declared_type())
    }

    /// The kind of the object.
    pub fn classify(&self) -> (r: Kind)
        ensures
            r == self.kind(),
    {
        let dict = match self {
            Object::Dictionary(d) => d,
            Object::Stream(s) => &s.dict,
            _ => {
                return Kind::Other;
            },
        };
        let catalog = vec![67u8, 97u8, 116u8, 97u8, 108u8, 111u8, 103u8];
        let pages = vec![80u8, 97u8, 103u8, 101u8, 115u8];
        let page = vec![80u8, 97u8, 103u8, 101u8];
        let outlines = vec![79u8, 117u8, 116u8, 108u8, 105u8, 110u8, 101u8, 115u8];
        let outline = vec![79u8, 117u8, 116u8, 108u8, 105u8, 110u8, 101u8];
        proof {
            assert(catalog@ =~= name_catalog());
            assert(pages@ =~= name_pages());
            assert(page@ =~= name_page());
            assert(outlines@ =~= name_outlines());
            assert(outline@ =~= name_outline());
        }
        if dict.type_is(catalog.as_slice()) {
            Kind::Catalog
        } else if dict.type_is(pages.as_slice()) {
            Kind::Pages
        } else if dict.type_is(page.as_slice()) {
            Kind::Page
        } else if dict.type_is(outlines.as_slice()) {
            Kind::Outlines
        } else if dict.type_is(outline.as_slice()) {
            Kind::Outline
        } else {
            Kind::Other
        }
    }
}

} // verus!
