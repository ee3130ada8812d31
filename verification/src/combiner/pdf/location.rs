//! The table of page locations of an assembled PDF.

use vstd::prelude::*;

verus! {

/// Where one document starts inside the assembled PDF.
#[derive(Debug, Clone)]
pub struct Location {
    pub id: Option<usize>,
    pub title: String,
    /// Zero-based absolute page of the document's first page.
    pub page: usize,
    pub path: String,
}

/// The mathematical value of a [`Location`].
pub struct LocationView {
    pub id: Option<usize>,
    pub title: Seq<char>,
    pub page: nat,
    pub path: Seq<char>,
}

impl View for Location {
    type V = LocationView;

    open spec fn view(&self) -> LocationView {
        LocationView { id: self.id, title: self.title@, page: self.page as nat, path: self.path@ }
    }
}

/// The views of a sequence of locations, entry by entry.
pub open spec fn location_views(s: Seq<Location>) -> Seq<LocationView> {
    s.map_values(|l: Location| l@)
}

/// The entry `l` moved `by` pages towards the end.
pub open spec fn shifted(l: LocationView, by: nat) -> LocationView {
    LocationView { id: l.id, title: l.title, page: l.page + by, path: l.path }
}

/// The page of the location with the id `id`: its last entry counts.
pub open spec fn page_of(locations: Seq<LocationView>, id: usize) -> Option<nat>
    decreases locations.len(),
{
    if locations.len() == 0 {
        None
    } else if locations.last().id == Some(id) {
        Some(locations.last().page)
    } else {
        page_of(locations.drop_last(), id)
    }
}

/// The sum of a sequence of page counts.
pub open spec fn sum(s: Seq<nat>) -> nat
    decreases s.len(),
{
    if s.len() == 0 {
        0
    } else {
        sum(s.drop_last()) + s.last()
    }
}

/// Ordered locations with the running total of pages.
#[derive(Debug)]
pub struct LocationManager {
    data: Vec<Location>,
    total_pages: usize,
}

impl View for LocationManager {
    type V = Seq<LocationView>;

    closed spec fn view(&self) -> Seq<LocationView> {
        location_views(self.data@)
    }
}

impl LocationManager {
    /// The number of pages of all entries together.
    pub closed spec fn total(&self) -> nat {
        self.total_pages as nat
    }

    /// The entries start at page zero, never go backwards and end within the total.
    pub open spec fn wf(&self) -> bool {
        &&& self@.len() == 0 ==> self.total() == 0
        &&& self@.len() > 0 ==> self@[0].page == 0
        &&& forall|i: int, j: int| 0 <= i <= j < self@.len() ==> self@[i].page <= self@[j].page
        &&& forall|i: int| 0 <= i < self@.len() ==> self@[i].page <= self.total()
    }

    /// The page count of each entry: the distance to the next entry's first
    /// page, or to the total for the last entry.
    pub open spec fn sizes(&self) -> Seq<nat> {
        Seq::new(
            self@.len(),
            |i: int|
                if i + 1 < self@.len() {
                    (self@[i + 1].page - self@[i].page) as nat
                } else {
                    (self.total() - self@[i].page) as nat
                },
        )
    }

    pub fn new() -> (r: Self)
        ensures
            r@ == Seq::<LocationView>::empty(),
            r.total() == 0,
            r.sizes() == Seq::<nat>::empty(),
            r.wf(),
    {
        let r = LocationManager { data: Vec::new(), total_pages: 0 };
        assert(r.sizes() =~= Seq::<nat>::empty());
        r
    }

    /// Appends an entry that starts at the current total and has `total_pages` pages.
    pub fn push(&mut self, id: Option<usize>, title: &str, total_pages: usize, path: &str) -> (r:
        &mut Self)
        requires
            old(self).wf(),
            old(self).total() + total_pages <= usize::MAX,
        ensures
            *final(self) == *final(r),
            r.wf(),
            r@ == old(self)@.push(
                LocationView { id, title: title@, page: old(self).total(), path: path@ },
            ),
            r.total() == old(self).total() + total_pages,
            r.sizes() == old(self).sizes().push(total_pages as nat),
    {
        let page = self.total_pages;
        self.data.push(
            Location { id, title: String::from_str(title), page, path: String::from_str(path) },
        );
        self.total_pages = self.total_pages + total_pages;
        proof {
            assert(self@ =~= old(self)@.push(
                LocationView { id, title: title@, page: old(self).total(), path: path@ },
            ));
            assert(self.sizes() =~= old(self).sizes().push(total_pages as nat));
        }
        self
    }

    /// Shifts every entry by `total_pages` and puts a new entry in front, at page zero.
    pub fn insert_head(
        &mut self,
        id: Option<usize>,
        title: &str,
        total_pages: usize,
        path: &str,
    ) -> (r: &mut Self)
        requires
            old(self).wf(),
            old(self).total() + total_pages <= usize::MAX,
        ensures
            *final(self) == *final(r),
            r.wf(),
            r@ == seq![LocationView { id, title: title@, page: 0, path: path@ }] + old(
                self,
            )@.map_values(|l: LocationView| shifted(l, total_pages as nat)),
            r.total() == old(self).total() + total_pages,
            r.sizes() == seq![total_pages as nat] + old(self).sizes(),
    {
        let n = self.data.len();
        let mut i: usize = 0;
        while i < n
            invariant
                n == self.data.len(),
                i <= n,
                self.total_pages == old(self).total_pages,
                old(self).wf(),
                old(self).total() + total_pages <= usize::MAX,
                old(self).data@.len() == n,
                forall|k: int|
                    0 <= k < i ==> (#[trigger] self.data@[k])@ == shifted(
                        old(self).data@[k]@,
                        total_pages as nat,
                    ),
                forall|k: int| i <= k < n ==> #[trigger] self.data@[k] == old(self).data@[k],
            decreases n - i,
        {
            assert(old(self)@[i as int].page <= old(self).total());
            let location = &mut self.data[i];
            location.page = location.page + total_pages;
            i = i + 1;
        }
        self.data.insert(
            0,
            Location { id, title: String::from_str(title), page: 0, path: String::from_str(path) },
        );
        self.total_pages = self.total_pages + total_pages;
        proof {
            assert(self@ =~= seq![LocationView { id, title: title@, page: 0, path: path@ }] + old(
                self,
            )@.map_values(|l: LocationView| shifted(l, total_pages as nat)));
            assert(self.sizes() =~= seq![total_pages as nat] + old(self).sizes());
        }
        self
    }

    /// An owned copy of the entries, in order.
    pub fn data(&self) -> (r: Vec<Location>)
        ensures
            location_views(r@) == self@,
    {
        let mut r: Vec<Location> = Vec::new();
        let n = self.data.len();
        let mut i: usize = 0;
        while i < n
            invariant
                n == self.data.len(),
                i <= n,
                r@.len() == i,
                forall|k: int| 0 <= k < i ==> r@[k]@ == self.data@[k]@,
            decreases n - i,
        {
            let l = &self.data[i];
            r.push(
                Location { id: l.id, title: l.title.clone(), page: l.page, path: l.path.clone() },
            );
            i = i + 1;
        }
        proof {
            assert(location_views(r@) =~= self@);
        }
        r
    }

    /// The number of pages of all entries together.
    pub fn total_pages(&self) -> (r: usize)
        ensures
            r == self.total(),
    {
        self.total_pages
    }

    /// The page at which the entry with the id `id` starts, if there is
    /// one; of several the last.
    pub fn find_page(&self, id: usize) -> (r: Option<usize>)
        ensures
            match r {
                Some(page) => page_of(self@, id) == Some(page as nat),
                None => page_of(self@, id) is None,
            },
    {
        let mut i = self.data.len();
        assert(self@.take(i as int) =~= self@);
        while i > 0
            invariant
                i <= self.data@.len(),
                page_of(self@, id) == page_of(self@.take(i as int), id),
            decreases i,
        {
            i = i - 1;
            proof {
                assert(self@.take(i + 1).drop_last() =~= self@.take(i as int));
                assert(self@.take(i + 1).last() == self.data@[i as int]@);
            }
            match self.data[i].id {
                Some(found) => {
                    if found == id {
                        return Some(self.data[i].page);
                    }
                },
                None => {},
            }
        }
        None
    }

    /// The number of entries.
    pub fn len(&self) -> (r: usize)
        ensures
            r == self@.len(),
    {
        self.data.len()
    }
}

/// The page counts before entry `i` add up to the page where entry `i`
/// starts; all of them add up to the total.
proof fn lemma_sizes_add_up(m: LocationManager, i: int)
    requires
        m.wf(),
        0 <= i <= m@.len(),
    ensures
        sum(m.sizes().take(i)) == (if i < m@.len() {
            m@[i].page
        } else {
            m.total()
        }),
    decreases i,
{
    if i > 0 {
        lemma_sizes_add_up(m, i - 1);
        assert(m.sizes().take(i).drop_last() =~= m.sizes().take(i - 1));
        assert(m.sizes().take(i).last() == m.sizes()[i - 1]);
    }
}

/// In a well-formed table every entry starts at the sum of the page counts of
/// the entries before it, and the total is the sum of all page counts.
/// `push` and `insert_head` extend `sizes` by exactly their page argument, at
/// the end and at the front, so `sizes` lists the page arguments in the
/// table's current order.
pub proof fn lemma_pages_are_running_sums(m: LocationManager)
    requires
        m.wf(),
    ensures
        forall|i: int| 0 <= i < m@.len() ==> (#[trigger] m@[i]).page == sum(m.sizes().take(i)),
        m.total() == sum(m.sizes()),
{
    assert forall|i: int| 0 <= i < m@.len() implies (#[trigger] m@[i]).page == sum(
        m.sizes().take(i),
    ) by {
        lemma_sizes_add_up(m, i);
    }
    lemma_sizes_add_up(m, m@.len() as int);
    assert(m.sizes().take(m@.len() as int) =~= m.sizes());
}

/// One operation on a table, with the page count that it is given.
pub enum TableOp {
    Push(nat),
    InsertHead(nat),
}

/// The page counts given to the operations, in the order of the entries
/// that the operations made: `push` adds at the end, `insert_head` in front.
pub open spec fn arguments_in_order(ops: Seq<TableOp>) -> Seq<nat>
    decreases ops.len(),
{
    if ops.len() == 0 {
        Seq::<nat>::empty()
    } else {
        match ops.last() {
            TableOp::Push(pages) => arguments_in_order(ops.drop_last()).push(pages),
            TableOp::InsertHead(pages) => seq![pages] + arguments_in_order(ops.drop_last()),
        }
    }
}

/// The total of a table after the operations, begun empty.
pub open spec fn total_after(ops: Seq<TableOp>) -> nat
    decreases ops.len(),
{
    if ops.len() == 0 {
        0
    } else {
        match ops.last() {
            TableOp::Push(pages) => total_after(ops.drop_last()) + pages,
            TableOp::InsertHead(pages) => total_after(ops.drop_last()) + pages,
        }
    }
}

/// The pages of the entries of a table after the operations, begun empty:
/// `push` adds an entry at the total, `insert_head` moves every entry on
/// and puts an entry at page zero in front.
pub open spec fn pages_after(ops: Seq<TableOp>) -> Seq<nat>
    decreases ops.len(),
{
    if ops.len() == 0 {
        Seq::<nat>::empty()
    } else {
        match ops.last() {
            TableOp::Push(pages) => pages_after(ops.drop_last()).push(
                total_after(ops.drop_last()),
            ),
            TableOp::InsertHead(pages) => seq![0nat] + pages_after(ops.drop_last()).map_values(
                |page: nat| page + pages,
            ),
        }
    }
}

/// A page count put in front adds itself to the sum.
proof fn lemma_sum_prepend(first: nat, rest: Seq<nat>)
    ensures
        sum(seq![first] + rest) == first + sum(rest),
    decreases rest.len(),
{
    let all = seq![first] + rest;
    if rest.len() == 0 {
        assert(all.drop_last() =~= Seq::<nat>::empty());
        assert(sum(all.drop_last()) == 0);
        assert(all.last() == first);
    } else {
        assert(all.drop_last() =~= seq![first] + rest.drop_last());
        assert(all.last() == rest.last());
        lemma_sum_prepend(first, rest.drop_last());
    }
}

/// After any operations on a table begun empty, in any order, every entry
/// starts at the sum of the page counts given for the entries before it,
/// and the total is the sum of all page counts given.
pub proof fn lemma_pages_after_operations(ops: Seq<TableOp>)
    ensures
        pages_after(ops).len() == arguments_in_order(ops).len(),
        forall|i: int|
            0 <= i < pages_after(ops).len() ==> #[trigger] pages_after(ops)[i] == sum(
                arguments_in_order(ops).take(i),
            ),
        total_after(ops) == sum(arguments_in_order(ops)),
    decreases ops.len(),
{
    if ops.len() > 0 {
        let rest = ops.drop_last();
        lemma_pages_after_operations(rest);
        let given = arguments_in_order(rest);
        let pages = pages_after(rest);
        match ops.last() {
            TableOp::Push(count) => {
                assert(given.push(count).drop_last() =~= given);
                assert forall|i: int| 0 <= i < pages_after(ops).len() implies #[trigger] pages_after(
                    ops,
                )[i] == sum(arguments_in_order(ops).take(i)) by {
                    assert(given.push(count).take(i) =~= given.take(i));
                    if i == pages.len() {
                        assert(given.take(i) =~= given);
                    }
                }
            },
            TableOp::InsertHead(count) => {
                lemma_sum_prepend(count, given);
                assert forall|i: int| 0 <= i < pages_after(ops).len() implies #[trigger] pages_after(
                    ops,
                )[i] == sum(arguments_in_order(ops).take(i)) by {
                    if i == 0 {
                        assert((seq![count] + given).take(0) =~= Seq::<nat>::empty());
                    } else {
                        assert((seq![count] + given).take(i) =~= seq![count] + given.take(i - 1));
                        lemma_sum_prepend(count, given.take(i - 1));
                        assert(pages_after(ops)[i] == pages[i - 1] + count);
                    }
                }
            },
        }
    }
}

} // verus!
