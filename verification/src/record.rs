//! The data that flows through the harness: items, records, pages and the
//! filtered result of one item.

use vstd::prelude::*;

verus! {

/// A unit of work: one remote object whose paginated records are drained.
#[derive(Clone, Debug, PartialEq, Eq)]
pub struct Item {
    /// The identifier under which the remote service knows the item.
    pub id: i64,
    /// The name under which the item is shown.
    pub name: String,
}

/// One elemental result within a page.
#[derive(Clone, Debug, PartialEq, Eq)]
pub struct Record {
    /// The identifier of the record.
    pub record_id: i64,
    /// The identifier of its author; records are kept or dropped by it.
    pub author_id: i64,
    /// The name under which the author is shown.
    pub author_name: String,
    /// Where the picture of the author is found.
    pub author_avatar: String,
    /// The text of the record.
    pub content: String,
    /// When the record was made, in milliseconds since the epoch.
    pub timestamp: i64,
    /// How many likes the record has.
    pub like_count: i32,
}

/// Why a fetch produced no page.
#[derive(Clone, Copy, Debug, PartialEq, Eq)]
pub enum FetchError {
    /// Network failure or timeout.
    Transport,
    /// The response arrived but could not be decoded.
    Decode,
}

/// One fetch response: the records of the page, in server order, and the
/// number of records the server returned for it.
#[derive(Clone, Debug, PartialEq, Eq)]
pub struct Page {
    /// The records of the page, in server order.
    pub records: Vec<Record>,
    /// How many records the server returned; a count below the page size
    /// says that the list is exhausted.
    pub raw_count: usize,
}

/// The mathematical value of a [`Page`].
pub ghost struct PageView {
    /// The records of the page, in server order.
    pub records: Seq<Record>,
    /// How many records the server returned.
    pub raw_count: nat,
}

impl View for Page {
    type V = PageView;

    open spec fn view(&self) -> PageView {
        PageView { records: self.records@, raw_count: self.raw_count as nat }
    }
}

/// The records of one item that matched the target, in the order received.
#[derive(Clone, Debug, PartialEq, Eq)]
pub struct ItemResult {
    /// The item the records belong to.
    pub item: Item,
    /// The matching records, in the order received.
    pub records: Vec<Record>,
}

/// The records of `records` written by `target`, order preserved.
pub open spec fn matching(records: Seq<Record>, target: i64) -> Seq<Record> {
    records.filter(|r: Record| r.author_id == target)
}

impl Item {
    /// A copy of the item.
    pub fn duplicate(&self) -> (copy: Item)
        ensures
            copy == *self,
    {
        Item { id: self.id, name: self.name.clone() }
    }
}

impl Page {
    /// A page holding `records`, all of which the server returned.
    pub fn new(records: Vec<Record>) -> (page: Page)
        ensures
            page.records@ == records@,
            page.raw_count == records@.len(),
    {
        let raw_count = records.len();
        Page { records, raw_count }
    }
}

/// Filtering one more record: the prefix of length `i + 1` keeps what the
/// prefix of length `i` kept, and the record at `i` if it matches.
pub proof fn lemma_matching_step(records: Seq<Record>, target: i64, i: int)
    requires
        0 <= i < records.len(),
    ensures
        matching(records.take(i + 1), target) == if records[i].author_id == target {
            matching(records.take(i), target).push(records[i])
        } else {
            matching(records.take(i), target)
        },
{
    reveal(Seq::filter);
    assert(records.take(i + 1).drop_last() =~= records.take(i));
}

/// Every record that is kept was written by the target.
pub proof fn lemma_matching_is_by_target(records: Seq<Record>, target: i64, i: int)
    requires
        0 <= i < matching(records, target).len(),
    ensures
        matching(records, target)[i].author_id == target,
    decreases records.len(),
{
    reveal(Seq::filter);
    if records.len() > 0 {
        if i < matching(records.drop_last(), target).len() {
            lemma_matching_is_by_target(records.drop_last(), target, i);
        }
    }
}

/// Records that were all written by the target are all kept.
pub proof fn lemma_matching_keeps_all(records: Seq<Record>, target: i64)
    requires
        forall|i: int| 0 <= i < records.len() ==> records[i].author_id == target,
    ensures
        matching(records, target) == records,
    decreases records.len(),
{
    reveal(Seq::filter);
    if records.len() > 0 {
        let rest = records.drop_last();
        assert forall|i: int| 0 <= i < rest.len() implies rest[i].author_id == target by {
            assert(rest[i] == records[i]);
        }
        lemma_matching_keeps_all(rest, target);
        assert(rest.push(records.last()) =~= records);
    }
}

/// Filtering is idempotent: filtering what was kept keeps all of it.
pub proof fn lemma_matching_is_idempotent(records: Seq<Record>, target: i64)
    ensures
        matching(matching(records, target), target) == matching(records, target),
{
    let kept = matching(records, target);
    assert forall|i: int| 0 <= i < kept.len() implies kept[i].author_id == target by {
        lemma_matching_is_by_target(records, target, i);
    }
    lemma_matching_keeps_all(kept, target);
}

/// Appends to `into` the records of `records` written by `target`,
/// keeping their order.
pub fn append_matching(into: &mut Vec<Record>, records: Vec<Record>, target: i64)
    ensures
        final(into)@ == old(into)@ + matching(records@, target),
{
    let ghost all = records@;
    let ghost before = into@;
    proof {
        reveal(Seq::filter);
        assert(all.take(0) =~= Seq::<Record>::empty());
        assert(before + matching(all.take(0), target) =~= before);
    }
    for record in it: records.into_iter()
        invariant
            it.seq() == all,
            into@ == before + matching(all.take(it.index()), target),
    {
        proof {
            lemma_matching_step(all, target, it.index());
        }
        if record.author_id == target {
            into.push(record);
        }
    }
    assert(all.take(all.len() as int) =~= all);
}

} // verus!
