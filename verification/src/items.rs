//! The item store: records kept in memory, each under its own key, with
//! last-write-wins on a key that is already there.

use vstd::prelude::*;
use vstd::string::StringExecFns;
use crate::reply::Failure;

verus! {

/// A record of the store. Its `key` is also the key it is stored under.
#[derive(Debug, PartialEq, Eq)]
pub struct Item {
    pub key: String,
    pub value: String,
}

/// What an [`Item`] is, as two sequences of characters.
pub struct ItemView {
    pub key: Seq<char>,
    pub value: Seq<char>,
}

impl View for Item {
    type V = ItemView;

    open spec fn view(&self) -> ItemView {
        ItemView { key: self.key@, value: self.value@ }
    }
}

impl Clone for Item {
    fn clone(&self) -> (copy: Self)
        ensures
            copy@ == self@,
    {
        Item { key: self.key.clone(), value: self.value.clone() }
    }
}

impl Item {
    /// Builds an item from the two fields of a decoded body. Both are
    /// required: with either absent the body is malformed.
    pub fn bind(key: Option<String>, value: Option<String>) -> (bound: Result<Item, Failure>)
        ensures
            key.is_some() && value.is_some() ==> bound.is_ok() && bound.unwrap()@ == (ItemView {
                key: key.unwrap()@,
                value: value.unwrap()@,
            }),
            key.is_none() || value.is_none() ==> bound == Err::<Item, Failure>(
                Failure::MalformedBody,
            ),
    {
        match (key, value) {
            (Some(key), Some(value)) => Ok(Item { key, value }),
            _ => Err(Failure::MalformedBody),
        }
    }
}

/// The views of a sequence of items, position by position.
pub open spec fn views(items: Seq<Item>) -> Seq<ItemView> {
    items.map_values(|item: Item| item@)
}

/// No two positions hold the same key.
pub open spec fn distinct_keys(items: Seq<ItemView>) -> bool {
    forall|i: int, j: int| 0 <= i < j < items.len() ==> items[i].key != items[j].key
}

/// The mapping that results from `start` when the items of `puts` are put
/// one after another: each lands under its own key and replaces what was
/// there.
pub open spec fn after_puts(start: Map<Seq<char>, ItemView>, puts: Seq<ItemView>) -> Map<
    Seq<char>,
    ItemView,
>
    decreases puts.len(),
{
    if puts.len() == 0 {
        start
    } else {
        after_puts(start, puts.drop_last()).insert(puts.last().key, puts.last())
    }
}

/// The mapping that a sequence of items stands for: key to item.
pub open spec fn entries(items: Seq<ItemView>) -> Map<Seq<char>, ItemView> {
    after_puts(Map::empty(), items)
}

/// Every entry of `store` is stored under its own key.
pub open spec fn keyed_by_own_key(store: Map<Seq<char>, ItemView>) -> bool {
    forall|k: Seq<char>| store.dom().contains(k) ==> (#[trigger] store[k]).key == k
}

/// `i` is the position of the last item of `puts` whose key is `key`.
pub open spec fn is_last_put(puts: Seq<ItemView>, key: Seq<char>, i: int) -> bool {
    &&& 0 <= i < puts.len()
    &&& puts[i].key == key
    &&& forall|j: int| i < j < puts.len() ==> puts[j].key != key
}

/// Replacing the item at a position by one of the same key keeps the keys
/// distinct and changes the mapping as a put of that item does.
proof fn lemma_replace(items: Seq<ItemView>, i: int, item: ItemView)
    requires
        distinct_keys(items),
        0 <= i < items.len(),
        items[i].key == item.key,
    ensures
        distinct_keys(items.update(i, item)),
        entries(items.update(i, item)) == entries(items).insert(item.key, item),
    decreases items.len(),
{
    let changed = items.update(i, item);
    let n = items.len() - 1;
    assert(distinct_keys(changed)) by {
        assert forall|a: int, b: int| 0 <= a < b < changed.len() implies changed[a].key
            != changed[b].key by {
            assert(items[a].key != items[b].key);
        }
    }
    if i == n {
        assert(changed.drop_last() == items.drop_last());
        assert(entries(changed) == entries(items).insert(item.key, item));
    } else {
        assert(changed.drop_last() == items.drop_last().update(i, item));
        assert(changed.last() == items.last());
        assert(distinct_keys(items.drop_last()));
        lemma_replace(items.drop_last(), i, item);
        assert(items[i].key != items[n].key);
        assert(entries(changed) == entries(items).insert(item.key, item));
    }
}

/// The keys of the mapping are the keys of the items, and it is finite.
pub proof fn lemma_entries_keys(items: Seq<ItemView>)
    ensures
        entries(items).dom().finite(),
        forall|k: Seq<char>|
            entries(items).dom().contains(k) <==> exists|i: int|
                0 <= i < items.len() && #[trigger] items[i].key == k,
    decreases items.len(),
{
    if items.len() > 0 {
        let rest = items.drop_last();
        lemma_entries_keys(rest);
        assert forall|k: Seq<char>|
            entries(items).dom().contains(k) <==> exists|i: int|
                0 <= i < items.len() && #[trigger] items[i].key == k by {
            if entries(items).dom().contains(k) {
                if k == items.last().key {
                    assert(items[items.len() - 1].key == k);
                } else {
                    let i = choose|i: int| 0 <= i < rest.len() && #[trigger] rest[i].key == k;
                    assert(items[i].key == k);
                }
            }
            if exists|i: int| 0 <= i < items.len() && #[trigger] items[i].key == k {
                let i = choose|i: int| 0 <= i < items.len() && #[trigger] items[i].key == k;
                if i < rest.len() {
                    assert(rest[i].key == k);
                }
            }
        }
    }
}

/// With distinct keys the mapping has as many entries as there are items.
pub proof fn lemma_entries_count(items: Seq<ItemView>)
    requires
        distinct_keys(items),
    ensures
        entries(items).dom().finite(),
        entries(items).dom().len() == items.len(),
    decreases items.len(),
{
    lemma_entries_keys(items);
    if items.len() > 0 {
        let rest = items.drop_last();
        lemma_entries_keys(rest);
        lemma_entries_count(rest);
        if entries(rest).dom().contains(items.last().key) {
            let i = choose|i: int| 0 <= i < rest.len() && #[trigger] rest[i].key == items.last().key;
            assert(items[i].key == items[items.len() - 1].key);
        }
    }
}

/// Last write wins: after two puts with one key, the store is what a put of
/// the second alone would have left, and the key's value is the second's.
pub proof fn law_last_write_wins(store: Map<Seq<char>, ItemView>, first: ItemView, second: ItemView)
    requires
        first.key == second.key,
    ensures
        store.insert(first.key, first).insert(second.key, second) == store.insert(
            second.key,
            second,
        ),
        after_puts(store, seq![first, second]) == store.insert(second.key, second),
        after_puts(store, seq![first, second])[second.key].value == second.value,
{
    let both = seq![first, second];
    assert(both.drop_last().drop_last() == Seq::<ItemView>::empty());
    assert(both.drop_last().last() == first);
    assert(after_puts(store, both.drop_last().drop_last()) == store);
    assert(after_puts(store, both.drop_last()) == store.insert(first.key, first));
    assert(store.insert(first.key, first).insert(second.key, second) == store.insert(
        second.key,
        second,
    ));
}

/// The entry under a key is, whole, the last item that was put under it.
pub proof fn law_entry_is_last_put(
    start: Map<Seq<char>, ItemView>,
    puts: Seq<ItemView>,
    key: Seq<char>,
    i: int,
)
    requires
        is_last_put(puts, key, i),
    ensures
        after_puts(start, puts).dom().contains(key),
        after_puts(start, puts)[key] == puts[i],
    decreases puts.len(),
{
    let n = puts.len() - 1;
    if i < n {
        let rest = puts.drop_last();
        assert(puts[n].key != key);
        assert(is_last_put(rest, key, i)) by {
            assert forall|j: int| i < j < rest.len() implies rest[j].key != key by {
                assert(puts[j].key != key);
            }
        }
        law_entry_is_last_put(start, rest, key, i);
    }
}

/// A key that no put named is as the store started with it.
pub proof fn law_unnamed_key_is_kept(
    start: Map<Seq<char>, ItemView>,
    puts: Seq<ItemView>,
    key: Seq<char>,
)
    requires
        forall|i: int| 0 <= i < puts.len() ==> (#[trigger] puts[i]).key != key,
    ensures
        after_puts(start, puts).dom().contains(key) == start.dom().contains(key),
        after_puts(start, puts)[key] == start[key],
    decreases puts.len(),
{
    if puts.len() > 0 {
        let rest = puts.drop_last();
        assert(puts[puts.len() - 1].key != key);
        assert forall|i: int| 0 <= i < rest.len() implies (#[trigger] rest[i]).key != key by {
            assert(puts[i].key != key);
        }
        law_unnamed_key_is_kept(start, rest, key);
    }
}

/// Whatever puts went before, an entry of the store is never a mixture: it
/// is, whole, the last item that was put under its key or, where no put
/// named the key, the entry that the store started with.
pub proof fn law_entry_is_whole(
    start: Map<Seq<char>, ItemView>,
    puts: Seq<ItemView>,
    key: Seq<char>,
)
    requires
        after_puts(start, puts).dom().contains(key),
    ensures
        (exists|i: int| is_last_put(puts, key, i) && after_puts(start, puts)[key] == puts[i]) || (
        start.dom().contains(key) && after_puts(start, puts)[key] == start[key]),
    decreases puts.len(),
{
    if puts.len() > 0 {
        let rest = puts.drop_last();
        let n = puts.len() - 1;
        if puts[n].key == key {
            assert(is_last_put(puts, key, n));
        } else {
            law_entry_is_whole(start, rest, key);
            if exists|i: int| is_last_put(rest, key, i) && after_puts(start, rest)[key] == rest[i] {
                let i = choose|i: int|
                    is_last_put(rest, key, i) && after_puts(start, rest)[key] == rest[i];
                assert(is_last_put(puts, key, i)) by {
                    assert forall|j: int| i < j < puts.len() implies puts[j].key != key by {
                        if j < n {
                            assert(rest[j].key != key);
                        }
                    }
                }
                assert(after_puts(start, puts)[key] == puts[i]);
            }
        }
    }
}

/// What a listing shows is never a mixture. Where a sequence of distinct
/// keys stands for the store that `puts` left, each of its items is,
/// whole, the last item that was put under its key or, where no put named
/// the key, the entry that the store started with.
pub proof fn law_listing_holds_whole_puts(
    start: Map<Seq<char>, ItemView>,
    puts: Seq<ItemView>,
    listing: Seq<ItemView>,
    i: int,
)
    requires
        distinct_keys(listing),
        entries(listing) == after_puts(start, puts),
        0 <= i < listing.len(),
    ensures
        (exists|j: int| is_last_put(puts, listing[i].key, j) && listing[i] == puts[j]) || (
        start.dom().contains(listing[i].key) && listing[i] == start[listing[i].key]),
{
    let key = listing[i].key;
    assert(is_last_put(listing, key, i));
    law_entry_is_last_put(Map::empty(), listing, key, i);
    law_entry_is_whole(start, puts, key);
}

/// Every entry sits under its own key, whatever puts went before.
pub proof fn law_keyed_by_own_key(start: Map<Seq<char>, ItemView>, puts: Seq<ItemView>)
    requires
        keyed_by_own_key(start),
    ensures
        keyed_by_own_key(after_puts(start, puts)),
    decreases puts.len(),
{
    if puts.len() > 0 {
        law_keyed_by_own_key(start, puts.drop_last());
    }
}

/// Puts `item` into a vector of distinct keys: over the item that has its
/// key, or at the end where none has.
fn place(items: &mut Vec<Item>, item: Item)
    requires
        distinct_keys(views(old(items)@)),
    ensures
        distinct_keys(views(final(items)@)),
        entries(views(final(items)@)) == entries(views(old(items)@)).insert(item@.key, item@),
{
    let ghost before = views(items@);
    let mut i: usize = 0;
    while i < items.len()
        invariant
            i <= items.len(),
            items@ == old(items)@,
            before == views(items@),
            distinct_keys(before),
            forall|j: int| 0 <= j < i ==> before[j].key != item@.key,
        decreases items.len() - i,
    {
        if items[i].key == item.key {
            proof {
                lemma_replace(before, i as int, item@);
            }
            items.set(i, item);
            assert(views(items@) == before.update(i as int, item@));
            return ;
        }
        i += 1;
    }
    items.push(item);
    assert(views(items@) == before.push(item@));
    assert(before.push(item@).drop_last() == before);
}

/// The store. It holds at most one item for each key.
pub struct Repository {
    items: Vec<Item>,
}

impl View for Repository {
    type V = Map<Seq<char>, ItemView>;

    /// The mapping from key to stored item.
    closed spec fn view(&self) -> Map<Seq<char>, ItemView> {
        entries(views(self.items@))
    }
}

impl Repository {
    /// No key is held twice.
    #[verifier::type_invariant]
    spec fn wf(&self) -> bool {
        distinct_keys(views(self.items@))
    }

    /// A store is finite and keeps every entry under the entry's own key.
    pub proof fn lemma_own_keys(&self)
        ensures
            self@.dom().finite(),
            keyed_by_own_key(self@),
    {
        lemma_entries_keys(views(self.items@));
        law_keyed_by_own_key(Map::empty(), views(self.items@));
    }

    /// An empty store.
    pub fn new() -> (repo: Self)
        ensures
            repo@ == Map::<Seq<char>, ItemView>::empty(),
    {
        Self { items: Vec::new() }
    }

    /// The store as it is at start: one entry, the author's.
    pub fn seeded() -> (repo: Self)
        ensures
            repo@ == Map::<Seq<char>, ItemView>::empty().insert(
                "Author"@,
                ItemView { key: "Author"@, value: "Leo"@ },
            ),
    {
        let mut repo = Repository::new();
        repo.put(Item { key: String::from_str("Author"), value: String::from_str("Leo") });
        repo
    }

    /// Inserts `item` under its own key, in place of what was stored there.
    pub fn put(&mut self, item: Item)
        ensures
            final(self)@ == old(self)@.insert(item@.key, item@),
    {
        proof {
            use_type_invariant(&*self);
        }
        let mut items: Vec<Item> = Vec::new();
        std::mem::swap(&mut self.items, &mut items);
        place(&mut items, item);
        std::mem::swap(&mut self.items, &mut items);
    }

    /// A snapshot of all entries, one item for each key of the store, in
    /// no particular order.
    pub fn list(&self) -> (snapshot: Vec<Item>)
        ensures
            distinct_keys(views(snapshot@)),
            entries(views(snapshot@)) == self@,
            snapshot@.len() == self@.dom().len(),
    {
        proof {
            use_type_invariant(self);
        }
        let mut snapshot: Vec<Item> = Vec::new();
        let mut i: usize = 0;
        while i < self.items.len()
            invariant
                i <= self.items.len(),
                snapshot@.len() == i,
                forall|j: int| 0 <= j < i ==> snapshot@[j]@ == self.items@[j]@,
            decreases self.items.len() - i,
        {
            snapshot.push(self.items[i].clone());
            i += 1;
        }
        assert(views(snapshot@) == views(self.items@));
        proof {
            lemma_entries_count(views(snapshot@));
        }
        snapshot
    }
}

/// The status that answers a stored item.
pub const CREATED: u16 = 201;

/// Stores the item of a decoded body and answers 201. Both fields are
/// required: with either absent nothing is stored and the body is reported
/// as malformed.
pub fn create(repo: &mut Repository, key: Option<String>, value: Option<String>) -> (outcome:
    Result<u16, Failure>)
    ensures
        key.is_some() && value.is_some() ==> outcome == Ok::<u16, Failure>(201) && final(repo)@
            == old(repo)@.insert(
            key.unwrap()@,
            ItemView { key: key.unwrap()@, value: value.unwrap()@ },
        ),
        key.is_none() || value.is_none() ==> outcome == Err::<u16, Failure>(
            Failure::MalformedBody,
        ) && final(repo)@ == old(repo)@,
{
    match Item::bind(key, value) {
        Ok(item) => {
            repo.put(item);
            Ok(CREATED)
        },
        Err(failure) => Err(failure),
    }
}

/// Answers with every item of the store, one for each key.
pub fn list(repo: &Repository) -> (snapshot: Vec<Item>)
    ensures
        distinct_keys(views(snapshot@)),
        entries(views(snapshot@)) == repo@,
        snapshot@.len() == repo@.dom().len(),
{
    repo.list()
}

} // verus!
