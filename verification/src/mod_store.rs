//! The catalog of installed mods and their activation flags.

use vstd::prelude::*;
use crate::error::Error;
use crate::ident::ascending;
use crate::ident::copied;
use crate::ident::id_lt;
use crate::ident::lemma_ascending_no_duplicates;
use crate::ident::lemma_ascending_unique;
use crate::ident::lemma_id_lt_transitive;
use crate::ident::lemma_id_order;
use crate::ident::lemma_push_new;
use crate::ident::rank;
use crate::ident::views;
use crate::ident::Rank;

verus! {

/// What a mod store maps: each known identifier to its active flag.
pub type Flags = Map<Seq<char>, bool>;

/// One persisted record of the mod store: a mod and whether it is active.
#[derive(Debug)]
pub struct ModRecord {
    /// The mod's identifier.
    pub id: String,
    /// Whether the mod is active.
    pub active: bool,
}

/// The identifiers of a sequence of records, in the records' order.
pub open spec fn record_ids(records: Seq<ModRecord>) -> Seq<Seq<char>> {
    Seq::new(records.len(), |i: int| records[i].id@)
}

/// The flags of a sequence of records, in the records' order.
pub open spec fn record_flags(records: Seq<ModRecord>) -> Seq<bool> {
    Seq::new(records.len(), |i: int| records[i].active)
}

/// The mapping that sends each of `ids` to the flag at its place.
pub open spec fn assoc(ids: Seq<Seq<char>>, flags: Seq<bool>) -> Flags {
    Map::new(|id: Seq<char>| ids.contains(id), |id: Seq<char>| flags[ids.index_of(id)])
}

/// The mapping that a sequence of records without repeated identifiers
/// stands for.
pub open spec fn records_map(records: Seq<ModRecord>) -> Flags {
    assoc(record_ids(records), record_flags(records))
}

/// The mapping `m` with the flag of every known identifier in `ids` set to
/// `value`, and every other flag as it is.
pub open spec fn forced(m: Flags, ids: Set<Seq<char>>, value: bool) -> Flags {
    Map::new(
        |id: Seq<char>| m.contains_key(id),
        |id: Seq<char>| if ids.contains(id) { value } else { m[id] },
    )
}

/// Whether `store` knows every one of `ids`.
pub open spec fn all_known(store: Flags, ids: Seq<Seq<char>>) -> bool {
    forall|i: int| 0 <= i < ids.len() ==> store.contains_key(#[trigger] ids[i])
}

/// `ids` lists the mods that `store` knows: each once, in ascending order.
pub open spec fn lists(ids: Seq<Seq<char>>, store: Flags) -> bool {
    &&& ascending(ids)
    &&& ids.to_set() == store.dom()
}

/// The listing of the mods that `store` knows. There is one where the
/// store knows finitely many mods, and then it is the only one.
pub open spec fn listing(store: Flags) -> Seq<Seq<char>> {
    choose|ids: Seq<Seq<char>>| lists(ids, store)
}

/// `records` are the records of a store that maps `store`: one record for
/// each known mod, in listing order.
pub open spec fn saves(store: Flags, records: Seq<ModRecord>) -> bool {
    &&& record_ids(records) == listing(store)
    &&& lists(record_ids(records), store)
    &&& records_map(records) == store
}

/// `outcome` is what loading `records` gives: the store that they stand
/// for, or `LoadError` where an identifier occurs in more than one record.
pub open spec fn loads(records: Seq<ModRecord>, outcome: Result<ModStore, Error>) -> bool {
    match outcome {
        Ok(store) => record_ids(records).no_duplicates() && store@ == records_map(records),
        Err(e) => e == Error::LoadError && !record_ids(records).no_duplicates(),
    }
}

/// Where no identifier is repeated, the mapping sends the identifier at
/// place `i` to the flag at place `i`.
pub proof fn lemma_assoc_at(ids: Seq<Seq<char>>, flags: Seq<bool>, i: int)
    requires
        ids.no_duplicates(),
        0 <= i < ids.len(),
    ensures
        assoc(ids, flags).contains_key(ids[i]),
        assoc(ids, flags)[ids[i]] == flags[i],
{
    let k = ids.index_of(ids[i]);
    assert(ids[k] == ids[i]);
}

/// Appending an identifier that is new adds one entry to the mapping.
pub proof fn lemma_assoc_push(ids: Seq<Seq<char>>, flags: Seq<bool>, id: Seq<char>, flag: bool)
    requires
        ids.no_duplicates(),
        ids.len() == flags.len(),
        !ids.contains(id),
    ensures
        ids.push(id).no_duplicates(),
        assoc(ids.push(id), flags.push(flag)) == assoc(ids, flags).insert(id, flag),
{
    broadcast use vstd::seq_lib::lemma_seq_contains_after_push;

    let more = ids.push(id);
    lemma_push_new(ids, id);
    assert forall|x: Seq<char>| more.contains(x) implies assoc(more, flags.push(flag))[x] == assoc(
        ids,
        flags,
    ).insert(id, flag)[x] by {
        let k = more.index_of(x);
        lemma_assoc_at(more, flags.push(flag), k);
        if k < ids.len() {
            lemma_assoc_at(ids, flags, k);
        }
    }
    assert(assoc(more, flags.push(flag)) =~= assoc(ids, flags).insert(id, flag));
}

/// Putting a new identifier at its place in an ascending sequence keeps the
/// sequence ascending and adds one entry to the mapping.
pub proof fn lemma_assoc_insert(
    ids: Seq<Seq<char>>,
    flags: Seq<bool>,
    at: int,
    id: Seq<char>,
    flag: bool,
)
    requires
        ascending(ids),
        ids.len() == flags.len(),
        0 <= at <= ids.len(),
        forall|j: int| 0 <= j < at ==> id_lt(#[trigger] ids[j], id),
        at < ids.len() ==> id_lt(id, ids[at]),
    ensures
        ascending(ids.insert(at, id)),
        assoc(ids.insert(at, id), flags.insert(at, flag)) == assoc(ids, flags).insert(id, flag),
{
    let ids2 = ids.insert(at, id);
    let flags2 = flags.insert(at, flag);
    assert forall|i: int, j: int| 0 <= i < j < ids2.len() implies id_lt(
        #[trigger] ids2[i],
        #[trigger] ids2[j],
    ) by {
        if j < at {
            assert(id_lt(ids[i], ids[j]));
        } else if j == at {
            assert(id_lt(ids[i], id));
        } else if i < at {
            assert(id_lt(ids[i], ids[j - 1]));
        } else if i == at {
            if j - 1 > at {
                assert(id_lt(ids[at], ids[j - 1]));
                lemma_id_lt_transitive(id, ids[at], ids[j - 1]);
            }
        } else {
            assert(id_lt(ids[i - 1], ids[j - 1]));
        }
    }
    lemma_ascending_no_duplicates(ids);
    lemma_ascending_no_duplicates(ids2);
    assert forall|x: Seq<char>| ids2.contains(x) == (ids.contains(x) || x == id) by {
        if ids.contains(x) {
            let k = ids.index_of(x);
            assert(ids2[if k < at { k } else { k + 1 }] == x);
        }
        if x == id {
            assert(ids2[at] == x);
        }
        if ids2.contains(x) && x != id {
            let k = ids2.index_of(x);
            assert(ids[if k < at { k } else { k - 1 }] == x);
        }
    }
    assert forall|x: Seq<char>| ids2.contains(x) implies assoc(ids2, flags2)[x] == assoc(
        ids,
        flags,
    ).insert(id, flag)[x] by {
        let k = ids2.index_of(x);
        lemma_assoc_at(ids2, flags2, k);
        if k != at {
            let k0 = if k < at { k } else { k - 1 };
            assert(ids[k0] == x);
            lemma_assoc_at(ids, flags, k0);
        }
    }
    assert(assoc(ids2, flags2) =~= assoc(ids, flags).insert(id, flag));
}

/// The mapping of the first `i + 1` records, where the record at `i` brings
/// a new identifier.
pub proof fn lemma_records_map_step(records: Seq<ModRecord>, i: int)
    requires
        0 <= i < records.len(),
        record_ids(records.take(i)).no_duplicates(),
        !record_ids(records.take(i)).contains(records[i].id@),
    ensures
        record_ids(records.take(i + 1)).no_duplicates(),
        records_map(records.take(i + 1)) == records_map(records.take(i)).insert(
            records[i].id@,
            records[i].active,
        ),
{
    let a = records.take(i);
    let b = records.take(i + 1);
    assert(record_ids(b) =~= record_ids(a).push(records[i].id@));
    assert(record_flags(b) =~= record_flags(a).push(records[i].active));
    lemma_assoc_push(record_ids(a), record_flags(a), records[i].id@, records[i].active);
}

/// The full catalog of known mods, each with its active flag: the single
/// source of truth for whether a mod is active.
///
/// Its view is the mapping from each known identifier to its flag.
#[derive(Debug)]
pub struct ModStore {
    ids: Vec<String>,
    flags: Vec<bool>,
}

impl View for ModStore {
    type V = Flags;

    closed spec fn view(&self) -> Flags {
        assoc(views(self.ids@), self.flags@)
    }
}

impl ModStore {
    /// The identifiers are kept in listing order, so that none occurs twice,
    /// and each has its flag.
    #[verifier::type_invariant]
    closed spec fn wf(&self) -> bool {
        &&& ascending(views(self.ids@))
        &&& self.flags.len() == self.ids.len()
    }

    /// Where `id` stands among ascending `ids`: the index of the first one
    /// that is not listed before `id`, and whether that one is `id` itself.
    fn locate(ids: &Vec<String>, id: &str) -> (r: (usize, bool))
        requires
            ascending(views(ids@)),
        ensures
            r.0 <= ids.len(),
            forall|j: int| 0 <= j < r.0 ==> id_lt(#[trigger] views(ids@)[j], id@),
            r.1 ==> r.0 < ids.len() && views(ids@)[r.0 as int] == id@,
            r.1 == views(ids@).contains(id@),
            !r.1 && r.0 < ids.len() ==> id_lt(id@, views(ids@)[r.0 as int]),
    {
        let mut i: usize = 0;
        while i < ids.len()
            invariant
                i <= ids.len(),
                ascending(views(ids@)),
                forall|j: int| 0 <= j < i ==> id_lt(#[trigger] views(ids@)[j], id@),
            decreases ids.len() - i,
        {
            match rank(ids[i].as_str(), id) {
                Rank::Before => {},
                Rank::Same => {
                    assert(views(ids@)[i as int] == id@);
                    return (i, true);
                },
                Rank::After => {
                    proof {
                        lemma_absent(views(ids@), id@, i as int);
                    }
                    return (i, false);
                },
            }
            i = i + 1;
        }
        proof {
            lemma_absent(views(ids@), id@, i as int);
        }
        (i, false)
    }

    /// The identifiers as they are kept are the listing of the store.
    proof fn lemma_listing(&self)
        requires
            self.wf(),
        ensures
            lists(views(self.ids@), self@),
            views(self.ids@) == listing(self@),
    {
        assert(views(self.ids@).to_set() =~= self@.dom());
        assert(lists(views(self.ids@), self@));
        assert(lists(listing(self@), self@));
        lemma_ascending_unique(views(self.ids@), listing(self@));
    }

    /// A store that knows no mod.
    pub fn new() -> (r: ModStore)
        ensures
            r@ == Map::<Seq<char>, bool>::empty(),
    {
        let r = ModStore { ids: Vec::new(), flags: Vec::new() };
        assert(r@ =~= Map::<Seq<char>, bool>::empty());
        r
    }

    /// Builds the store from its persisted records.
    ///
    /// Fails with `LoadError` exactly when some identifier occurs in more
    /// than one record; otherwise the store maps each record's identifier to
    /// its flag.
    pub fn load(records: &Vec<ModRecord>) -> (r: Result<ModStore, Error>)
        ensures
            loads(records@, r),
    {
        let mut ids: Vec<String> = Vec::new();
        let mut flags: Vec<bool> = Vec::new();
        let mut i: usize = 0;
        assert(record_ids(records@.take(0)) =~= Seq::<Seq<char>>::empty());
        assert(assoc(views(ids@), flags@) =~= records_map(records@.take(0)));
        while i < records.len()
            invariant
                i <= records.len(),
                ascending(views(ids@)),
                flags.len() == ids.len(),
                record_ids(records@.take(i as int)).no_duplicates(),
                assoc(views(ids@), flags@) == records_map(records@.take(i as int)),
            decreases records.len() - i,
        {
            let ghost seen = record_ids(records@.take(i as int));
            let ghost old_ids = views(ids@);
            let ghost old_flags = flags@;
            let (at, found) = Self::locate(&ids, records[i].id.as_str());
            let ghost id = records[i as int].id@;
            assert(old_ids.contains(id) == assoc(old_ids, old_flags).contains_key(id));
            if found {
                proof {
                    let k = seen.index_of(id);
                    let all = record_ids(records@);
                    assert(all[k] == seen[k]);
                    assert(all[i as int] == records[i as int].id@);
                }
                return Err(Error::LoadError);
            }
            ids.insert(at, records[i].id.clone());
            flags.insert(at, records[i].active);
            proof {
                assert(views(ids@) =~= old_ids.insert(at as int, records[i as int].id@));
                lemma_assoc_insert(
                    old_ids,
                    old_flags,
                    at as int,
                    records[i as int].id@,
                    records[i as int].active,
                );
                lemma_records_map_step(records@, i as int);
            }
            i = i + 1;
        }
        assert(records@.take(i as int) =~= records@);
        Ok(ModStore { ids, flags })
    }

    /// The records to persist: one for each known mod, in listing order.
    ///
    /// Loading them again gives a store with the same view.
    pub fn save(&self) -> (records: Vec<ModRecord>)
        ensures
            saves(self@, records@),
    {
        proof {
            use_type_invariant(self);
        }
        let mut records: Vec<ModRecord> = Vec::new();
        let mut i: usize = 0;
        while i < self.ids.len()
            invariant
                i <= self.ids.len(),
                self.flags.len() == self.ids.len(),
                records.len() == i,
                forall|j: int|
                    0 <= j < i ==> (#[trigger] records[j]).id@ == self.ids[j]@ && records[j].active
                        == self.flags[j],
            decreases self.ids.len() - i,
        {
            records.push(ModRecord { id: self.ids[i].clone(), active: self.flags[i] });
            i = i + 1;
        }
        proof {
            assert(record_ids(records@) =~= views(self.ids@));
            assert(record_flags(records@) =~= self.flags@);
            self.lemma_listing();
        }
        records
    }

    /// The number of known mods.
    pub fn len(&self) -> (n: usize)
        ensures
            self@.dom().finite(),
            n == self@.len(),
    {
        proof {
            use_type_invariant(self);
            let ids = views(self.ids@);
            lemma_ascending_no_duplicates(ids);
            ids.unique_seq_to_set();
            vstd::seq_lib::seq_to_set_is_finite(ids);
            assert(ids.to_set() =~= self@.dom());
        }
        self.ids.len()
    }

    /// Whether `id` names a known mod.
    pub fn contains(&self, id: &str) -> (r: bool)
        ensures
            r == self@.contains_key(id@),
    {
        proof {
            use_type_invariant(self);
        }
        let (_at, found) = Self::locate(&self.ids, id);
        found
    }

    /// Whether the mod `id` is active; `UnknownMod` where the store does not
    /// know `id`.
    pub fn is_active(&self, id: &str) -> (r: Result<bool, Error>)
        ensures
            r == if self@.contains_key(id@) {
                Ok::<bool, Error>(self@[id@])
            } else {
                Err::<bool, Error>(Error::UnknownMod)
            },
    {
        proof {
            use_type_invariant(self);
        }
        let (at, found) = Self::locate(&self.ids, id);
        if found {
            proof {
                lemma_ascending_no_duplicates(views(self.ids@));
                lemma_assoc_at(views(self.ids@), self.flags@, at as int);
            }
            Ok(self.flags[at])
        } else {
            Err(Error::UnknownMod)
        }
    }

    /// Sets the flag of the mod `id`, leaving every other mod as it is;
    /// `UnknownMod`, and no change, where the store does not know `id`.
    pub fn set_active(&mut self, id: &str, value: bool) -> (r: Result<(), Error>)
        ensures
            old(self)@.contains_key(id@) ==> r is Ok
                && final(self)@ == old(self)@.insert(id@, value),
            !old(self)@.contains_key(id@) ==> r == Err::<(), Error>(Error::UnknownMod)
                && final(self)@ == old(self)@,
    {
        proof {
            use_type_invariant(&*self);
        }
        let (at, found) = Self::locate(&self.ids, id);
        if found {
            let ghost before = self.flags@;
            self.flags[at] = value;
            proof {
                let ids = views(self.ids@);
                let after = self.flags@;
                lemma_ascending_no_duplicates(ids);
                assert forall|x: Seq<char>| ids.contains(x) implies assoc(ids, after)[x] == assoc(
                    ids,
                    before,
                ).insert(id@, value)[x] by {
                    let k = ids.index_of(x);
                    lemma_assoc_at(ids, after, k);
                    lemma_assoc_at(ids, before, k);
                }
                assert(assoc(ids, after) =~= assoc(ids, before).insert(id@, value));
            }
            Ok(())
        } else {
            Err(Error::UnknownMod)
        }
    }

    /// Sets the flag of every known mod among `ids` to `value`. Identifiers
    /// that the store does not know are passed over.
    pub fn set_all(&mut self, ids: &Vec<String>, value: bool)
        ensures
            final(self)@ == forced(old(self)@, views(ids@).to_set(), value),
    {
        let mut i: usize = 0;
        while i < ids.len()
            invariant
                i <= ids.len(),
                self@ == forced(old(self)@, views(ids@).take(i as int).to_set(), value),
            decreases ids.len() - i,
        {
            let ghost before = self@;
            let ghost done = views(ids@).take(i as int).to_set();
            let ghost next = views(ids@).take(i + 1).to_set();
            let _ = self.set_active(ids[i].as_str(), value);
            proof {
                let id = ids[i as int]@;
                assert(views(ids@).take(i + 1) =~= views(ids@).take(i as int).push(id));
                assert forall|x: Seq<char>| next.contains(x) == (done.contains(x) || x == id) by {
                    let a = views(ids@).take(i as int);
                    let b = views(ids@).take(i + 1);
                    if a.contains(x) {
                        let k = a.index_of(x);
                        assert(b[k] == x);
                    }
                    if x == id {
                        assert(b[i as int] == x);
                    }
                    if b.contains(x) && x != id {
                        let k = b.index_of(x);
                        assert(a[k] == x);
                    }
                }
                assert(self@ =~= forced(old(self)@, next, value));
            }
            i = i + 1;
        }
        assert(views(ids@).take(i as int) =~= views(ids@));
    }

    /// Sets the flag of every one of `ids` to `value`, all or none: where
    /// the store does not know one of them it fails with `UnknownMod` and
    /// changes nothing.
    pub fn set_many(&mut self, ids: &Vec<String>, value: bool) -> (r: Result<(), Error>)
        ensures
            all_known(old(self)@, views(ids@)) ==> r is Ok && final(self)@ == forced(
                old(self)@,
                views(ids@).to_set(),
                value,
            ),
            !all_known(old(self)@, views(ids@)) ==> r == Err::<(), Error>(Error::UnknownMod)
                && final(self)@ == old(self)@,
    {
        let mut i: usize = 0;
        while i < ids.len()
            invariant
                i <= ids.len(),
                self@ == old(self)@,
                all_known(self@, views(ids@).take(i as int)),
            decreases ids.len() - i,
        {
            if !self.contains(ids[i].as_str()) {
                assert(views(ids@)[i as int] == ids[i as int]@);
                return Err(Error::UnknownMod);
            }
            i = i + 1;
            assert forall|j: int| 0 <= j < i implies self@.contains_key(
                #[trigger] views(ids@).take(i as int)[j],
            ) by {
                if j < i - 1 {
                    assert(views(ids@).take(i - 1)[j] == views(ids@).take(i as int)[j]);
                }
            }
        }
        assert(views(ids@).take(i as int) =~= views(ids@));
        self.set_all(ids, value);
        Ok(())
    }

    /// A snapshot of all known identifiers, in listing order: ascending, so
    /// that the same store always lists them alike.
    pub fn identifiers(&self) -> (ids: Vec<String>)
        ensures
            views(ids@) == listing(self@),
            lists(views(ids@), self@),
    {
        proof {
            use_type_invariant(self);
            self.lemma_listing();
        }
        copied(&self.ids)
    }
}

/// An identifier that falls strictly between the ones before place `i` and
/// the ones from `i` on is not in the ascending sequence.
proof fn lemma_absent(ids: Seq<Seq<char>>, id: Seq<char>, i: int)
    requires
        ascending(ids),
        0 <= i <= ids.len(),
        forall|j: int| 0 <= j < i ==> id_lt(#[trigger] ids[j], id),
        i < ids.len() ==> id_lt(id, ids[i]),
    ensures
        !ids.contains(id),
{
    assert forall|j: int| 0 <= j < ids.len() implies ids[j] != id by {
        if j < i {
            lemma_id_order(ids[j], id);
        } else {
            if j > i {
                assert(id_lt(ids[i], ids[j]));
                lemma_id_lt_transitive(id, ids[i], ids[j]);
            }
            lemma_id_order(id, ids[j]);
        }
    }
}

} // verus!
