//! The in-memory side of the record store, reached through the generic
//! `Stores<T>` trait. Reading and writing the files is done by the caller,
//! which hands the store what it read and records what it wrote.

use vstd::prelude::*;
use std::collections::HashMap;
use crate::invoice::Invoice;
use crate::records::{carries, entries_view, lemma_never_saved_absent, load_dir, loaded, with_saved};
use super::savables::{Footer, Party, Savable};

verus! {

broadcast use vstd::std_specs::hash::group_hash_axioms;

/// The folder, under the database folder, that holds footer sections.
pub open spec fn footers_folder() -> Seq<char> {
    seq!['f', 'o', 'o', 't', 'e', 'r', 's']
}

/// The folder that holds parties.
pub open spec fn parties_folder() -> Seq<char> {
    seq!['p', 'a', 'r', 't', 'i', 'e', 's']
}

/// The folder that holds invoices.
pub open spec fn invoices_folder() -> Seq<char> {
    seq!['i', 'n', 'v', 'o', 'i', 'c', 'e', 's']
}

/// The abstract value of a store.
pub struct StorageView {
    pub footers: Map<u128, Footer>,
    pub parties: Map<u128, Party>,
    pub invoices: Map<u128, Invoice>,
    pub db: Seq<char>,
}

/// owns anything in invoice.rs that is savable
pub struct Storage {
    footers: HashMap<u128, Footer>,
    parties: HashMap<u128, Party>,
    invoices: HashMap<u128, Invoice>,
    /// top-level db folder.
    db: String,
}

impl View for Storage {
    type V = StorageView;

    closed spec fn view(&self) -> StorageView {
        StorageView {
            footers: self.footers@,
            parties: self.parties@,
            invoices: self.invoices@,
            db: self.db@,
        }
    }
}

/// What a lookup in a map gives.
pub open spec fn looked_up<T>(m: Map<u128, T>, uuid: u128, r: Option<&T>) -> bool {
    match r {
        Some(x) => m.contains_key(uuid) && *x == m[uuid],
        None => !m.contains_key(uuid),
    }
}

/// Saving and loading one kind of record.
pub trait Stores<T: Savable> {
    /// The records of this kind, by identifier.
    spec fn stored(&self) -> Map<u128, T>;

    /// The identifier a record is stored under.
    spec fn key_of(item: T) -> u128;

    /// Records an item whose file has been written.
    fn save(&mut self, item: T)
        ensures
            final(self).stored() == old(self).stored().insert(Self::key_of(item), item),
    ;

    /// The record with this identifier.
    fn load(&self, uuid: u128) -> (r: Option<&T>)
        ensures
            looked_up(self.stored(), uuid, r),
    ;
}

impl Stores<Footer> for Storage {
    open spec fn stored(&self) -> Map<u128, Footer> {
        self@.footers
    }

    open spec fn key_of(item: Footer) -> u128 {
        item@.uuid
    }

    fn save(&mut self, item: Footer)
        ensures
            final(self)@ == (StorageView { footers: old(self)@.footers.insert(item@.uuid, item), ..old(self)@ }),
    {
        let uuid = *item.uuid();
        self.footers.insert(uuid, item);
    }

    fn load(&self, uuid: u128) -> (r: Option<&Footer>) {
        self.footers.get(&uuid)
    }
}

impl Stores<Party> for Storage {
    open spec fn stored(&self) -> Map<u128, Party> {
        self@.parties
    }

    open spec fn key_of(item: Party) -> u128 {
        item.uuid
    }

    fn save(&mut self, item: Party)
        ensures
            final(self)@ == (StorageView { parties: old(self)@.parties.insert(item.uuid, item), ..old(self)@ }),
    {
        let uuid = *item.uuid();
        self.parties.insert(uuid, item);
    }

    fn load(&self, uuid: u128) -> (r: Option<&Party>) {
        self.parties.get(&uuid)
    }
}

impl Stores<Invoice> for Storage {
    open spec fn stored(&self) -> Map<u128, Invoice> {
        self@.invoices
    }

    open spec fn key_of(item: Invoice) -> u128 {
        item@.uuid
    }

    fn save(&mut self, item: Invoice)
        ensures
            final(self)@ == (StorageView { invoices: old(self)@.invoices.insert(item@.uuid, item), ..old(self)@ }),
    {
        let uuid = *item.uuid();
        self.invoices.insert(uuid, item);
    }

    fn load(&self, uuid: u128) -> (r: Option<&Invoice>) {
        self.invoices.get(&uuid)
    }
}

impl Storage {
    /// The name of the folder that holds footer sections.
    pub fn footers_folder() -> (s: &'static str)
        ensures
            s@ == footers_folder(),
    {
        proof {
            reveal_strlit("footers");
        }
        "footers"
    }

    /// The name of the folder that holds parties.
    pub fn parties_folder() -> (s: &'static str)
        ensures
            s@ == parties_folder(),
    {
        proof {
            reveal_strlit("parties");
        }
        "parties"
    }

    /// The name of the folder that holds invoices.
    pub fn invoices_folder() -> (s: &'static str)
        ensures
            s@ == invoices_folder(),
    {
        proof {
            reveal_strlit("invoices");
        }
        "invoices"
    }

    /// A store over the database folder `db`, holding what its three
    /// folders' entries load into (see `load_dir`).
    pub fn new(
        db: String,
        footers: Vec<(String, Option<Footer>)>,
        parties: Vec<(String, Option<Party>)>,
        invoices: Vec<(String, Option<Invoice>)>,
    ) -> (s: Self)
        ensures
            s@ == (StorageView {
                footers: loaded(entries_view(footers@)),
                parties: loaded(entries_view(parties@)),
                invoices: loaded(entries_view(invoices@)),
                db: db@,
            }),
    {
        Self {
            footers: load_dir(footers),
            parties: load_dir(parties),
            invoices: load_dir(invoices),
            db,
        }
    }

    /// The database folder.
    pub fn db(&self) -> (r: &String)
        ensures
            r@ == self@.db,
    {
        &self.db
    }
}

/// Whatever kind of record is saved, loading its identifier afterwards
/// gives it back, and loading any other identifier gives what it gave
/// before.
pub proof fn lemma_load_after_save<T: Savable, S: Stores<T>>(before: S, after: S, item: T, other: u128)
    requires
        after.stored() == before.stored().insert(S::key_of(item), item),
    ensures
        after.stored().contains_key(S::key_of(item)),
        after.stored()[S::key_of(item)] == item,
        other != S::key_of(item) ==> after.stored().contains_key(other) == before.stored().contains_key(other),
        other != S::key_of(item) && before.stored().contains_key(other) ==> after.stored()[other] == before.stored()[other],
{
}

/// The identifiers and records of a list of footer sections.
pub open spec fn keyed_footers(saved: Seq<Footer>) -> Seq<(u128, Footer)> {
    saved.map_values(|f: Footer| (f@.uuid, f))
}

/// The identifiers and records of a list of parties.
pub open spec fn keyed_parties(saved: Seq<Party>) -> Seq<(u128, Party)> {
    saved.map_values(|p: Party| (p.uuid, p))
}

/// The identifiers and records of a list of invoices.
pub open spec fn keyed_invoices(saved: Seq<Invoice>) -> Seq<(u128, Invoice)> {
    saved.map_values(|i: Invoice| (i@.uuid, i))
}

/// In a store opened over a folder and then given a series of saves, a
/// lookup of an identifier that no valid file of the folder carried and
/// that none of the saves used finds nothing, for each kind of record.
pub proof fn lemma_never_stored_absent(
    footer_entries: Seq<(Seq<char>, Option<Footer>)>,
    party_entries: Seq<(Seq<char>, Option<Party>)>,
    invoice_entries: Seq<(Seq<char>, Option<Invoice>)>,
    saved_footers: Seq<Footer>,
    saved_parties: Seq<Party>,
    saved_invoices: Seq<Invoice>,
    u: u128,
)
    requires
        !carries(footer_entries, u),
        !carries(party_entries, u),
        !carries(invoice_entries, u),
        forall|j: int| 0 <= j < saved_footers.len() ==> (#[trigger] saved_footers[j])@.uuid != u,
        forall|j: int| 0 <= j < saved_parties.len() ==> (#[trigger] saved_parties[j]).uuid != u,
        forall|j: int| 0 <= j < saved_invoices.len() ==> (#[trigger] saved_invoices[j])@.uuid != u,
    ensures
        !with_saved(loaded(footer_entries), keyed_footers(saved_footers)).contains_key(u),
        !with_saved(loaded(party_entries), keyed_parties(saved_parties)).contains_key(u),
        !with_saved(loaded(invoice_entries), keyed_invoices(saved_invoices)).contains_key(u),
{
    assert forall|j: int| 0 <= j < keyed_footers(saved_footers).len() implies (
    #[trigger] keyed_footers(saved_footers)[j]).0 != u by {
        assert(keyed_footers(saved_footers)[j].0 == saved_footers[j]@.uuid);
    }
    assert forall|j: int| 0 <= j < keyed_parties(saved_parties).len() implies (
    #[trigger] keyed_parties(saved_parties)[j]).0 != u by {
        assert(keyed_parties(saved_parties)[j].0 == saved_parties[j].uuid);
    }
    assert forall|j: int| 0 <= j < keyed_invoices(saved_invoices).len() implies (
    #[trigger] keyed_invoices(saved_invoices)[j]).0 != u by {
        assert(keyed_invoices(saved_invoices)[j].0 == saved_invoices[j]@.uuid);
    }
    lemma_never_saved_absent(footer_entries, keyed_footers(saved_footers), u);
    lemma_never_saved_absent(party_entries, keyed_parties(saved_parties), u);
    lemma_never_saved_absent(invoice_entries, keyed_invoices(saved_invoices), u);
}

} // verus!
