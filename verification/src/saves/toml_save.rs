//! The in-memory side of the record store: the records of each kind, keyed
//! by identifier, and the database folder they are saved in. Reading and
//! writing the files is done by the caller, which hands the store what it
//! read and tells it what it wrote.

use vstd::prelude::*;
use std::collections::HashMap;
use crate::invoice::Invoice;
use crate::records::{carries, entries_view, lemma_never_saved_absent, load_dir, loaded, with_saved};
use super::savables::{Footer, Party};

verus! {

broadcast use vstd::std_specs::hash::group_hash_axioms;

/// The folder, under the database folder, that holds footer sections.
pub open spec fn footers_folder() -> Seq<char> {
    seq!['f', 'i', 'e', 'l', 'd', 's']
}

/// The folder that holds parties.
pub open spec fn parties_folder() -> Seq<char> {
    seq!['p', 'a', 'r', 't', 'i', 'e', 's']
}

/// The folder that holds invoices.
pub open spec fn invoices_folder() -> Seq<char> {
    seq!['i', 'n', 'v', 'o', 'i', 'c', 'e', 's']
}

/// The abstract value of a store.
pub struct StorageView {
    pub footers: Map<u128, Footer>,
    pub parties: Map<u128, Party>,
    pub invoices: Map<u128, Invoice>,
    pub db: Seq<char>,
}

/// owns anything in invoice.rs that is savable
pub struct Storage {
    footers: HashMap<u128, Footer>,
    parties: HashMap<u128, Party>,
    invoices: HashMap<u128, Invoice>,
    /// top-level db folder.
    db: String,
}

impl View for Storage {
    type V = StorageView;

    closed spec fn view(&self) -> StorageView {
        StorageView {
            footers: self.footers@,
            parties: self.parties@,
            invoices: self.invoices@,
            db: self.db@,
        }
    }
}

/// The store after a footer section is saved.
pub open spec fn with_footer(s: StorageView, field: Footer) -> StorageView {
    StorageView { footers: s.footers.insert(field@.uuid, field), ..s }
}

/// The store after a party is saved.
pub open spec fn with_party(s: StorageView, party: Party) -> StorageView {
    StorageView { parties: s.parties.insert(party.uuid, party), ..s }
}

/// The store after an invoice is saved.
pub open spec fn with_invoice(s: StorageView, invoice: Invoice) -> StorageView {
    StorageView { invoices: s.invoices.insert(invoice@.uuid, invoice), ..s }
}

/// What a lookup in a map gives.
pub open spec fn looked_up<T>(m: Map<u128, T>, uuid: u128, r: Option<&T>) -> bool {
    match r {
        Some(x) => m.contains_key(uuid) && *x == m[uuid],
        None => !m.contains_key(uuid),
    }
}

impl Storage {
    /// The name of the folder that holds footer sections.
    pub fn footers_folder() -> (s: &'static str)
        ensures
            s@ == footers_folder(),
    {
        proof {
            reveal_strlit("fields");
        }
        "fields"
    }

    /// The name of the folder that holds parties.
    pub fn parties_folder() -> (s: &'static str)
        ensures
            s@ == parties_folder(),
    {
        proof {
            reveal_strlit("parties");
        }
        "parties"
    }

    /// The name of the folder that holds invoices.
    pub fn invoices_folder() -> (s: &'static str)
        ensures
            s@ == invoices_folder(),
    {
        proof {
            reveal_strlit("invoices");
        }
        "invoices"
    }

    /// A store over the database folder `db`, holding what its three
    /// folders' entries load into (see `load_dir`).
    pub fn new(
        db: String,
        footers: Vec<(String, Option<Footer>)>,
        parties: Vec<(String, Option<Party>)>,
        invoices: Vec<(String, Option<Invoice>)>,
    ) -> (s: Self)
        ensures
            s@ == (StorageView {
                footers: loaded(entries_view(footers@)),
                parties: loaded(entries_view(parties@)),
                invoices: loaded(entries_view(invoices@)),
                db: db@,
            }),
    {
        Self {
            footers: load_dir(footers),
            parties: load_dir(parties),
            invoices: load_dir(invoices),
            db,
        }
    }

    /// The database folder.
    pub fn db(&self) -> (r: &String)
        ensures
            r@ == self@.db,
    {
        &self.db
    }

    /// The footer section with this identifier.
    pub fn footer(&self, uuid: &u128) -> (r: Option<&Footer>)
        ensures
            looked_up(self@.footers, *uuid, r),
    {
        self.footers.get(uuid)
    }

    /// The party with this identifier.
    pub fn party(&self, uuid: &u128) -> (r: Option<&Party>)
        ensures
            looked_up(self@.parties, *uuid, r),
    {
        self.parties.get(uuid)
    }

    /// The invoice with this identifier.
    pub fn invoice(&self, uuid: &u128) -> (r: Option<&Invoice>)
        ensures
            looked_up(self@.invoices, *uuid, r),
    {
        self.invoices.get(uuid)
    }

    /// Records a footer section whose file has been written.
    pub fn save_footer(&mut self, field: Footer)
        ensures
            final(self)@ == with_footer(old(self)@, field),
    {
        let uuid = *field.uuid();
        self.footers.insert(uuid, field);
    }

    /// Records a party whose file has been written.
    pub fn save_party(&mut self, party: Party)
        ensures
            final(self)@ == with_party(old(self)@, party),
    {
        let uuid = *party.uuid();
        self.parties.insert(uuid, party);
    }

    /// Records an invoice whose file has been written.
    pub fn save_invoice(&mut self, invoice: Invoice)
        ensures
            final(self)@ == with_invoice(old(self)@, invoice),
    {
        let uuid = *invoice.uuid();
        self.invoices.insert(uuid, invoice);
    }
}

/// After a footer section is saved, looking up its identifier finds it, and
/// every other lookup, of any kind, finds what it found before.
pub proof fn lemma_footer_save_then_lookup(before: StorageView, field: Footer, other: u128)
    ensures
        ({
            let after = with_footer(before, field);
            &&& after.footers.contains_key(field@.uuid)
            &&& after.footers[field@.uuid] == field
            &&& other != field@.uuid ==> after.footers.contains_key(other)
                == before.footers.contains_key(other) && after.footers[other]
                == before.footers[other]
            &&& after.parties == before.parties
            &&& after.invoices == before.invoices
        }),
{
}

/// After a party is saved, looking up its identifier finds it, and every
/// other lookup finds what it found before.
pub proof fn lemma_party_save_then_lookup(before: StorageView, party: Party, other: u128)
    ensures
        ({
            let after = with_party(before, party);
            &&& after.parties.contains_key(party.uuid)
            &&& after.parties[party.uuid] == party
            &&& other != party.uuid ==> after.parties.contains_key(other)
                == before.parties.contains_key(other) && after.parties[other]
                == before.parties[other]
            &&& after.footers == before.footers
            &&& after.invoices == before.invoices
        }),
{
}

/// After an invoice is saved, looking up its identifier finds it, and every
/// other lookup finds what it found before.
pub proof fn lemma_invoice_save_then_lookup(before: StorageView, invoice: Invoice, other: u128)
    ensures
        ({
            let after = with_invoice(before, invoice);
            &&& after.invoices.contains_key(invoice@.uuid)
            &&& after.invoices[invoice@.uuid] == invoice
            &&& other != invoice@.uuid ==> after.invoices.contains_key(other)
                == before.invoices.contains_key(other) && after.invoices[other]
                == before.invoices[other]
            &&& after.footers == before.footers
            &&& after.parties == before.parties
        }),
{
}

/// The identifiers and records of a list of footer sections.
pub open spec fn keyed_footers(saved: Seq<Footer>) -> Seq<(u128, Footer)> {
    saved.map_values(|f: Footer| (f@.uuid, f))
}

/// The identifiers and records of a list of parties.
pub open spec fn keyed_parties(saved: Seq<Party>) -> Seq<(u128, Party)> {
    saved.map_values(|p: Party| (p.uuid, p))
}

/// The identifiers and records of a list of invoices.
pub open spec fn keyed_invoices(saved: Seq<Invoice>) -> Seq<(u128, Invoice)> {
    saved.map_values(|i: Invoice| (i@.uuid, i))
}

/// In a store opened over a folder and then given a series of saves, a
/// lookup of an identifier that no valid file of the folder carried and
/// that none of the saves used finds nothing, for each kind of record.
pub proof fn lemma_never_stored_absent(
    footer_entries: Seq<(Seq<char>, Option<Footer>)>,
    party_entries: Seq<(Seq<char>, Option<Party>)>,
    invoice_entries: Seq<(Seq<char>, Option<Invoice>)>,
    saved_footers: Seq<Footer>,
    saved_parties: Seq<Party>,
    saved_invoices: Seq<Invoice>,
    u: u128,
)
    requires
        !carries(footer_entries, u),
        !carries(party_entries, u),
        !carries(invoice_entries, u),
        forall|j: int| 0 <= j < saved_footers.len() ==> (#[trigger] saved_footers[j])@.uuid != u,
        forall|j: int| 0 <= j < saved_parties.len() ==> (#[trigger] saved_parties[j]).uuid != u,
        forall|j: int| 0 <= j < saved_invoices.len() ==> (#[trigger] saved_invoices[j])@.uuid != u,
    ensures
        !with_saved(loaded(footer_entries), keyed_footers(saved_footers)).contains_key(u),
        !with_saved(loaded(party_entries), keyed_parties(saved_parties)).contains_key(u),
        !with_saved(loaded(invoice_entries), keyed_invoices(saved_invoices)).contains_key(u),
{
    assert forall|j: int| 0 <= j < keyed_footers(saved_footers).len() implies (
    #[trigger] keyed_footers(saved_footers)[j]).0 != u by {
        assert(keyed_footers(saved_footers)[j].0 == saved_footers[j]@.uuid);
    }
    assert forall|j: int| 0 <= j < keyed_parties(saved_parties).len() implies (
    #[trigger] keyed_parties(saved_parties)[j]).0 != u by {
        assert(keyed_parties(saved_parties)[j].0 == saved_parties[j].uuid);
    }
    assert forall|j: int| 0 <= j < keyed_invoices(saved_invoices).len() implies (
    #[trigger] keyed_invoices(saved_invoices)[j]).0 != u by {
        assert(keyed_invoices(saved_invoices)[j].0 == saved_invoices[j]@.uuid);
    }
    lemma_never_saved_absent(footer_entries, keyed_footers(saved_footers), u);
    lemma_never_saved_absent(party_entries, keyed_parties(saved_parties), u);
    lemma_never_saved_absent(invoice_entries, keyed_invoices(saved_invoices), u);
}

} // verus!
