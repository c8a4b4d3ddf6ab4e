//! Records that can be saved on their own: parties and footer sections.
//! Which types are savable is a matter of declaration (`Savable`); the
//! store that keeps them is `super::toml_save::Storage`.

use vstd::prelude::*;

verus! {

/// A record that the store can save and load.
pub trait Savable {
}

impl Savable for Party {
}

impl Savable for Footer {
}

impl Savable for crate::invoice::Invoice {
}

/// The abstract value of a party.
pub struct PartyView {
    pub uuid: u128,
    pub name_id: Seq<char>,
    pub content: Seq<char>,
}

/// A party to an invoice: a sender or a recipient.
pub struct Party {
    pub uuid: u128,
    pub name_id: String,
    /// a basic text box for name, company, address, etc.
    /// includes new lines.
    pub content: String,
}

impl View for Party {
    type V = PartyView;

    open spec fn view(&self) -> PartyView {
        PartyView { uuid: self.uuid, name_id: self.name_id@, content: self.content@ }
    }
}

impl Party {
    /// The identifier.
    pub fn uuid(&self) -> (r: &u128)
        ensures
            *r == self.uuid,
    {
        &self.uuid
    }

    /// The name the party is known by.
    pub fn name_id(&self) -> (r: &String)
        ensures
            r@ == self.name_id@,
    {
        &self.name_id
    }

    /// The party's text block.
    pub fn content(&self) -> (r: &String)
        ensures
            r@ == self.content@,
    {
        &self.content
    }
}


/// The abstract value of a footer section.
pub struct FooterView {
    pub uuid: u128,
    pub header: Seq<char>,
    pub text: Seq<char>,
}

/// A footer section that can be reused across invoices.
pub struct Footer {
    uuid: u128,
    header: String,
    text: String,
}

impl View for Footer {
    type V = FooterView;

    closed spec fn view(&self) -> FooterView {
        FooterView { uuid: self.uuid, header: self.header@, text: self.text@ }
    }
}

impl Footer {
    /// A footer section with the given fields.
    pub fn new(uuid: u128, header: String, text: String) -> (r: Footer)
        ensures
            r@ == (FooterView { uuid, header: header@, text: text@ }),
    {
        Footer { uuid, header, text }
    }

    /// The identifier.
    pub fn uuid(&self) -> (r: &u128)
        ensures
            *r == self@.uuid,
    {
        &self.uuid
    }

    /// The header.
    pub fn header(&self) -> (r: &String)
        ensures
            r@ == self@.header,
    {
        &self.header
    }

    /// The text.
    pub fn text(&self) -> (r: &String)
        ensures
            r@ == self@.text,
    {
        &self.text
    }
}


} // verus!
