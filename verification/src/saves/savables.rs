//! Records that can be saved on their own: parties and footer sections.

use vstd::prelude::*;

verus! {

/// The kind of a savable record.
#[derive(Debug, Clone, Copy, PartialEq, Eq, Structural)]
pub enum SavableKind {
    Party,
    Footer,
}

/// The name of a kind in text: its variant name in snake case.
pub open spec fn kind_name(k: SavableKind) -> Seq<char> {
    match k {
        SavableKind::Party => seq!['p', 'a', 'r', 't', 'y'],
        SavableKind::Footer => seq!['f', 'o', 'o', 't', 'e', 'r'],
    }
}

impl SavableKind {
    /// The kind's name, as it is displayed.
    pub fn to_string(&self) -> (s: String)
        ensures
            s@ == kind_name(*self),
    {
        proof {
            reveal_strlit("party");
            reveal_strlit("footer");
        }
        match self {
            SavableKind::Party => "party".to_owned(),
            SavableKind::Footer => "footer".to_owned(),
        }
    }
}

/// A record that is saved on its own, under its identifier.
pub trait Savable {
    /// The record's identifier.
    spec fn key(&self) -> u128;

    /// The record's kind.
    spec fn kind(&self) -> SavableKind;

    /// The record's identifier.
    fn uuid(&self) -> (u: u128)
        ensures
            u == self.key(),
    ;

    /// The record's kind.
    fn group(&self) -> (k: SavableKind)
        ensures
            k == self.kind(),
    ;
}

/// The abstract value of a party.
pub struct PartyView {
    pub uuid: u128,
    pub name_id: Seq<char>,
    pub content: Seq<char>,
}

/// A party to an invoice: a sender or a recipient.
pub struct Party {
    pub uuid: u128,
    pub name_id: String,
    /// a basic text box for name, company, address, etc.
    /// includes new lines.
    pub content: String,
}

impl View for Party {
    type V = PartyView;

    open spec fn view(&self) -> PartyView {
        PartyView { uuid: self.uuid, name_id: self.name_id@, content: self.content@ }
    }
}

impl Party {
    /// The identifier.
    pub fn uuid(&self) -> (r: &u128)
        ensures
            *r == self.uuid,
    {
        &self.uuid
    }

    /// The name the party is known by.
    pub fn name_id(&self) -> (r: &String)
        ensures
            r@ == self.name_id@,
    {
        &self.name_id
    }

    /// The party's text block.
    pub fn content(&self) -> (r: &String)
        ensures
            r@ == self.content@,
    {
        &self.content
    }
}

impl Savable for Party {
    open spec fn key(&self) -> u128 {
        self.uuid
    }

    open spec fn kind(&self) -> SavableKind {
        SavableKind::Party
    }

    fn uuid(&self) -> (u: u128) {
        self.uuid
    }

    fn group(&self) -> (k: SavableKind) {
        SavableKind::Party
    }
}

/// The abstract value of a footer section.
pub struct FooterView {
    pub uuid: u128,
    pub header: Seq<char>,
    pub text: Seq<char>,
}

/// A footer section that can be reused across invoices.
pub struct Footer {
    uuid: u128,
    header: String,
    text: String,
}

impl View for Footer {
    type V = FooterView;

    closed spec fn view(&self) -> FooterView {
        FooterView { uuid: self.uuid, header: self.header@, text: self.text@ }
    }
}

impl Footer {
    /// A footer section with the given fields.
    pub fn new(uuid: u128, header: String, text: String) -> (r: Footer)
        ensures
            r@ == (FooterView { uuid, header: header@, text: text@ }),
    {
        Footer { uuid, header, text }
    }

    /// The identifier.
    pub fn uuid(&self) -> (r: &u128)
        ensures
            *r == self@.uuid,
    {
        &self.uuid
    }

    /// The header.
    pub fn header(&self) -> (r: &String)
        ensures
            r@ == self@.header,
    {
        &self.header
    }

    /// The text.
    pub fn text(&self) -> (r: &String)
        ensures
            r@ == self@.text,
    {
        &self.text
    }
}

impl Savable for Footer {
    open spec fn key(&self) -> u128 {
        self@.uuid
    }

    open spec fn kind(&self) -> SavableKind {
        SavableKind::Footer
    }

    fn uuid(&self) -> (u: u128) {
        self.uuid
    }

    fn group(&self) -> (k: SavableKind) {
        SavableKind::Footer
    }
}

} // verus!
