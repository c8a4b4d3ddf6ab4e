//! The invoice model: line items, their pricing, and the immutable invoice
//! with its builder.

use vstd::prelude::*;
use crate::date::{Date, DateView};
use crate::ids::{is_version7, now_v7};

verus! {

/// How a line item is priced: by a total for the whole line, or by a price
/// per unit that is multiplied by the quantity.
#[derive(Debug, Clone, Copy, PartialEq, Eq, Structural)]
pub enum PricingMethod {
    Totaled(u32),
    UnitPrice(u32),
}

/// The currency an invoice is written in.
#[derive(Debug, Clone, Copy, PartialEq, Eq, Structural)]
pub enum Denomination {
    JPY,
    USD,
}

/// The abstract value of a line item.
pub struct ItemView {
    pub desc: Seq<char>,
    pub quant: u32,
    pub price: PricingMethod,
}

/// One line of an invoice.
pub struct Item {
    desc: String,
    quant: u32,
    price: PricingMethod,
}

impl View for Item {
    type V = ItemView;

    closed spec fn view(&self) -> ItemView {
        ItemView { desc: self.desc@, quant: self.quant, price: self.price }
    }
}

impl Item {
    /// An item priced per unit.
    pub fn unit(desc: String, quant: u32, unit_price: u32) -> (r: Self)
        ensures
            r@ == (ItemView { desc: desc@, quant, price: PricingMethod::UnitPrice(unit_price) }),
    {
        Self { desc, quant, price: PricingMethod::UnitPrice(unit_price) }
    }

    /// An item priced by its line total.
    pub fn total(desc: String, quant: u32, total: u32) -> (r: Self)
        ensures
            r@ == (ItemView { desc: desc@, quant, price: PricingMethod::Totaled(total) }),
    {
        Self { desc, quant, price: PricingMethod::Totaled(total) }
    }

    /// The description.
    pub fn desc(&self) -> (r: &String)
        ensures
            r@ == self@.desc,
    {
        &self.desc
    }

    /// The quantity.
    pub fn quant(&self) -> (r: &u32)
        ensures
            *r == self@.quant,
    {
        &self.quant
    }

    /// The pricing.
    pub fn price(&self) -> (r: &PricingMethod)
        ensures
            *r == self@.price,
    {
        &self.price
    }
}

/// The abstract value of an invoice.
pub struct InvoiceView {
    pub uuid: u128,
    pub num: u32,
    pub ver: u32,
    pub date: DateView,
    pub denom: Denomination,
    pub to: Seq<char>,
    pub from: Seq<char>,
    pub items: Seq<ItemView>,
    pub footer: Seq<(Seq<char>, Seq<char>)>,
}

/// The views of a list of items.
pub open spec fn items_view(items: Seq<Item>) -> Seq<ItemView> {
    items.map_values(|i: Item| i@)
}

/// The views of a list of footer sections (header, text).
pub open spec fn footer_view(footer: Seq<(String, String)>) -> Seq<(Seq<char>, Seq<char>)> {
    footer.map_values(|p: (String, String)| (p.0@, p.1@))
}

/// Immutable image of an invoice.
pub struct Invoice {
    uuid: u128,
    num: u32,
    ver: u32,
    date: Date,
    denom: Denomination,
    to: String,
    from: String,
    items: Vec<Item>,
    footer: Vec<(String, String)>,
}

impl View for Invoice {
    type V = InvoiceView;

    closed spec fn view(&self) -> InvoiceView {
        InvoiceView {
            uuid: self.uuid,
            num: self.num,
            ver: self.ver,
            date: self.date@,
            denom: self.denom,
            to: self.to@,
            from: self.from@,
            items: items_view(self.items@),
            footer: footer_view(self.footer@),
        }
    }
}

impl Invoice {
    /// A builder with no field set.
    pub fn builder() -> (b: InvoiceBuilder)
        ensures
            b@ == InvoiceBuilderView::empty(),
    {
        InvoiceBuilder {
            uuid: None,
            num: None,
            ver: None,
            date: None,
            denom: None,
            to: None,
            from: None,
            items: None,
            footer: None,
        }
    }

    /// The invoice's identifier.
    pub fn uuid(&self) -> (r: &u128)
        ensures
            *r == self@.uuid,
    {
        &self.uuid
    }

    /// The invoice number.
    pub fn num(&self) -> (r: &u32)
        ensures
            *r == self@.num,
    {
        &self.num
    }

    /// The version of this invoice.
    pub fn ver(&self) -> (r: &u32)
        ensures
            *r == self@.ver,
    {
        &self.ver
    }

    /// The date.
    pub fn date(&self) -> (r: &Date)
        ensures
            r@ == self@.date,
    {
        &self.date
    }

    /// The currency.
    pub fn denom(&self) -> (r: &Denomination)
        ensures
            *r == self@.denom,
    {
        &self.denom
    }

    /// The recipient.
    pub fn to(&self) -> (r: &String)
        ensures
            r@ == self@.to,
    {
        &self.to
    }

    /// The sender.
    pub fn from(&self) -> (r: &String)
        ensures
            r@ == self@.from,
    {
        &self.from
    }

    /// The line items.
    pub fn items(&self) -> (r: &Vec<Item>)
        ensures
            items_view(r@) == self@.items,
    {
        &self.items
    }

    /// The footer sections, as (header, text).
    pub fn footer(&self) -> (r: &Vec<(String, String)>)
        ensures
            footer_view(r@) == self@.footer,
    {
        &self.footer
    }
}

/// The abstract value of an invoice builder: which fields are set, and to
/// what.
pub struct InvoiceBuilderView {
    pub uuid: Option<u128>,
    pub num: Option<u32>,
    pub ver: Option<u32>,
    pub date: Option<DateView>,
    pub denom: Option<Denomination>,
    pub to: Option<Seq<char>>,
    pub from: Option<Seq<char>>,
    pub items: Option<Seq<ItemView>>,
    pub footer: Option<Seq<(Seq<char>, Seq<char>)>>,
}

impl InvoiceBuilderView {
    /// No field set.
    pub open spec fn empty() -> Self {
        InvoiceBuilderView {
            uuid: None,
            num: None,
            ver: None,
            date: None,
            denom: None,
            to: None,
            from: None,
            items: None,
            footer: None,
        }
    }

    /// Whether every field without a default is set.
    pub open spec fn complete(self) -> bool {
        &&& self.uuid is Some
        &&& self.num is Some
        &&& self.ver is Some
        &&& self.date is Some
        &&& self.denom is Some
        &&& self.to is Some
        &&& self.from is Some
    }

    /// The invoice that a complete builder builds; items and footer default
    /// to empty.
    pub open spec fn built(self) -> InvoiceView {
        InvoiceView {
            uuid: self.uuid->0,
            num: self.num->0,
            ver: self.ver->0,
            date: self.date->0,
            denom: self.denom->0,
            to: self.to->0,
            from: self.from->0,
            items: match self.items {
                Some(i) => i,
                None => Seq::empty(),
            },
            footer: match self.footer {
                Some(f) => f,
                None => Seq::empty(),
            },
        }
    }
}

/// Builds an [`Invoice`] field by field. Each field is set once; `uuid`,
/// `num`, `ver`, `date`, `denom`, `to` and `from` must be set before
/// `build`, while `items` and `footer` default to empty.
pub struct InvoiceBuilder {
    uuid: Option<u128>,
    num: Option<u32>,
    ver: Option<u32>,
    date: Option<Date>,
    denom: Option<Denomination>,
    to: Option<String>,
    from: Option<String>,
    items: Option<Vec<Item>>,
    footer: Option<Vec<(String, String)>>,
}

impl View for InvoiceBuilder {
    type V = InvoiceBuilderView;

    closed spec fn view(&self) -> InvoiceBuilderView {
        InvoiceBuilderView {
            uuid: self.uuid,
            num: self.num,
            ver: self.ver,
            date: match self.date {
                Some(d) => Some(d@),
                None => None,
            },
            denom: self.denom,
            to: match self.to {
                Some(s) => Some(s@),
                None => None,
            },
            from: match self.from {
                Some(s) => Some(s@),
                None => None,
            },
            items: match self.items {
                Some(v) => Some(items_view(v@)),
                None => None,
            },
            footer: match self.footer {
                Some(v) => Some(footer_view(v@)),
                None => None,
            },
        }
    }
}

impl InvoiceBuilder {
    /// Sets the identifier.
    pub fn uuid(self, uuid: u128) -> (r: Self)
        requires
            self@.uuid is None,
        ensures
            r@ == (InvoiceBuilderView { uuid: Some(uuid), ..self@ }),
    {
        InvoiceBuilder { uuid: Some(uuid), ..self }
    }

    /// Sets the identifier to a fresh version 7 UUID.
    pub fn new_uuid(self) -> (r: Self)
        requires
            self@.uuid is None,
        ensures
            r@.uuid matches Some(u) && is_version7(u),
            r@ == (InvoiceBuilderView { uuid: r@.uuid, ..self@ }),
    {
        let u = now_v7();
        self.uuid(u)
    }

    /// Sets the invoice number.
    pub fn num(self, num: u32) -> (r: Self)
        requires
            self@.num is None,
        ensures
            r@ == (InvoiceBuilderView { num: Some(num), ..self@ }),
    {
        InvoiceBuilder { num: Some(num), ..self }
    }

    /// Sets the version.
    pub fn ver(self, ver: u32) -> (r: Self)
        requires
            self@.ver is None,
        ensures
            r@ == (InvoiceBuilderView { ver: Some(ver), ..self@ }),
    {
        InvoiceBuilder { ver: Some(ver), ..self }
    }

    /// Sets the date.
    pub fn date(self, date: Date) -> (r: Self)
        requires
            self@.date is None,
        ensures
            r@ == (InvoiceBuilderView { date: Some(date@), ..self@ }),
    {
        InvoiceBuilder { date: Some(date), ..self }
    }

    /// Sets the currency.
    pub fn denom(self, denom: Denomination) -> (r: Self)
        requires
            self@.denom is None,
        ensures
            r@ == (InvoiceBuilderView { denom: Some(denom), ..self@ }),
    {
        InvoiceBuilder { denom: Some(denom), ..self }
    }

    /// Sets the recipient.
    pub fn to(self, to: String) -> (r: Self)
        requires
            self@.to is None,
        ensures
            r@ == (InvoiceBuilderView { to: Some(to@), ..self@ }),
    {
        InvoiceBuilder { to: Some(to), ..self }
    }

    /// Sets the sender.
    pub fn from(self, from: String) -> (r: Self)
        requires
            self@.from is None,
        ensures
            r@ == (InvoiceBuilderView { from: Some(from@), ..self@ }),
    {
        InvoiceBuilder { from: Some(from), ..self }
    }

    /// Sets the line items.
    pub fn items(self, items: Vec<Item>) -> (r: Self)
        requires
            self@.items is None,
        ensures
            r@ == (InvoiceBuilderView { items: Some(items_view(items@)), ..self@ }),
    {
        InvoiceBuilder { items: Some(items), ..self }
    }

    /// Sets the footer sections.
    pub fn footer(self, footer: Vec<(String, String)>) -> (r: Self)
        requires
            self@.footer is None,
        ensures
            r@ == (InvoiceBuilderView { footer: Some(footer_view(footer@)), ..self@ }),
    {
        InvoiceBuilder { footer: Some(footer), ..self }
    }

    /// The invoice with the fields set so far.
    pub fn build(self) -> (inv: Invoice)
        requires
            self@.complete(),
        ensures
            inv@ == self@.built(),
    {
        let items = match self.items {
            Some(v) => v,
            None => Vec::new(),
        };
        let footer = match self.footer {
            Some(v) => v,
            None => Vec::new(),
        };
        proof {
            assert(items_view(Seq::<Item>::empty()) =~= Seq::empty());
            assert(footer_view(Seq::<(String, String)>::empty()) =~= Seq::empty());
        }
        Invoice {
            uuid: self.uuid.unwrap(),
            num: self.num.unwrap(),
            ver: self.ver.unwrap(),
            date: self.date.unwrap(),
            denom: self.denom.unwrap(),
            to: self.to.unwrap(),
            from: self.from.unwrap(),
            items,
            footer,
        }
    }
}

} // verus!
