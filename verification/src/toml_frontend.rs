//! Turns an invoice document read from TOML into an [`Invoice`].
//!
//! The document arrives already deserialized, with field aliases and
//! defaults applied (see `default_quant` and `default_footer_header`); this
//! module converts its loosely typed numbers and dates, checks its items,
//! and assembles the invoice.

use vstd::prelude::*;
use crate::date::{valid_date, Date, DateView};
use crate::ids::{is_version7, now_v7};
use crate::invoice::{Denomination, Invoice, InvoiceView, Item, ItemView, PricingMethod};
use crate::codegen::{amount_text, group_thousands};
use crate::text::{
    decimal, is_digit, lemma_decimal_digits, lemma_parse_decimal, lemma_trim_digits, lemma_without_absent,
    lemma_without_append,
    all_digits, chars_of, parse_i32_chars, parse_signed32, parse_u32_chars, parse_u8_chars,
    parse_unsigned, remove_char, trim, trimmed, without,
};

verus! {

/// A number as TOML may give it: an integer, or a string such as
/// `"150,000"`.
pub enum TomlNumber {
    String(String),
    U32(u32),
}

/// The date part of a TOML datetime value.
#[derive(Debug, Clone, Copy, PartialEq, Eq, Structural)]
pub struct TomlDatePart {
    pub year: u16,
    pub month: u8,
    pub day: u8,
}

/// A date as TOML may give it: a `"YY.MM.DD"` string, or a TOML datetime,
/// which need not have a date part.
pub enum TomlDate {
    String(String),
    Datetime(Option<TomlDatePart>),
}

/// A line item of the document.
pub struct TomlItem {
    pub desc: String,
    pub quant: TomlNumber,
    pub unit_price: Option<TomlNumber>,
    pub total: Option<TomlNumber>,
}

/// A footer section of the document.
pub struct TomlFooter {
    pub header: String,
    pub text: String,
}

/// An invoice document.
pub struct TomlInvoice {
    pub num: TomlNumber,
    pub to: String,
    pub from: String,
    pub denom: Denomination,
    pub date: Option<TomlDate>,
    pub ver: TomlNumber,
    pub items: Vec<TomlItem>,
    pub footer: Vec<TomlFooter>,
}

/// Why a document does not make an invoice.
#[derive(Debug, Clone, Copy, PartialEq, Eq, Structural)]
pub enum TomlError {
    /// A number, or a part of a date, that is not an integer of its type.
    InvalidInteger,
    /// A date string that does not have three dot-separated parts.
    DateFormat,
    /// A year, month or day out of range.
    DateOutOfRange,
    /// A TOML datetime without a date.
    NoDate,
    /// An item with both a unit price and a total.
    PricedTwice,
}

/// The quantity, number and version used when the document gives none.
pub fn default_quant() -> (r: TomlNumber)
    ensures
        r == TomlNumber::U32(1),
{
    TomlNumber::U32(1)
}

/// The header of a footer section that gives none.
pub fn default_footer_header() -> (r: String)
    ensures
        r@ == "Notes"@,
{
    "Notes".to_owned()
}

// ---------------------------------------------------------------------------
// Numbers
// ---------------------------------------------------------------------------

/// The value of a number: a string is read as a `u32` once its commas and
/// surrounding whitespace are taken out.
pub open spec fn number_value(n: TomlNumber) -> Result<u32, TomlError> {
    match n {
        TomlNumber::String(s) => match parse_unsigned(trim(without(s@, ',')), 0xffff_ffff) {
            Some(v) => Ok(v as u32),
            None => Err(TomlError::InvalidInteger),
        },
        TomlNumber::U32(u) => Ok(u),
    }
}

impl TomlNumber {
    /// The number's value.
    pub fn to_u32(&self) -> (r: Result<u32, TomlError>)
        ensures
            r == number_value(*self),
    {
        match self {
            TomlNumber::String(s) => {
                let chars = chars_of(s.as_str());
                let no_commas = remove_char(&chars, ',');
                let t = trimmed(&no_commas);
                match parse_u32_chars(&t) {
                    Some(v) => Ok(v),
                    None => Err(TomlError::InvalidInteger),
                }
            },
            TomlNumber::U32(u) => Ok(*u),
        }
    }
}

// ---------------------------------------------------------------------------
// Dates
// ---------------------------------------------------------------------------

/// The index of the first `.` in `s`.
pub open spec fn find_dot(s: Seq<char>) -> Option<int>
    decreases s.len(),
{
    if s.len() == 0 {
        None
    } else if s[0] == '.' {
        Some(0)
    } else {
        match find_dot(s.drop_first()) {
            Some(i) => Some(i + 1),
            None => None,
        }
    }
}

/// What `s.splitn(3, '.')` gives when it gives three parts: the text before
/// the first dot, between the first and second, and after the second.
pub open spec fn date_parts(s: Seq<char>) -> Option<(Seq<char>, Seq<char>, Seq<char>)> {
    match find_dot(s) {
        None => None,
        Some(i) => {
            let rest = s.skip(i + 1);
            match find_dot(rest) {
                None => None,
                Some(j) => Some((s.take(i), rest.take(j), rest.skip(j + 1))),
            }
        },
    }
}

/// Whether adding 2000 to the year of a `"YY.MM.DD"` string stays within
/// `i32`; the conversion's arithmetic does not otherwise hold.
pub open spec fn year_fits(d: TomlDate) -> bool {
    match d {
        TomlDate::String(s) => match date_parts(s@) {
            Some((y, _, _)) => match parse_signed32(trim(y)) {
                Some(yv) => yv + 2000 <= i32::MAX,
                None => true,
            },
            None => true,
        },
        TomlDate::Datetime(_) => true,
    }
}

/// A checked date, or time's range error.
pub open spec fn checked_date(y: int, m: int, d: int) -> Result<DateView, TomlError> {
    if valid_date(y, m, d) {
        Ok(DateView { year: y as i32, month: m as u8, day: d as u8 })
    } else {
        Err(TomlError::DateOutOfRange)
    }
}

/// The date a document date stands for. A string is `YY.MM.DD` with a year
/// counted from 2000; each part may be surrounded by whitespace.
pub open spec fn date_value(d: TomlDate) -> Result<DateView, TomlError> {
    match d {
        TomlDate::String(s) => match date_parts(s@) {
            None => Err(TomlError::DateFormat),
            Some((y, m, dd)) => match parse_signed32(trim(y)) {
                None => Err(TomlError::InvalidInteger),
                Some(yv) => match parse_unsigned(trim(m), 0xff) {
                    None => Err(TomlError::InvalidInteger),
                    Some(mv) => match parse_unsigned(trim(dd), 0xff) {
                        None => Err(TomlError::InvalidInteger),
                        Some(dv) => checked_date(yv + 2000, mv as int, dv as int),
                    },
                },
            },
        },
        TomlDate::Datetime(None) => Err(TomlError::NoDate),
        TomlDate::Datetime(Some(p)) => checked_date(p.year as int, p.month as int, p.day as int),
    }
}

/// The position of the first `.` in `v[from..]`, or `v.len()`.
fn find_dot_from(v: &Vec<char>, from: usize) -> (r: usize)
    requires
        from <= v@.len(),
    ensures
        from <= r <= v@.len(),
        r < v@.len() ==> find_dot(v@.skip(from as int)) == Some((r - from) as int),
        r == v@.len() ==> find_dot(v@.skip(from as int)) is None,
{
    let mut i = from;
    while i < v.len() && v[i] != '.'
        invariant
            from <= i <= v@.len(),
            forall|k: int| from <= k < i ==> v@[k] != '.',
        decreases v@.len() - i,
    {
        i += 1;
    }
    proof {
        lemma_find_dot_skip(v@, from as int, i as int);
    }
    i
}

proof fn lemma_find_dot_skip(s: Seq<char>, from: int, i: int)
    requires
        0 <= from <= i <= s.len(),
        forall|k: int| from <= k < i ==> s[k] != '.',
        i < s.len() ==> s[i] == '.',
    ensures
        i < s.len() ==> find_dot(s.skip(from)) == Some(i - from),
        i == s.len() ==> find_dot(s.skip(from)) is None,
    decreases i - from,
{
    if from < i {
        assert(s.skip(from).drop_first() == s.skip(from + 1));
        lemma_find_dot_skip(s, from + 1, i);
    } else if i < s.len() {
        assert(s.skip(from)[0] == s[i]);
    } else {
        assert(s.skip(from).len() == 0);
    }
}

/// The characters `v[from..to]`.
fn slice_chars(v: &Vec<char>, from: usize, to: usize) -> (r: Vec<char>)
    requires
        from <= to <= v@.len(),
    ensures
        r@ == v@.subrange(from as int, to as int),
{
    let mut r: Vec<char> = Vec::new();
    let mut k = from;
    while k < to
        invariant
            from <= k <= to <= v@.len(),
            r@ == v@.subrange(from as int, k as int),
        decreases to - k,
    {
        r.push(v[k]);
        assert(v@.subrange(from as int, k + 1) == v@.subrange(from as int, k as int).push(
            v@[k as int],
        ));
        k += 1;
    }
    r
}

/// The date with the given parts, or the range error.
fn checked_calendar_date(year: i32, month: u8, day: u8) -> (r: Result<Date, TomlError>)
    ensures
        match checked_date(year as int, month as int, day as int) {
            Ok(v) => r matches Ok(d) && d@ == v,
            Err(e) => r == Err::<Date, TomlError>(e),
        },
{
    match Date::from_calendar_date(year, month, day) {
        Ok(d) => Ok(d),
        Err(_) => Err(TomlError::DateOutOfRange),
    }
}

impl TomlDate {
    /// The date this stands for.
    pub fn to_date(&self) -> (r: Result<Date, TomlError>)
        requires
            year_fits(*self),
        ensures
            match date_value(*self) {
                Ok(v) => r matches Ok(d) && d@ == v,
                Err(e) => r == Err::<Date, TomlError>(e),
            },
    {
        match self {
            TomlDate::String(s) => {
                let v = chars_of(s.as_str());
                let i = find_dot_from(&v, 0);
                assert(v@.skip(0) == v@);
                if i == v.len() {
                    return Err(TomlError::DateFormat);
                }
                let j = find_dot_from(&v, i + 1);
                let ghost rest = v@.skip(i + 1);
                if j == v.len() {
                    return Err(TomlError::DateFormat);
                }
                let ghost jj = (j - (i + 1)) as int;
                assert(v@.take(i as int) == v@.subrange(0, i as int));
                assert(rest.take(jj) == v@.subrange(i + 1, j as int));
                assert(rest.skip(jj + 1) == v@.subrange(j + 1, v@.len() as int));
                let year_part = trimmed(&slice_chars(&v, 0, i));
                let year = match parse_i32_chars(&year_part) {
                    Some(y) => y + 2000,
                    None => {
                        return Err(TomlError::InvalidInteger);
                    },
                };
                let month_part = trimmed(&slice_chars(&v, i + 1, j));
                let month = match parse_u8_chars(&month_part) {
                    Some(m) => m,
                    None => {
                        return Err(TomlError::InvalidInteger);
                    },
                };
                let day_part = trimmed(&slice_chars(&v, j + 1, v.len()));
                let day = match parse_u8_chars(&day_part) {
                    Some(d) => d,
                    None => {
                        return Err(TomlError::InvalidInteger);
                    },
                };
                checked_calendar_date(year, month, day)
            },
            TomlDate::Datetime(None) => Err(TomlError::NoDate),
            TomlDate::Datetime(Some(p)) => checked_calendar_date(p.year as i32, p.month, p.day),
        }
    }

    /// Whether converting this date would overflow the year.
    pub fn year_overflows(&self) -> (r: bool)
        ensures
            r == !year_fits(*self),
    {
        match self {
            TomlDate::String(s) => {
                let v = chars_of(s.as_str());
                let i = find_dot_from(&v, 0);
                assert(v@.skip(0) == v@);
                if i == v.len() {
                    return false;
                }
                let j = find_dot_from(&v, i + 1);
                if j == v.len() {
                    return false;
                }
                assert(v@.take(i as int) == v@.subrange(0, i as int));
                let year_part = trimmed(&slice_chars(&v, 0, i));
                match parse_i32_chars(&year_part) {
                    Some(y) => y > i32::MAX - 2000,
                    None => false,
                }
            },
            TomlDate::Datetime(_) => false,
        }
    }
}

// ---------------------------------------------------------------------------
// Items and the invoice
// ---------------------------------------------------------------------------

/// The item a document item stands for. The quantity is read first; an
/// item with neither price is totaled at 0, and one with both is refused.
pub open spec fn item_value(it: TomlItem) -> Result<ItemView, TomlError> {
    match number_value(it.quant) {
        Err(e) => Err(e),
        Ok(q) => match (it.unit_price, it.total) {
            (None, None) => Ok(ItemView { desc: it.desc@, quant: q, price: PricingMethod::Totaled(0) }),
            (None, Some(t)) => match number_value(t) {
                Ok(tv) => Ok(ItemView { desc: it.desc@, quant: q, price: PricingMethod::Totaled(tv) }),
                Err(e) => Err(e),
            },
            (Some(u), None) => match number_value(u) {
                Ok(uv) => Ok(ItemView { desc: it.desc@, quant: q, price: PricingMethod::UnitPrice(uv) }),
                Err(e) => Err(e),
            },
            (Some(_), Some(_)) => Err(TomlError::PricedTwice),
        },
    }
}

/// The items a list of document items stands for; the first failing item
/// gives the error.
pub open spec fn items_value(items: Seq<TomlItem>) -> Result<Seq<ItemView>, TomlError>
    decreases items.len(),
{
    if items.len() == 0 {
        Ok(Seq::empty())
    } else {
        match items_value(items.drop_last()) {
            Err(e) => Err(e),
            Ok(prev) => match item_value(items.last()) {
                Err(e) => Err(e),
                Ok(v) => Ok(prev.push(v)),
            },
        }
    }
}

/// The footer sections of a document, as (header, text).
pub open spec fn footers_value(f: Seq<TomlFooter>) -> Seq<(Seq<char>, Seq<char>)> {
    f.map_values(|x: TomlFooter| (x.header@, x.text@))
}

/// What the document's fields convert to, before an identifier and (for an
/// undated document) today's date are supplied.
pub struct ParsedFields {
    pub date: Option<DateView>,
    pub ver: u32,
    pub num: u32,
    pub items: Seq<ItemView>,
}

/// The converted fields of a document, or the first error in the order the
/// conversion meets them: date, version, number, then the items in order.
pub open spec fn parsed_fields(doc: TomlInvoice) -> Result<ParsedFields, TomlError> {
    let date: Result<Option<DateView>, TomlError> = match doc.date {
        None => Ok(None),
        Some(d) => match date_value(d) {
            Ok(v) => Ok(Some(v)),
            Err(e) => Err(e),
        },
    };
    match date {
        Err(e) => Err(e),
        Ok(dv) => match number_value(doc.ver) {
            Err(e) => Err(e),
            Ok(ver) => match number_value(doc.num) {
                Err(e) => Err(e),
                Ok(num) => match items_value(doc.items@) {
                    Err(e) => Err(e),
                    Ok(items) => Ok(ParsedFields { date: dv, ver, num, items }),
                },
            },
        },
    }
}

/// The invoice made of a document's converted fields, an identifier and
/// the date used when the document has none.
pub open spec fn assembled(p: ParsedFields, doc: TomlInvoice, uuid: u128, today: DateView) -> InvoiceView {
    InvoiceView {
        uuid,
        num: p.num,
        ver: p.ver,
        date: match p.date {
            Some(d) => d,
            None => today,
        },
        denom: doc.denom,
        to: doc.to@,
        from: doc.from@,
        items: p.items,
        footer: footers_value(doc.footer@),
    }
}

/// Whether converting the document's date, if any, keeps the year in range.
pub open spec fn doc_year_fits(doc: TomlInvoice) -> bool {
    match doc.date {
        Some(d) => year_fits(d),
        None => true,
    }
}

/// Converts the document's items.
fn convert_items(items: &Vec<TomlItem>) -> (r: Result<Vec<Item>, TomlError>)
    ensures
        match items_value(items@) {
            Ok(v) => r matches Ok(out) && crate::invoice::items_view(out@) == v,
            Err(e) => r == Err::<Vec<Item>, TomlError>(e),
        },
{
    let mut out: Vec<Item> = Vec::new();
    let mut i: usize = 0;
    while i < items.len()
        invariant
            0 <= i <= items@.len(),
            items_value(items@.take(i as int)) is Ok,
            crate::invoice::items_view(out@) == items_value(items@.take(i as int))->Ok_0,
        decreases items@.len() - i,
    {
        let it = &items[i];
        assert(items@.take(i + 1).drop_last() == items@.take(i as int));
        assert(items@.take(i + 1).last() == *it);
        let quant = match it.quant.to_u32() {
            Ok(q) => q,
            Err(e) => {
                proof {
                    lemma_items_value_prefix_err(items@, i + 1);
                }
                return Err(e);
            },
        };
        let item = match (&it.unit_price, &it.total) {
            (None, None) => Item::total(it.desc.clone(), quant, 0),
            (None, Some(t)) => match t.to_u32() {
                Ok(tv) => Item::total(it.desc.clone(), quant, tv),
                Err(e) => {
                    proof {
                        lemma_items_value_prefix_err(items@, i + 1);
                    }
                    return Err(e);
                },
            },
            (Some(u), None) => match u.to_u32() {
                Ok(uv) => Item::unit(it.desc.clone(), quant, uv),
                Err(e) => {
                    proof {
                        lemma_items_value_prefix_err(items@, i + 1);
                    }
                    return Err(e);
                },
            },
            (Some(_), Some(_)) => {
                proof {
                    lemma_items_value_prefix_err(items@, i + 1);
                }
                return Err(TomlError::PricedTwice);
            },
        };
        let ghost before = out@;
        out.push(item);
        assert(crate::invoice::items_view(out@) == crate::invoice::items_view(before).push(item@));
        i += 1;
    }
    assert(items@.take(items@.len() as int) == items@);
    Ok(out)
}

/// Once a prefix of the items fails, all of them fail with its error.
proof fn lemma_items_value_prefix_err(items: Seq<TomlItem>, j: int)
    requires
        0 <= j <= items.len(),
        items_value(items.take(j)) is Err,
    ensures
        items_value(items) == items_value(items.take(j)),
    decreases items.len() - j,
{
    if j < items.len() {
        assert(items.take(j + 1).drop_last() == items.take(j));
        lemma_items_value_prefix_err(items, j + 1);
    } else {
        assert(items.take(j) == items);
    }
}

/// Converts the footer sections.
fn convert_footers(f: &Vec<TomlFooter>) -> (r: Vec<(String, String)>)
    ensures
        crate::invoice::footer_view(r@) == footers_value(f@),
{
    let mut out: Vec<(String, String)> = Vec::new();
    let mut i: usize = 0;
    while i < f.len()
        invariant
            0 <= i <= f@.len(),
            crate::invoice::footer_view(out@) == footers_value(f@.take(i as int)),
        decreases f@.len() - i,
    {
        let ghost before = out@;
        out.push((f[i].header.clone(), f[i].text.clone()));
        assert(crate::invoice::footer_view(out@) == crate::invoice::footer_view(before).push(
            (f@[i as int].header@, f@[i as int].text@),
        ));
        assert(footers_value(f@.take(i + 1)) == footers_value(f@.take(i as int)).push(
            (f@[i as int].header@, f@[i as int].text@),
        ));
        i += 1;
    }
    assert(f@.take(f@.len() as int) == f@);
    out
}


/// The items a list of document items converts to, one by one.
proof fn lemma_items_value_each(items: Seq<TomlItem>)
    requires
        items_value(items) is Ok,
    ensures
        items_value(items)->Ok_0.len() == items.len(),
        forall|k: int|
            0 <= k < items.len() ==> item_value(#[trigger] items[k]) == Ok::<ItemView, TomlError>(
                items_value(items)->Ok_0[k],
            ),
    decreases items.len(),
{
    if items.len() > 0 {
        lemma_items_value_each(items.drop_last());
        assert forall|k: int| 0 <= k < items.len() implies item_value(#[trigger] items[k]) == Ok::<
            ItemView,
            TomlError,
        >(items_value(items)->Ok_0[k]) by {
            if k < items.len() - 1 {
                assert(items[k] == items.drop_last()[k]);
            } else {
                assert(items[k] == items.last());
            }
        }
    }
}

/// Builds the invoice a document describes, with the given identifier and
/// with `today` as its date when the document has none.
pub fn build_invoice(doc: &TomlInvoice, uuid: u128, today: &Date) -> (r: Result<Invoice, TomlError>)
    requires
        doc_year_fits(*doc),
    ensures
        match parsed_fields(*doc) {
            Ok(p) => r matches Ok(inv) && inv@ == assembled(p, *doc, uuid, today@),
            Err(e) => r == Err::<Invoice, TomlError>(e),
        },
        r matches Ok(inv) ==> inv@.uuid == uuid,
        r matches Ok(inv) ==> {
            &&& inv@.denom == doc.denom
            &&& inv@.to == doc.to@
            &&& inv@.from == doc.from@
            &&& number_value(doc.num) == Ok::<u32, TomlError>(inv@.num)
            &&& number_value(doc.ver) == Ok::<u32, TomlError>(inv@.ver)
            &&& inv@.items.len() == doc.items@.len()
            &&& forall|k: int|
                0 <= k < doc.items@.len() ==> item_value(#[trigger] doc.items@[k])
                    == Ok::<ItemView, TomlError>(inv@.items[k])
            &&& inv@.footer.len() == doc.footer@.len()
            &&& forall|k: int|
                0 <= k < doc.footer@.len() ==> #[trigger] inv@.footer[k] == (
                    doc.footer@[k].header@,
                    doc.footer@[k].text@,
                )
            &&& match doc.date {
                Some(d) => date_value(d) == Ok::<DateView, TomlError>(inv@.date),
                None => inv@.date == today@,
            }
        },
{
    let date = match &doc.date {
        Some(d) => match d.to_date() {
            Ok(v) => v,
            Err(e) => {
                return Err(e);
            },
        },
        None => today.copy(),
    };
    let ver = match doc.ver.to_u32() {
        Ok(v) => v,
        Err(e) => {
            return Err(e);
        },
    };
    let num = match doc.num.to_u32() {
        Ok(v) => v,
        Err(e) => {
            return Err(e);
        },
    };
    let items = match convert_items(&doc.items) {
        Ok(v) => v,
        Err(e) => {
            return Err(e);
        },
    };
    let footers = convert_footers(&doc.footer);
    proof {
        if let Ok(p) = parsed_fields(*doc) {
            lemma_items_value_each(doc.items@);
        }
    }
    let builder = Invoice::builder().uuid(uuid).num(num).date(date).ver(ver).denom(doc.denom).to(
        doc.to.clone(),
    ).from(doc.from.clone());
    Ok(builder.items(items).footer(footers).build())
}

/// Builds the invoice that a parsed TOML invoice document describes, with
/// a fresh version 7 identifier and, for an undated document, today's date.
pub fn parse_toml(doc: &TomlInvoice) -> (r: Result<Invoice, TomlError>)
    requires
        doc_year_fits(*doc),
    ensures
        match parsed_fields(*doc) {
            Ok(p) => r matches Ok(inv) && inv@ == assembled(p, *doc, inv@.uuid, inv@.date)
                && is_version7(inv@.uuid) && valid_date(
                inv@.date.year as int,
                inv@.date.month as int,
                inv@.date.day as int,
            ),
            Err(e) => r == Err::<Invoice, TomlError>(e),
        },
        r matches Ok(inv) ==> {
            &&& inv@.denom == doc.denom
            &&& inv@.to == doc.to@
            &&& inv@.from == doc.from@
            &&& number_value(doc.num) == Ok::<u32, TomlError>(inv@.num)
            &&& number_value(doc.ver) == Ok::<u32, TomlError>(inv@.ver)
            &&& inv@.items.len() == doc.items@.len()
            &&& forall|k: int|
                0 <= k < doc.items@.len() ==> item_value(#[trigger] doc.items@[k])
                    == Ok::<ItemView, TomlError>(inv@.items[k])
            &&& inv@.footer.len() == doc.footer@.len()
            &&& forall|k: int|
                0 <= k < doc.footer@.len() ==> #[trigger] inv@.footer[k] == (
                    doc.footer@[k].header@,
                    doc.footer@[k].text@,
                )
            &&& match doc.date {
                Some(d) => date_value(d) == Ok::<DateView, TomlError>(inv@.date),
                None => true,
            }
        },
{
    let today = crate::date::today_utc();
    let uuid = now_v7();
    let r = build_invoice(doc, uuid, &today);
    proof {
        if let Ok(p) = parsed_fields(*doc) {
            if let Some(d) = &doc.date {
                let v = date_value(*d)->Ok_0;
                assert(valid_date(v.year as int, v.month as int, v.day as int));
            }
        }
    }
    r
}

// ---------------------------------------------------------------------------
// Laws
// ---------------------------------------------------------------------------

proof fn lemma_group_thousands_without_commas(d: Seq<char>)
    requires
        all_digits(d),
    ensures
        without(group_thousands(d), ',') == d,
    decreases d.len(),
{
    if d.len() <= 3 {
        lemma_without_absent(d, ',');
    } else {
        let head = d.take(d.len() - 3);
        let tail = d.skip(d.len() - 3);
        assert(all_digits(head)) by {
            assert forall|i: int| 0 <= i < head.len() implies is_digit(#[trigger] head[i]) by {
                assert(head[i] == d[i]);
            }
        }
        assert forall|i: int| 0 <= i < tail.len() implies tail[i] != ',' by {
            assert(tail[i] == d[i + d.len() - 3]);
            assert(is_digit(d[i + d.len() - 3]));
        }
        lemma_group_thousands_without_commas(head);
        lemma_without_append(group_thousands(head) + seq![','], tail, ',');
        lemma_without_append(group_thousands(head), seq![','], ',');
        lemma_without_absent(tail, ',');
        assert(without(seq![','], ',') == Seq::<char>::empty()) by {
            let one = seq![','];
            assert(one.drop_last() == Seq::<char>::empty());
            assert(one.last() == ',');
            assert(without(one, ',') == without(one.drop_last(), ','));
            assert(without(Seq::<char>::empty(), ',') == Seq::<char>::empty());
        }
        assert(head + tail == d);
    }
}

/// An amount as the renderer prints it (`150,000`) reads back, as a string
/// number of an invoice document, as the same amount.
pub proof fn lemma_amount_reads_back(n: u32, text: String)
    requires
        text@ == amount_text(n as nat),
    ensures
        number_value(TomlNumber::String(text)) == Ok::<u32, TomlError>(n),
{
    lemma_decimal_digits(n as nat);
    lemma_group_thousands_without_commas(decimal(n as nat));
    lemma_trim_digits(decimal(n as nat));
    lemma_parse_decimal(n as nat, 0xffff_ffff);
}

} // verus!
