//! Renders an invoice as a standalone HTML page.
//!
//! Every piece of the page is stated as a spec function over the invoice's
//! view, and `render_invoice` is proved to produce exactly the page that
//! `rendered_page` describes.

use vstd::prelude::*;
use crate::date::DateView;
use crate::invoice::{Denomination, Invoice, InvoiceView, Item, ItemView, PricingMethod};
use crate::text::{
    chars_of, decimal, decimal_chars, push_char, push_chars, push_decimal,
    push_signed_decimal, push_str, signed_decimal,
};

verus! {

/// How the page is laid out.
pub struct RenderSettings {
    pub font_family: String,
    pub font_size_pt: u32,
    pub margin_mm: u32,
}

impl Default for RenderSettings {
    fn default() -> (r: Self)
        ensures
            r.font_family@ == "Times New Roman, Times, serif"@,
            r.font_size_pt == 14,
            r.margin_mm == 12,
    {
        Self { font_family: "Times New Roman, Times, serif".to_owned(), font_size_pt: 14, margin_mm: 12 }
    }
}

// ---------------------------------------------------------------------------
// What the page is
// ---------------------------------------------------------------------------

/// The style sheet up to the font family.
pub open spec fn piece_css_a() -> Seq<char> {
    r#":root {
    --font: "#@
}

/// The style sheet between the font family and the font size.
pub open spec fn piece_css_b() -> Seq<char> {
    r#";
    --size: "#@
}

/// The style sheet between the font size and the margin.
pub open spec fn piece_css_c() -> Seq<char> {
    r#"pt;
    --margin: "#@
}

/// The rest of the style sheet, after the margin.
pub open spec fn piece_css_d() -> Seq<char> {
    r#"mm;
}
@page { size: A4; margin: var(--margin); }
* { box-sizing: border-box; margin: 0; padding: 0; }
body { font-family: var(--font); font-size: var(--size); }
.invoice { width: 210mm; min-height: 277mm; padding: var(--margin); }
h1 { font-size: 1.5em; margin-bottom: 0.5em; letter-spacing: 0.05em; }
.meta { display: flex; justify-content: space-between; margin-bottom: 2em; }
.parties { display: grid; grid-template-columns: 1fr 1fr; gap: 2em; margin-bottom: 2em; }
.label { font-weight: bold; margin-bottom: 0.3em; }
table { width: 100%; border-collapse: collapse; margin-bottom: 1.5em; }
thead th { border-bottom: 1pt solid black; padding-bottom: 0.3em; text-align: left; }
td { padding: 0.4em 0; }
td.desc { word-break: break-word; width: 55%; }
td.r { white-space: nowrap; }
.r { text-align: right; }
.total-row td { border-top: 1pt solid black; font-weight: bold; padding-top: 0.3em; }
.footer { margin-top: 2em; }
.footer-section { margin-top: 1em; }
.footer-section .label { margin-bottom: 0.2em; }
.footer-section .text { white-space: pre-wrap; }"#@
}

/// The page up to the style sheet.
pub open spec fn piece_page_head() -> Seq<char> {
    r#"<!DOCTYPE html>
<html lang="en">
<head>
<meta charset="UTF-8">
<style>
"#@
}

/// The page between the style sheet and the invoice number.
pub open spec fn piece_page_after_css() -> Seq<char> {
    r#"
</style>
</head>
<body>
<div class="invoice">
  <h1>Invoice</h1>
  <div class="meta">
    <span>#&nbsp;"#@
}

/// The page between the invoice number and the date.
pub open spec fn piece_page_after_num() -> Seq<char> {
    r#"</span>
    <span>"#@
}

/// The page between the date and the recipient.
pub open spec fn piece_page_after_date() -> Seq<char> {
    r#"</span>
  </div>
  <div class="parties">
    <div>
      <div class="label">To</div>
      <div>"#@
}

/// The page between the recipient and the sender.
pub open spec fn piece_page_after_to() -> Seq<char> {
    r#"</div>
    </div>
    <div>
      <div class="label">From</div>
      <div>"#@
}

/// The page between the sender and the item rows: the table head.
pub open spec fn piece_page_after_from() -> Seq<char> {
    r#"</div>
    </div>
  </div>
  <table>
    <thead>
      <tr>
        <th class="desc">Description</th>
        <th class="r">Qty</th>
        <th class="r">Unit Price</th>
        <th class="r">Total</th>
      </tr>
    </thead>
    <tbody>
"#@
}

/// The page between the item rows and the total amount.
pub open spec fn piece_page_after_rows() -> Seq<char> {
    r#"    </tbody>
    <tfoot>
      <tr class="total-row">
        <td colspan="3">Total</td>
        <td class="r">"#@
}

/// The page between the total amount and the footer.
pub open spec fn piece_page_after_total() -> Seq<char> {
    r#"</td>
      </tr>
    </tfoot>
  </table>
"#@
}

/// The end of the page.
pub open spec fn piece_page_end() -> Seq<char> {
    r#"</div>
</body>
</html>"#@
}

/// The start of an item row, up to the description.
pub open spec fn piece_row_a() -> Seq<char> {
    r#"<tr><td class="desc">"#@
}

/// What stands between two cells of an item row.
pub open spec fn piece_row_b() -> Seq<char> {
    r#"</td><td class="r">"#@
}

/// The end of an item row.
pub open spec fn piece_row_end() -> Seq<char> {
    r#"</td></tr>
"#@
}

/// The unit-price cell of a totaled item.
pub open spec fn piece_dash() -> Seq<char> {
    r#"&mdash;"#@
}

/// The start of the footer block.
pub open spec fn piece_footer_open() -> Seq<char> {
    r#"<div class="footer">
"#@
}

/// The end of the footer block.
pub open spec fn piece_footer_close() -> Seq<char> {
    r#"</div>
"#@
}

/// The start of a footer section, up to its header.
pub open spec fn piece_section_a() -> Seq<char> {
    r#"<div class="footer-section"><div class="label">"#@
}

/// What stands between a footer section's header and its text.
pub open spec fn piece_section_b() -> Seq<char> {
    r#"</div><div class="text">"#@
}

/// The end of a footer section.
pub open spec fn piece_section_end() -> Seq<char> {
    r#"</div></div>
"#@
}


/// The currency sign printed before amounts.
pub open spec fn symbol_of(d: Denomination) -> Seq<char> {
    match d {
        Denomination::JPY => "¥"@,
        Denomination::USD => "$"@,
    }
}

/// `digits` with a comma before each group of three, counted from the
/// right: `150000` becomes `150,000`.
pub open spec fn group_thousands(digits: Seq<char>) -> Seq<char>
    decreases digits.len(),
{
    if digits.len() <= 3 {
        digits
    } else {
        group_thousands(digits.take(digits.len() - 3)) + seq![','] + digits.skip(
            digits.len() - 3,
        )
    }
}

/// How an amount is printed: its decimal digits grouped by thousands.
pub open spec fn amount_text(n: nat) -> Seq<char> {
    group_thousands(decimal(n))
}

/// The HTML text of one character: `&`, `<` and `>` become entities.
pub open spec fn escape_char(c: char) -> Seq<char> {
    if c == '&' {
        "&amp;"@
    } else if c == '<' {
        "&lt;"@
    } else if c == '>' {
        "&gt;"@
    } else {
        seq![c]
    }
}

/// `s` with `&`, `<` and `>` replaced by their entities.
pub open spec fn escaped(s: Seq<char>) -> Seq<char>
    decreases s.len(),
{
    if s.len() == 0 {
        Seq::empty()
    } else {
        escaped(s.drop_last()) + escape_char(s.last())
    }
}

/// The HTML text of one character in a multi-line block: a newline becomes
/// `<br>`, anything else is escaped.
pub open spec fn line_char(c: char) -> Seq<char> {
    if c == '\n' {
        "<br>"@
    } else {
        escape_char(c)
    }
}

/// `s` escaped, with its newlines turned into `<br>`.
pub open spec fn as_lines(s: Seq<char>) -> Seq<char>
    decreases s.len(),
{
    if s.len() == 0 {
        Seq::empty()
    } else {
        as_lines(s.drop_last()) + line_char(s.last())
    }
}

/// `s` with every newline replaced by `<br>`.
pub open spec fn breaks(s: Seq<char>) -> Seq<char>
    decreases s.len(),
{
    if s.len() == 0 {
        Seq::empty()
    } else if s.last() == '\n' {
        breaks(s.drop_last()) + "<br>"@
    } else {
        breaks(s.drop_last()).push(s.last())
    }
}

/// The style sheet for the given settings.
pub open spec fn style_sheet(font: Seq<char>, size: u32, margin: u32) -> Seq<char> {
    piece_css_a() + font + piece_css_b() + decimal(size as nat) + piece_css_c() + decimal(
        margin as nat,
    ) + piece_css_d()
}

/// What a line item adds to the invoice total.
pub open spec fn line_total(it: ItemView) -> int {
    match it.price {
        PricingMethod::UnitPrice(u) => it.quant * u,
        PricingMethod::Totaled(t) => t as int,
    }
}

/// The sum of the line totals.
pub open spec fn items_total(items: Seq<ItemView>) -> int
    decreases items.len(),
{
    if items.len() == 0 {
        0
    } else {
        items_total(items.drop_last()) + line_total(items.last())
    }
}

/// The unit-price cell of a row: the price for unit-priced items, a dash for
/// totaled ones.
pub open spec fn unit_cell(it: ItemView, sym: Seq<char>) -> Seq<char> {
    match it.price {
        PricingMethod::UnitPrice(u) => sym + amount_text(u as nat),
        PricingMethod::Totaled(_) => piece_dash(),
    }
}

/// The table row of one item.
pub open spec fn item_row(it: ItemView, sym: Seq<char>) -> Seq<char> {
    piece_row_a() + escaped(it.desc) + piece_row_b() + decimal(it.quant as nat) + piece_row_b()
        + unit_cell(it, sym) + piece_row_b() + sym + amount_text(line_total(it) as nat)
        + piece_row_end()
}

/// The table rows of the items, in order.
pub open spec fn item_rows(items: Seq<ItemView>, sym: Seq<char>) -> Seq<char>
    decreases items.len(),
{
    if items.len() == 0 {
        Seq::empty()
    } else {
        item_rows(items.drop_last(), sym) + item_row(items.last(), sym)
    }
}

/// One footer section.
pub open spec fn footer_section(header: Seq<char>, text: Seq<char>) -> Seq<char> {
    piece_section_a() + escaped(header) + piece_section_b() + escaped(text) + piece_section_end()
}

/// The footer sections, in order.
pub open spec fn footer_sections(f: Seq<(Seq<char>, Seq<char>)>) -> Seq<char>
    decreases f.len(),
{
    if f.len() == 0 {
        Seq::empty()
    } else {
        footer_sections(f.drop_last()) + footer_section(f.last().0, f.last().1)
    }
}

/// The footer block; nothing when there are no sections.
pub open spec fn footer_block(f: Seq<(Seq<char>, Seq<char>)>) -> Seq<char> {
    if f.len() == 0 {
        Seq::empty()
    } else {
        piece_footer_open() + footer_sections(f) + piece_footer_close()
    }
}

/// How the date is printed: year/month/day without padding.
pub open spec fn date_text(d: DateView) -> Seq<char> {
    signed_decimal(d.year as int) + seq!['/'] + decimal(d.month as nat) + seq!['/'] + decimal(
        d.day as nat,
    )
}

/// The whole page for an invoice.
pub open spec fn rendered_page(inv: InvoiceView, font: Seq<char>, size: u32, margin: u32) -> Seq<
    char,
> {
    let sym = symbol_of(inv.denom);
    piece_page_head() + style_sheet(font, size, margin) + piece_page_after_css() + decimal(
        inv.num as nat,
    ) + piece_page_after_num() + date_text(inv.date) + piece_page_after_date() + as_lines(inv.to)
        + piece_page_after_to() + as_lines(inv.from) + piece_page_after_from() + item_rows(
        inv.items,
        sym,
    ) + piece_page_after_rows() + sym + amount_text(items_total(inv.items) as nat)
        + piece_page_after_total() + footer_block(inv.footer) + piece_page_end()
}

// ---------------------------------------------------------------------------
// Rendering
// ---------------------------------------------------------------------------

/// The currency sign of a denomination.
pub fn denom_symbol(denom: &Denomination) -> (s: &'static str)
    ensures
        s@ == symbol_of(*denom),
{
    match denom {
        Denomination::JPY => "¥",
        Denomination::USD => "$",
    }
}

/// Appends `group_thousands(d[..end])`.
fn push_grouped(out: &mut String, d: &Vec<char>, end: usize)
    requires
        end <= d@.len(),
    ensures
        final(out)@ == old(out)@ + group_thousands(d@.take(end as int)),
    decreases end,
{
    let ghost t = d@.take(end as int);
    if end <= 3 {
        push_chars(out, d, 0, end);
        assert(d@.subrange(0, end as int) == t);
    } else {
        push_grouped(out, d, end - 3);
        push_char(out, ',');
        push_chars(out, d, end - 3, end);
        assert(t.take(t.len() - 3) == d@.take(end - 3));
        assert(t.skip(t.len() - 3) == d@.subrange(end - 3, end as int));
        assert(old(out)@ + group_thousands(t) == old(out)@ + group_thousands(d@.take(end - 3))
            + seq![','] + d@.subrange(end - 3, end as int));
    }
}

/// Formats an integer with comma separators. 150000 -> "150,000".
pub fn fmt_amount(n: u32) -> (s: String)
    ensures
        s@ == amount_text(n as nat),
{
    let digits = decimal_chars(n as u64);
    let mut out = String::new();
    push_grouped(&mut out, &digits, digits.len());
    assert(digits@.take(digits@.len() as int) == digits@);
    assert(Seq::<char>::empty() + amount_text(n as nat) == amount_text(n as nat));
    out
}

/// Appends `amount_text(n)`.
fn push_amount(out: &mut String, n: u32)
    ensures
        final(out)@ == old(out)@ + amount_text(n as nat),
{
    let s = fmt_amount(n);
    push_str(out, s.as_str());
}

/// Appends the escaped form of one character.
fn push_escaped_char(out: &mut String, c: char)
    ensures
        final(out)@ == old(out)@ + escape_char(c),
{
    if c == '&' {
        push_str(out, "&amp;");
    } else if c == '<' {
        push_str(out, "&lt;");
    } else if c == '>' {
        push_str(out, "&gt;");
    } else {
        push_char(out, c);
    }
}

/// Appends `escaped(s)`.
fn push_escaped(out: &mut String, s: &str)
    ensures
        final(out)@ == old(out)@ + escaped(s@),
{
    let v = chars_of(s);
    let mut i: usize = 0;
    while i < v.len()
        invariant
            0 <= i <= v@.len(),
            v@ == s@,
            out@ == old(out)@ + escaped(v@.take(i as int)),
        decreases v@.len() - i,
    {
        assert(v@.take(i + 1).drop_last() == v@.take(i as int));
        push_escaped_char(out, v[i]);
        i += 1;
    }
    assert(v@.take(v@.len() as int) == v@);
}

/// Escapes `&`, `<` and `>` for HTML.
pub fn escape(s: &str) -> (r: String)
    ensures
        r@ == escaped(s@),
{
    let mut out = String::new();
    push_escaped(&mut out, s);
    assert(Seq::<char>::empty() + escaped(s@) == escaped(s@));
    out
}

/// Appends `as_lines(s)`.
fn push_lines(out: &mut String, s: &str)
    ensures
        final(out)@ == old(out)@ + as_lines(s@),
{
    let v = chars_of(s);
    let mut i: usize = 0;
    while i < v.len()
        invariant
            0 <= i <= v@.len(),
            v@ == s@,
            out@ == old(out)@ + as_lines(v@.take(i as int)),
        decreases v@.len() - i,
    {
        assert(v@.take(i + 1).drop_last() == v@.take(i as int));
        let c = v[i];
        if c == '\n' {
            push_str(out, "<br>");
        } else {
            push_escaped_char(out, c);
        }
        i += 1;
    }
    assert(v@.take(v@.len() as int) == v@);
}

/// Escapes HTML and converts newlines to <br> for inline display.
pub fn lines(s: &str) -> (r: String)
    ensures
        r@ == as_lines(s@),
{
    let mut out = String::new();
    push_lines(&mut out, s);
    assert(Seq::<char>::empty() + as_lines(s@) == as_lines(s@));
    out
}

/// Appends the style sheet for `s`.
fn push_css(out: &mut String, s: &RenderSettings)
    ensures
        final(out)@ == old(out)@ + style_sheet(s.font_family@, s.font_size_pt, s.margin_mm),
{
    push_str(out, r#":root {
    --font: "#);
    push_str(out, s.font_family.as_str());
    push_str(out, r#";
    --size: "#);
    push_decimal(out, s.font_size_pt as u64);
    push_str(out, r#"pt;
    --margin: "#);
    push_decimal(out, s.margin_mm as u64);
    push_str(out, r#"mm;
}
@page { size: A4; margin: var(--margin); }
* { box-sizing: border-box; margin: 0; padding: 0; }
body { font-family: var(--font); font-size: var(--size); }
.invoice { width: 210mm; min-height: 277mm; padding: var(--margin); }
h1 { font-size: 1.5em; margin-bottom: 0.5em; letter-spacing: 0.05em; }
.meta { display: flex; justify-content: space-between; margin-bottom: 2em; }
.parties { display: grid; grid-template-columns: 1fr 1fr; gap: 2em; margin-bottom: 2em; }
.label { font-weight: bold; margin-bottom: 0.3em; }
table { width: 100%; border-collapse: collapse; margin-bottom: 1.5em; }
thead th { border-bottom: 1pt solid black; padding-bottom: 0.3em; text-align: left; }
td { padding: 0.4em 0; }
td.desc { word-break: break-word; width: 55%; }
td.r { white-space: nowrap; }
.r { text-align: right; }
.total-row td { border-top: 1pt solid black; font-weight: bold; padding-top: 0.3em; }
.footer { margin-top: 2em; }
.footer-section { margin-top: 1em; }
.footer-section .label { margin-bottom: 0.2em; }
.footer-section .text { white-space: pre-wrap; }"#);
}

/// The style sheet for the given settings.
pub fn css(s: &RenderSettings) -> (r: String)
    ensures
        r@ == style_sheet(s.font_family@, s.font_size_pt, s.margin_mm),
{
    let mut out = String::new();
    push_css(&mut out, s);
    assert(Seq::<char>::empty() + style_sheet(s.font_family@, s.font_size_pt, s.margin_mm)
        == style_sheet(s.font_family@, s.font_size_pt, s.margin_mm));
    out
}

/// A prefix of the items never totals more than all of them.
pub proof fn lemma_items_total_prefix(items: Seq<ItemView>, j: int)
    requires
        0 <= j <= items.len(),
    ensures
        0 <= items_total(items.take(j)) <= items_total(items),
    decreases items.len(),
{
    if j == items.len() {
        assert(items.take(j) == items);
        lemma_items_total_nonneg(items);
    } else {
        lemma_items_total_prefix(items.drop_last(), j);
        assert(items.drop_last().take(j) == items.take(j));
        assert(line_total(items.last()) >= 0) by (nonlinear_arith)
            requires
                line_total(items.last()) == (match items.last().price {
                    PricingMethod::UnitPrice(u) => items.last().quant * u,
                    PricingMethod::Totaled(t) => t as int,
                }),
        ;
    }
}

/// Line totals, and so invoice totals, are never negative.
proof fn lemma_items_total_nonneg(items: Seq<ItemView>)
    ensures
        items_total(items) >= 0,
    decreases items.len(),
{
    if items.len() > 0 {
        lemma_items_total_nonneg(items.drop_last());
        let it = items.last();
        match it.price {
            PricingMethod::UnitPrice(u) => {
                assert(it.quant * u >= 0) by (nonlinear_arith);
            },
            PricingMethod::Totaled(_) => {},
        }
    }
}

/// The invoice total, or `None` where it does not fit in a `u32` (where
/// the renderer's arithmetic would overflow).
pub fn grand_total(invoice: &Invoice) -> (r: Option<u32>)
    ensures
        match r {
            Some(t) => t == items_total(invoice@.items),
            None => items_total(invoice@.items) > u32::MAX,
        },
{
    let items = invoice.items();
    let ghost iv = invoice@.items;
    let mut total: u32 = 0;
    let mut i: usize = 0;
    while i < items.len()
        invariant
            0 <= i <= items@.len(),
            iv == crate::invoice::items_view(items@),
            iv == invoice@.items,
            total == items_total(iv.take(i as int)),
        decreases items@.len() - i,
    {
        let item = &items[i];
        assert(iv[i as int] == item@);
        assert(iv.take(i + 1).drop_last() == iv.take(i as int));
        assert(iv.take(i + 1).last() == item@);
        let line: u64 = match item.price() {
            PricingMethod::UnitPrice(u) => {
                let q = *item.quant() as u64;
                let p = *u as u64;
                assert(q * p <= 0xffff_ffff * 0xffff_ffff) by (nonlinear_arith)
                    requires
                        q <= 0xffff_ffff,
                        p <= 0xffff_ffff,
                ;
                q * p
            },
            PricingMethod::Totaled(t) => *t as u64,
        };
        assert(line == line_total(item@));
        assert(items_total(iv.take(i + 1)) == items_total(iv.take(i as int)) + line_total(item@));
        if total as u64 + line > 0xffff_ffff {
            proof {
                lemma_items_total_prefix(iv, i + 1);
            }
            return None;
        }
        total = (total as u64 + line) as u32;
        i += 1;
    }
    assert(iv.take(iv.len() as int) == iv);
    Some(total)
}

/// Appends the row of one item and returns what it adds to the total.
fn push_item_row(out: &mut String, item: &Item, sym: &str) -> (line: u32)
    requires
        line_total(item@) <= u32::MAX,
    ensures
        line == line_total(item@),
        final(out)@ == old(out)@ + item_row(item@, sym@),
{
    let quant = *item.quant();
    let line: u32 = match item.price() {
        PricingMethod::UnitPrice(u) => quant * *u,
        PricingMethod::Totaled(t) => *t,
    };
    push_str(out, r#"<tr><td class="desc">"#);
    push_escaped(out, item.desc().as_str());
    push_str(out, r#"</td><td class="r">"#);
    push_decimal(out, quant as u64);
    push_str(out, r#"</td><td class="r">"#);
    match item.price() {
        PricingMethod::UnitPrice(u) => {
            push_str(out, sym);
            push_amount(out, *u);
        },
        PricingMethod::Totaled(_) => {
            push_str(out, r#"&mdash;"#);
        },
    }
    push_str(out, r#"</td><td class="r">"#);
    push_str(out, sym);
    push_amount(out, line);
    push_str(out, r#"</td></tr>
"#);
    line
}

/// Appends one footer section.
fn push_footer_section(out: &mut String, header: &String, text: &String)
    ensures
        final(out)@ == old(out)@ + footer_section(header@, text@),
{
    push_str(out, r#"<div class="footer-section"><div class="label">"#);
    push_escaped(out, header.as_str());
    push_str(out, r#"</div><div class="text">"#);
    push_escaped(out, text.as_str());
    push_str(out, r#"</div></div>
"#);
}

/// Appends the footer block.
fn push_footer(out: &mut String, footer: &Vec<(String, String)>)
    ensures
        final(out)@ == old(out)@ + footer_block(crate::invoice::footer_view(footer@)),
{
    let ghost fv = crate::invoice::footer_view(footer@);
    if footer.len() == 0 {
        assert(old(out)@ + footer_block(fv) == old(out)@);
        return;
    }
    push_str(out, r#"<div class="footer">
"#);
    let ghost start = out@;
    let mut i: usize = 0;
    while i < footer.len()
        invariant
            0 <= i <= footer@.len(),
            fv == crate::invoice::footer_view(footer@),
            out@ == start + footer_sections(fv.take(i as int)),
        decreases footer@.len() - i,
    {
        let (header, text) = &footer[i];
        assert(fv[i as int] == (header@, text@));
        assert(fv.take(i + 1).drop_last() == fv.take(i as int));
        push_footer_section(out, header, text);
        i += 1;
    }
    assert(fv.take(fv.len() as int) == fv);
    push_str(out, r#"</div>
"#);
}

/// Renders the invoice as a complete HTML page.
pub fn render_invoice(invoice: &Invoice, settings: &RenderSettings) -> (html: String)
    requires
        items_total(invoice@.items) <= u32::MAX,
    ensures
        html@ == rendered_page(
            invoice@,
            settings.font_family@,
            settings.font_size_pt,
            settings.margin_mm,
        ),
{
    let ghost inv = invoice@;
    let sym = denom_symbol(invoice.denom());
    let date = invoice.date();

    let mut item_rows_html = String::new();
    let mut total: u32 = 0;
    let items = invoice.items();
    let ghost iv = inv.items;
    let mut i: usize = 0;
    while i < items.len()
        invariant
            0 <= i <= items@.len(),
            iv == crate::invoice::items_view(items@),
            items_total(iv) <= u32::MAX,
            total == items_total(iv.take(i as int)),
            item_rows_html@ == item_rows(iv.take(i as int), sym@),
        decreases items@.len() - i,
    {
        let item = &items[i];
        assert(iv[i as int] == item@);
        assert(iv.take(i + 1).drop_last() == iv.take(i as int));
        assert(iv.take(i + 1).last() == item@);
        proof {
            lemma_items_total_prefix(iv, i + 1);
            lemma_items_total_prefix(iv, i as int);
        }
        let line = push_item_row(&mut item_rows_html, item, sym);
        total = total + line;
        i += 1;
    }
    assert(iv.take(iv.len() as int) == iv);

    let mut out = String::new();
    push_str(&mut out, r#"<!DOCTYPE html>
<html lang="en">
<head>
<meta charset="UTF-8">
<style>
"#);
    push_css(&mut out, settings);
    push_str(&mut out, r#"
</style>
</head>
<body>
<div class="invoice">
  <h1>Invoice</h1>
  <div class="meta">
    <span>#&nbsp;"#);
    push_decimal(&mut out, *invoice.num() as u64);
    push_str(&mut out, r#"</span>
    <span>"#);
    push_signed_decimal(&mut out, date.year() as i64);
    push_char(&mut out, '/');
    push_decimal(&mut out, date.month() as u64);
    push_char(&mut out, '/');
    push_decimal(&mut out, date.day() as u64);
    push_str(&mut out, r#"</span>
  </div>
  <div class="parties">
    <div>
      <div class="label">To</div>
      <div>"#);
    push_lines(&mut out, invoice.to().as_str());
    push_str(&mut out, r#"</div>
    </div>
    <div>
      <div class="label">From</div>
      <div>"#);
    push_lines(&mut out, invoice.from().as_str());
    push_str(&mut out, r#"</div>
    </div>
  </div>
  <table>
    <thead>
      <tr>
        <th class="desc">Description</th>
        <th class="r">Qty</th>
        <th class="r">Unit Price</th>
        <th class="r">Total</th>
      </tr>
    </thead>
    <tbody>
"#);
    push_str(&mut out, item_rows_html.as_str());
    push_str(&mut out, r#"    </tbody>
    <tfoot>
      <tr class="total-row">
        <td colspan="3">Total</td>
        <td class="r">"#);
    push_str(&mut out, sym);
    push_amount(&mut out, total);
    push_str(&mut out, r#"</td>
      </tr>
    </tfoot>
  </table>
"#);
    push_footer(&mut out, invoice.footer());
    push_str(&mut out, r#"</div>
</body>
</html>"#);
    assert(out@ =~= rendered_page(
        inv,
        settings.font_family@,
        settings.font_size_pt,
        settings.margin_mm,
    ));
    out
}

// ---------------------------------------------------------------------------
// Laws
// ---------------------------------------------------------------------------

proof fn lemma_breaks_append(a: Seq<char>, b: Seq<char>)
    ensures
        breaks(a + b) == breaks(a) + breaks(b),
    decreases b.len(),
{
    if b.len() == 0 {
        assert(a + b == a);
        assert(breaks(b) == Seq::<char>::empty());
        assert(breaks(a) + breaks(b) == breaks(a));
    } else {
        lemma_breaks_append(a, b.drop_last());
        assert((a + b).drop_last() == a + b.drop_last());
        assert((a + b).last() == b.last());
    }
}

proof fn lemma_breaks_plain(s: Seq<char>)
    requires
        forall|i: int| 0 <= i < s.len() ==> s[i] != '\n',
    ensures
        breaks(s) == s,
    decreases s.len(),
{
    if s.len() > 0 {
        lemma_breaks_plain(s.drop_last());
        assert(s.drop_last().push(s.last()) == s);
    }
}

proof fn lemma_breaks_escape_char(c: char)
    ensures
        breaks(escape_char(c)) == line_char(c),
{
    reveal_strlit("&amp;");
    reveal_strlit("&lt;");
    reveal_strlit("&gt;");
    if c == '\n' {
        let e = seq![c];
        assert(escape_char(c) == e);
        assert(e.drop_last() == Seq::<char>::empty());
        assert(e.last() == '\n');
        assert(breaks(e) == breaks(e.drop_last()) + "<br>"@);
        assert(Seq::<char>::empty() + "<br>"@ == "<br>"@);
    } else {
        lemma_breaks_plain(escape_char(c));
    }
}

/// Converting a text block for display is escaping it and then turning each
/// newline into `<br>`: `lines(s)` is `escape(s).replace('\n', "<br>")`.
pub proof fn lemma_lines_is_escape_then_breaks(s: Seq<char>)
    ensures
        as_lines(s) == breaks(escaped(s)),
    decreases s.len(),
{
    if s.len() == 0 {
        assert(escaped(s) == Seq::<char>::empty());
    } else {
        lemma_lines_is_escape_then_breaks(s.drop_last());
        lemma_breaks_append(escaped(s.drop_last()), escape_char(s.last()));
        lemma_breaks_escape_char(s.last());
    }
}

/// Escaped text holds no `<` or `>`, so it cannot open or close a tag.
pub proof fn lemma_escaped_has_no_tags(s: Seq<char>)
    ensures
        forall|i: int| 0 <= i < escaped(s).len() ==> escaped(s)[i] != '<' && escaped(s)[i] != '>',
    decreases s.len(),
{
    reveal_strlit("&amp;");
    reveal_strlit("&lt;");
    reveal_strlit("&gt;");
    if s.len() > 0 {
        lemma_escaped_has_no_tags(s.drop_last());
        let a = escaped(s.drop_last());
        let b = escape_char(s.last());
        assert forall|i: int| 0 <= i < (a + b).len() implies (a + b)[i] != '<' && (a + b)[i] != '>' by {
            if i >= a.len() {
                assert((a + b)[i] == b[i - a.len()]);
            }
        }
    }
}

/// Whether `t` begins with `p`.
pub open spec fn starts_with(t: Seq<char>, p: Seq<char>) -> bool {
    p.len() <= t.len() && t.take(p.len() as int) == p
}

/// The entity for `&`.
pub open spec fn amp_entity() -> Seq<char> {
    seq!['&', 'a', 'm', 'p', ';']
}

/// The entity for `<`.
pub open spec fn lt_entity() -> Seq<char> {
    seq!['&', 'l', 't', ';']
}

/// The entity for `>`.
pub open spec fn gt_entity() -> Seq<char> {
    seq!['&', 'g', 't', ';']
}

/// `t` with the entities `&amp;`, `&lt;` and `&gt;` read back as the
/// characters they stand for, scanning from the left.
pub open spec fn unescaped(t: Seq<char>) -> Seq<char>
    decreases t.len(),
{
    if t.len() == 0 {
        Seq::empty()
    } else if starts_with(t, amp_entity()) {
        seq!['&'] + unescaped(t.skip(5))
    } else if starts_with(t, lt_entity()) {
        seq!['<'] + unescaped(t.skip(4))
    } else if starts_with(t, gt_entity()) {
        seq!['>'] + unescaped(t.skip(4))
    } else {
        seq![t[0]] + unescaped(t.drop_first())
    }
}

proof fn lemma_escaped_append(a: Seq<char>, b: Seq<char>)
    ensures
        escaped(a + b) == escaped(a) + escaped(b),
    decreases b.len(),
{
    if b.len() == 0 {
        assert(a + b == a);
        assert(escaped(a) + escaped(b) == escaped(a));
    } else {
        lemma_escaped_append(a, b.drop_last());
        assert((a + b).drop_last() == a + b.drop_last());
        assert((a + b).last() == b.last());
    }
}

proof fn lemma_unescape_entity(c: char, t: Seq<char>)
    ensures
        unescaped(escape_char(c) + t) == seq![c] + unescaped(t),
{
    reveal_strlit("&amp;");
    reveal_strlit("&lt;");
    reveal_strlit("&gt;");
    let x = escape_char(c) + t;
    if c == '&' {
        assert(escape_char(c) =~= amp_entity());
        assert(x.take(5) =~= amp_entity());
        assert(x.skip(5) =~= t);
    } else if c == '<' {
        assert(escape_char(c) =~= lt_entity());
        assert(x[1] == 'l');
        assert(!starts_with(x, amp_entity())) by {
            if starts_with(x, amp_entity()) {
                assert(x.take(5)[1] == 'a');
            }
        }
        assert(x.take(4) =~= lt_entity());
        assert(x.skip(4) =~= t);
    } else if c == '>' {
        assert(escape_char(c) =~= gt_entity());
        assert(x[1] == 'g');
        assert(!starts_with(x, amp_entity())) by {
            if starts_with(x, amp_entity()) {
                assert(x.take(5)[1] == 'a');
            }
        }
        assert(!starts_with(x, lt_entity())) by {
            if starts_with(x, lt_entity()) {
                assert(x.take(4)[1] == 'l');
            }
        }
        assert(x.take(4) =~= gt_entity());
        assert(x.skip(4) =~= t);
    } else {
        assert(escape_char(c) == seq![c]);
        assert(x[0] == c);
        assert(!starts_with(x, amp_entity())) by {
            if starts_with(x, amp_entity()) {
                assert(x.take(5)[0] == '&');
            }
        }
        assert(!starts_with(x, lt_entity())) by {
            if starts_with(x, lt_entity()) {
                assert(x.take(4)[0] == '&');
            }
        }
        assert(!starts_with(x, gt_entity())) by {
            if starts_with(x, gt_entity()) {
                assert(x.take(4)[0] == '&');
            }
        }
        assert(x.drop_first() =~= t);
    }
}

/// Escaping can be undone exactly: reading the entities of `escape(s)`
/// back gives `s`. `&` is escaped first, so nothing is escaped twice and
/// nothing is lost.
pub proof fn lemma_unescape_escaped(s: Seq<char>)
    ensures
        unescaped(escaped(s)) == s,
    decreases s.len(),
{
    if s.len() > 0 {
        let rest = s.drop_first();
        assert(s == seq![s[0]] + rest);
        lemma_escaped_append(seq![s[0]], rest);
        let one = seq![s[0]];
        assert(one.drop_last() == Seq::<char>::empty());
        assert(one.last() == s[0]);
        assert(escaped(one) == escaped(one.drop_last()) + escape_char(one.last()));
        assert(escaped(Seq::<char>::empty()) == Seq::<char>::empty());
        assert(Seq::<char>::empty() + escape_char(s[0]) == escape_char(s[0]));
        assert(escaped(one) == escape_char(s[0]));
        lemma_unescape_entity(s[0], escaped(rest));
        lemma_unescape_escaped(rest);
    } else {
        assert(escaped(s) == Seq::<char>::empty());
    }
}

/// Different texts escape differently.
pub proof fn lemma_escape_injective(a: Seq<char>, b: Seq<char>)
    requires
        escaped(a) == escaped(b),
    ensures
        a == b,
{
    lemma_unescape_escaped(a);
    lemma_unescape_escaped(b);
}

// ---------------------------------------------------------------------------
// The page's markup
// ---------------------------------------------------------------------------

/// Whether the scan is inside a tag after reading `c`.
pub open spec fn next_inside(inside: bool, c: char) -> bool {
    if inside {
        c != '>'
    } else {
        c == '<'
    }
}

/// What `c` adds to the markup: characters from a `<` up to and including
/// the next `>` are markup, all others are text.
pub open spec fn markup_char(inside: bool, c: char) -> Seq<char> {
    if inside || c == '<' {
        seq![c]
    } else {
        Seq::empty()
    }
}

/// Whether a scan that starts in state `inside` ends inside a tag.
pub open spec fn inside_after(s: Seq<char>, inside: bool) -> bool
    decreases s.len(),
{
    if s.len() == 0 {
        inside
    } else {
        next_inside(inside_after(s.drop_last(), inside), s.last())
    }
}

/// The markup a scan that starts in state `inside` reads in `s`.
pub open spec fn markup_from(s: Seq<char>, inside: bool) -> Seq<char>
    decreases s.len(),
{
    if s.len() == 0 {
        Seq::empty()
    } else {
        markup_from(s.drop_last(), inside) + markup_char(inside_after(s.drop_last(), inside), s.last())
    }
}

/// The tags of a page, each from a `<` to the next `>`, written one after
/// another. As a tag ends at its first `>`, this gives the list of tags.
pub open spec fn markup(s: Seq<char>) -> Seq<char> {
    markup_from(s, false)
}

/// The number of newlines in `s`.
pub open spec fn newlines(s: Seq<char>) -> nat
    decreases s.len(),
{
    if s.len() == 0 {
        0
    } else {
        newlines(s.drop_last()) + if s.last() == '\n' {
            1nat
        } else {
            0nat
        }
    }
}

/// `n` line breaks.
pub open spec fn breaks_markup(n: nat) -> Seq<char>
    decreases n,
{
    if n == 0 {
        Seq::empty()
    } else {
        breaks_markup((n - 1) as nat) + seq!['<', 'b', 'r', '>']
    }
}

/// Whether two invoices agree on everything the page shows except their
/// free text: number, date, currency, each item's quantity and price, the
/// number of footer sections, and the number of lines of the recipient and
/// of the sender. Descriptions, names and footer texts may be anything.
pub open spec fn same_layout(a: InvoiceView, b: InvoiceView) -> bool {
    &&& a.num == b.num
    &&& a.date == b.date
    &&& a.denom == b.denom
    &&& a.items.len() == b.items.len()
    &&& forall|i: int|
        0 <= i < a.items.len() ==> (#[trigger] a.items[i]).quant == b.items[i].quant
            && a.items[i].price == b.items[i].price
    &&& a.footer.len() == b.footer.len()
    &&& newlines(a.to) == newlines(b.to)
    &&& newlines(a.from) == newlines(b.from)
}

/// Whether two texts read the same markup and end in the same state, from
/// either starting state.
pub open spec fn same_markup(x: Seq<char>, y: Seq<char>) -> bool {
    &&& markup_from(x, true) == markup_from(y, true)
    &&& inside_after(x, true) == inside_after(y, true)
    &&& markup_from(x, false) == markup_from(y, false)
    &&& inside_after(x, false) == inside_after(y, false)
}

proof fn lemma_markup_append(a: Seq<char>, b: Seq<char>, inside: bool)
    ensures
        markup_from(a + b, inside) == markup_from(a, inside) + markup_from(b, inside_after(a, inside)),
        inside_after(a + b, inside) == inside_after(b, inside_after(a, inside)),
    decreases b.len(),
{
    if b.len() == 0 {
        assert(a + b == a);
        assert(markup_from(a, inside) + markup_from(b, inside_after(a, inside)) == markup_from(a, inside));
    } else {
        lemma_markup_append(a, b.drop_last(), inside);
        assert((a + b).drop_last() == a + b.drop_last());
        assert((a + b).last() == b.last());
    }
}

proof fn lemma_same_markup_concat(a1: Seq<char>, a2: Seq<char>, b1: Seq<char>, b2: Seq<char>)
    requires
        same_markup(a1, a2),
        same_markup(b1, b2),
    ensures
        same_markup(a1 + b1, a2 + b2),
{
    lemma_markup_append(a1, b1, true);
    lemma_markup_append(a2, b2, true);
    lemma_markup_append(a1, b1, false);
    lemma_markup_append(a2, b2, false);
}

/// Appends a piece that is the same on both sides.
proof fn lemma_same_markup_then(a1: Seq<char>, a2: Seq<char>, b: Seq<char>)
    requires
        same_markup(a1, a2),
    ensures
        same_markup(a1 + b, a2 + b),
{
    lemma_same_markup_concat(a1, a2, b, b);
}

/// After text ending in `>`, a scan is outside any tag.
proof fn lemma_outside_after_close(s: Seq<char>, inside: bool)
    requires
        s.len() > 0,
        s.last() == '>',
    ensures
        !inside_after(s, inside),
{
}

/// Free text that reads the same markup from outside a tag may follow
/// text ending in `>`.
proof fn lemma_same_markup_text(a1: Seq<char>, a2: Seq<char>, x1: Seq<char>, x2: Seq<char>)
    requires
        same_markup(a1, a2),
        a1.len() > 0,
        a1.last() == '>',
        a2.len() > 0,
        a2.last() == '>',
        markup_from(x1, false) == markup_from(x2, false),
        inside_after(x1, false) == inside_after(x2, false),
    ensures
        same_markup(a1 + x1, a2 + x2),
{
    lemma_outside_after_close(a1, true);
    lemma_outside_after_close(a1, false);
    lemma_outside_after_close(a2, true);
    lemma_outside_after_close(a2, false);
    lemma_markup_append(a1, x1, true);
    lemma_markup_append(a2, x2, true);
    lemma_markup_append(a1, x1, false);
    lemma_markup_append(a2, x2, false);
}

/// Text without `<` or `>` read from outside a tag is no markup.
proof fn lemma_plain_text(x: Seq<char>)
    requires
        forall|i: int| 0 <= i < x.len() ==> x[i] != '<' && x[i] != '>',
    ensures
        markup_from(x, false) == Seq::<char>::empty(),
        !inside_after(x, false),
    decreases x.len(),
{
    if x.len() > 0 {
        lemma_plain_text(x.drop_last());
        assert(x.last() == x[x.len() - 1]);
    }
}

proof fn lemma_escaped_text(s: Seq<char>)
    ensures
        markup_from(escaped(s), false) == Seq::<char>::empty(),
        !inside_after(escaped(s), false),
{
    lemma_escaped_has_no_tags(s);
    lemma_plain_text(escaped(s));
}

proof fn lemma_line_char_markup(c: char)
    ensures
        markup_from(line_char(c), false) == (if c == '\n' {
            seq!['<', 'b', 'r', '>']
        } else {
            Seq::<char>::empty()
        }),
        !inside_after(line_char(c), false),
{
    reveal_strlit("<br>");
    if c == '\n' {
        let b = seq!['<', 'b', 'r', '>'];
        let b1 = seq!['<'];
        let b2 = seq!['<', 'b'];
        let b3 = seq!['<', 'b', 'r'];
        let e = Seq::<char>::empty();
        assert(line_char(c) =~= b);
        assert(b1.drop_last() =~= e && b1.last() == '<');
        assert(b2.drop_last() =~= b1 && b2.last() == 'b');
        assert(b3.drop_last() =~= b2 && b3.last() == 'r');
        assert(b.drop_last() =~= b3 && b.last() == '>');
        assert(inside_after(e, false) == false);
        assert(markup_from(e, false) == e);
        assert(inside_after(b1, false));
        assert(markup_from(b1, false) =~= b1);
        assert(inside_after(b2, false));
        assert(markup_from(b2, false) =~= b2);
        assert(inside_after(b3, false));
        assert(markup_from(b3, false) =~= b3);
        assert(markup_from(b, false) =~= b);
    } else {
        assert(escaped(seq![c]) == escape_char(c)) by {
            let one = seq![c];
            assert(one.drop_last() == Seq::<char>::empty());
            assert(one.last() == c);
            assert(escaped(one) == escaped(one.drop_last()) + escape_char(one.last()));
            assert(escaped(Seq::<char>::empty()) == Seq::<char>::empty());
            assert(Seq::<char>::empty() + escape_char(c) == escape_char(c));
        }
        lemma_escaped_text(seq![c]);
    }
}

proof fn lemma_lines_markup(s: Seq<char>)
    ensures
        markup_from(as_lines(s), false) == breaks_markup(newlines(s)),
        !inside_after(as_lines(s), false),
    decreases s.len(),
{
    if s.len() > 0 {
        lemma_lines_markup(s.drop_last());
        let a = as_lines(s.drop_last());
        lemma_markup_append(a, line_char(s.last()), false);
        lemma_line_char_markup(s.last());
        if s.last() != '\n' {
            assert(breaks_markup(newlines(s)) + Seq::<char>::empty() == breaks_markup(newlines(s)));
        }
    }
}

proof fn lemma_row_markup(it1: ItemView, it2: ItemView, sym: Seq<char>)
    requires
        it1.quant == it2.quant,
        it1.price == it2.price,
    ensures
        same_markup(item_row(it1, sym), item_row(it2, sym)),
{
    reveal_strlit(r#"<tr><td class="desc">"#);
    reveal_strlit(r#"</td><td class="r">"#);
    let a = piece_row_a();
    assert(a.last() == '>');
    lemma_escaped_text(it1.desc);
    lemma_escaped_text(it2.desc);
    lemma_same_markup_text(a, a, escaped(it1.desc), escaped(it2.desc));
    let p1 = a + escaped(it1.desc);
    let p2 = a + escaped(it2.desc);
    lemma_same_markup_then(p1, p2, piece_row_b());
    lemma_same_markup_then(p1 + piece_row_b(), p2 + piece_row_b(), decimal(it1.quant as nat));
    let q1 = p1 + piece_row_b() + decimal(it1.quant as nat);
    let q2 = p2 + piece_row_b() + decimal(it1.quant as nat);
    lemma_same_markup_then(q1, q2, piece_row_b());
    lemma_same_markup_then(q1 + piece_row_b(), q2 + piece_row_b(), unit_cell(it1, sym));
    let r1 = q1 + piece_row_b() + unit_cell(it1, sym);
    let r2 = q2 + piece_row_b() + unit_cell(it1, sym);
    lemma_same_markup_then(r1, r2, piece_row_b());
    lemma_same_markup_then(r1 + piece_row_b(), r2 + piece_row_b(), sym);
    let t1 = r1 + piece_row_b() + sym;
    let t2 = r2 + piece_row_b() + sym;
    lemma_same_markup_then(t1, t2, amount_text(line_total(it1) as nat));
    let u1 = t1 + amount_text(line_total(it1) as nat);
    let u2 = t2 + amount_text(line_total(it1) as nat);
    lemma_same_markup_then(u1, u2, piece_row_end());
    assert(unit_cell(it1, sym) == unit_cell(it2, sym));
    assert(line_total(it1) == line_total(it2));
}

proof fn lemma_rows_markup(a: Seq<ItemView>, b: Seq<ItemView>, sym: Seq<char>)
    requires
        a.len() == b.len(),
        forall|i: int| 0 <= i < a.len() ==> (#[trigger] a[i]).quant == b[i].quant && a[i].price == b[i].price,
    ensures
        same_markup(item_rows(a, sym), item_rows(b, sym)),
    decreases a.len(),
{
    if a.len() > 0 {
        lemma_rows_markup(a.drop_last(), b.drop_last(), sym);
        assert(a.last() == a[a.len() - 1]);
        assert(b.last() == b[b.len() - 1]);
        lemma_row_markup(a.last(), b.last(), sym);
        lemma_same_markup_concat(item_rows(a.drop_last(), sym), item_rows(b.drop_last(), sym), item_row(a.last(), sym), item_row(b.last(), sym));
    }
}

proof fn lemma_section_markup(h1: Seq<char>, t1: Seq<char>, h2: Seq<char>, t2: Seq<char>)
    ensures
        same_markup(footer_section(h1, t1), footer_section(h2, t2)),
{
    reveal_strlit(r#"<div class="footer-section"><div class="label">"#);
    reveal_strlit(r#"</div><div class="text">"#);
    let a = piece_section_a();
    let b = piece_section_b();
    assert(a.last() == '>');
    assert(b.last() == '>');
    lemma_escaped_text(h1);
    lemma_escaped_text(h2);
    lemma_escaped_text(t1);
    lemma_escaped_text(t2);
    lemma_same_markup_text(a, a, escaped(h1), escaped(h2));
    lemma_same_markup_then(a + escaped(h1), a + escaped(h2), b);
    let p1 = a + escaped(h1) + b;
    let p2 = a + escaped(h2) + b;
    assert(p1.last() == '>');
    assert(p2.last() == '>');
    lemma_same_markup_text(p1, p2, escaped(t1), escaped(t2));
    lemma_same_markup_then(p1 + escaped(t1), p2 + escaped(t2), piece_section_end());
}

proof fn lemma_sections_markup(a: Seq<(Seq<char>, Seq<char>)>, b: Seq<(Seq<char>, Seq<char>)>)
    requires
        a.len() == b.len(),
    ensures
        same_markup(footer_sections(a), footer_sections(b)),
    decreases a.len(),
{
    if a.len() > 0 {
        lemma_sections_markup(a.drop_last(), b.drop_last());
        lemma_section_markup(a.last().0, a.last().1, b.last().0, b.last().1);
        lemma_same_markup_concat(
            footer_sections(a.drop_last()),
            footer_sections(b.drop_last()),
            footer_section(a.last().0, a.last().1),
            footer_section(b.last().0, b.last().1),
        );
    }
}

proof fn lemma_footer_markup(a: Seq<(Seq<char>, Seq<char>)>, b: Seq<(Seq<char>, Seq<char>)>)
    requires
        a.len() == b.len(),
    ensures
        same_markup(footer_block(a), footer_block(b)),
{
    if a.len() > 0 {
        lemma_sections_markup(a, b);
        lemma_same_markup_concat(piece_footer_open(), piece_footer_open(), footer_sections(a), footer_sections(b));
        lemma_same_markup_then(piece_footer_open() + footer_sections(a), piece_footer_open() + footer_sections(b), piece_footer_close());
    }
}

proof fn lemma_items_total_same(a: Seq<ItemView>, b: Seq<ItemView>)
    requires
        a.len() == b.len(),
        forall|i: int| 0 <= i < a.len() ==> (#[trigger] a[i]).quant == b[i].quant && a[i].price == b[i].price,
    ensures
        items_total(a) == items_total(b),
    decreases a.len(),
{
    if a.len() > 0 {
        lemma_items_total_same(a.drop_last(), b.drop_last());
        assert(a.last() == a[a.len() - 1]);
        assert(b.last() == b[b.len() - 1]);
    }
}

/// Text that comes from the user (the recipient, the sender, item
/// descriptions, footer headers and texts) can never add, remove or alter
/// the page's markup: two invoices laid out alike render to pages with the
/// same tags, in the same order, whatever their free text says.
pub proof fn lemma_user_text_cannot_change_markup(
    a: InvoiceView,
    b: InvoiceView,
    font: Seq<char>,
    size: u32,
    margin: u32,
)
    requires
        same_layout(a, b),
    ensures
        markup(rendered_page(a, font, size, margin)) == markup(rendered_page(b, font, size, margin)),
{
    reveal_strlit(r#"</span>
  </div>
  <div class="parties">
    <div>
      <div class="label">To</div>
      <div>"#);
    reveal_strlit(r#"</div>
    </div>
    <div>
      <div class="label">From</div>
      <div>"#);
    let sym = symbol_of(a.denom);
    let head = piece_page_head() + style_sheet(font, size, margin) + piece_page_after_css() + decimal(
        a.num as nat,
    ) + piece_page_after_num() + date_text(a.date) + piece_page_after_date();
    assert(head.last() == '>');
    lemma_lines_markup(a.to);
    lemma_lines_markup(b.to);
    lemma_same_markup_text(head, head, as_lines(a.to), as_lines(b.to));
    let p1 = head + as_lines(a.to);
    let p2 = head + as_lines(b.to);
    lemma_same_markup_then(p1, p2, piece_page_after_to());
    assert((p1 + piece_page_after_to()).last() == '>');
    assert((p2 + piece_page_after_to()).last() == '>');
    lemma_lines_markup(a.from);
    lemma_lines_markup(b.from);
    lemma_same_markup_text(p1 + piece_page_after_to(), p2 + piece_page_after_to(), as_lines(a.from), as_lines(b.from));
    let q1 = p1 + piece_page_after_to() + as_lines(a.from);
    let q2 = p2 + piece_page_after_to() + as_lines(b.from);
    lemma_same_markup_then(q1, q2, piece_page_after_from());
    lemma_rows_markup(a.items, b.items, sym);
    lemma_same_markup_concat(q1 + piece_page_after_from(), q2 + piece_page_after_from(), item_rows(a.items, sym), item_rows(b.items, sym));
    let r1 = q1 + piece_page_after_from() + item_rows(a.items, sym);
    let r2 = q2 + piece_page_after_from() + item_rows(b.items, sym);
    lemma_items_total_same(a.items, b.items);
    let tail = piece_page_after_rows() + sym + amount_text(items_total(a.items) as nat) + piece_page_after_total();
    lemma_same_markup_then(r1, r2, piece_page_after_rows());
    lemma_same_markup_then(r1 + piece_page_after_rows(), r2 + piece_page_after_rows(), sym);
    lemma_same_markup_then(r1 + piece_page_after_rows() + sym, r2 + piece_page_after_rows() + sym, amount_text(items_total(a.items) as nat));
    let s1 = r1 + piece_page_after_rows() + sym + amount_text(items_total(a.items) as nat);
    let s2 = r2 + piece_page_after_rows() + sym + amount_text(items_total(a.items) as nat);
    lemma_same_markup_then(s1, s2, piece_page_after_total());
    lemma_footer_markup(a.footer, b.footer);
    lemma_same_markup_concat(s1 + piece_page_after_total(), s2 + piece_page_after_total(), footer_block(a.footer), footer_block(b.footer));
    lemma_same_markup_then(s1 + piece_page_after_total() + footer_block(a.footer), s2 + piece_page_after_total() + footer_block(b.footer), piece_page_end());
    assert(rendered_page(a, font, size, margin) == s1 + piece_page_after_total() + footer_block(a.footer) + piece_page_end());
    assert(rendered_page(b, font, size, margin) == s2 + piece_page_after_total() + footer_block(b.footer) + piece_page_end());
}

/// `t` with every occurrence of `p` replaced by `r`, scanning from the left
/// without overlaps, as `str::replace` does.
pub open spec fn replace_all(t: Seq<char>, p: Seq<char>, r: Seq<char>) -> Seq<char>
    decreases t.len(),
{
    if t.len() == 0 {
        Seq::empty()
    } else if p.len() > 0 && starts_with(t, p) {
        r + replace_all(t.skip(p.len() as int), p, r)
    } else {
        seq![t[0]] + replace_all(t.drop_first(), p, r)
    }
}

/// Entities read back by three replacements in a row: `&lt;`, then `&gt;`,
/// then `&amp;`.
pub open spec fn unescape_by_replacing(t: Seq<char>) -> Seq<char> {
    replace_all(
        replace_all(replace_all(t, lt_entity(), seq!['<']), gt_entity(), seq!['>']),
        amp_entity(),
        seq!['&'],
    )
}

/// A character of escaped text after `k` of the three replacements.
spec fn stage_char(k: int, c: char) -> Seq<char> {
    if c == '&' && k <= 2 {
        amp_entity()
    } else if c == '<' && k == 0 {
        lt_entity()
    } else if c == '>' && k <= 1 {
        gt_entity()
    } else {
        seq![c]
    }
}

/// Escaped text after `k` of the three replacements.
spec fn staged(s: Seq<char>, k: int) -> Seq<char>
    decreases s.len(),
{
    if s.len() == 0 {
        Seq::empty()
    } else {
        stage_char(k, s[0]) + staged(s.drop_first(), k)
    }
}

/// The pattern the `k`-th replacement looks for.
spec fn stage_pattern(k: int) -> Seq<char> {
    if k == 0 {
        lt_entity()
    } else if k == 1 {
        gt_entity()
    } else {
        amp_entity()
    }
}

/// What the `k`-th replacement puts in its place.
spec fn stage_replacement(k: int) -> Seq<char> {
    if k == 0 {
        seq!['<']
    } else if k == 1 {
        seq!['>']
    } else {
        seq!['&']
    }
}

proof fn lemma_replace_no_amp_prefix(q: Seq<char>, m: Seq<char>, p: Seq<char>, r: Seq<char>)
    requires
        p.len() > 0,
        p[0] == '&',
        forall|i: int| 0 <= i < q.len() ==> q[i] != '&',
    ensures
        replace_all(q + m, p, r) == q + replace_all(m, p, r),
    decreases q.len(),
{
    if q.len() == 0 {
        assert(q + m == m);
        assert(q + replace_all(m, p, r) == replace_all(m, p, r));
    } else {
        let t = q + m;
        assert(t[0] == q[0]);
        if starts_with(t, p) {
            assert(t.take(p.len() as int)[0] == t[0]);
        }
        assert(t.drop_first() == q.drop_first() + m);
        lemma_replace_no_amp_prefix(q.drop_first(), m, p, r);
        assert(seq![q[0]] + (q.drop_first() + replace_all(m, p, r)) == q + replace_all(m, p, r));
    }
}

proof fn lemma_stage_char(k: int, c: char, m: Seq<char>)
    requires
        0 <= k <= 2,
    ensures
        replace_all(stage_char(k, c) + m, stage_pattern(k), stage_replacement(k))
            == stage_char(k + 1, c) + replace_all(m, stage_pattern(k), stage_replacement(k)),
{
    let x = stage_char(k, c);
    let p = stage_pattern(k);
    let r = stage_replacement(k);
    let t = x + m;
    if x == p {
        assert(t.take(p.len() as int) =~= p);
        assert(t.skip(p.len() as int) =~= m);
        assert(stage_char(k + 1, c) == r);
    } else if x[0] == '&' {
        assert(x.len() >= 4);
        assert(x[1] != p[1]);
        assert(!starts_with(t, p)) by {
            if starts_with(t, p) {
                assert(t.take(p.len() as int)[1] == t[1]);
                assert(t[1] == x[1]);
            }
        }
        assert(t[0] == '&');
        assert(t.drop_first() == x.drop_first() + m);
        assert forall|i: int| 0 <= i < x.drop_first().len() implies x.drop_first()[i] != '&' by {
            assert(x.drop_first()[i] == x[i + 1]);
        }
        lemma_replace_no_amp_prefix(x.drop_first(), m, p, r);
        assert(seq!['&'] + (x.drop_first() + replace_all(m, p, r)) == x + replace_all(m, p, r));
        assert(stage_char(k + 1, c) == x);
    } else {
        assert(x == seq![c]);
        assert(c != '&');
        lemma_replace_no_amp_prefix(x, m, p, r);
        assert(stage_char(k + 1, c) == x);
    }
}

proof fn lemma_stage(s: Seq<char>, k: int)
    requires
        0 <= k <= 2,
    ensures
        replace_all(staged(s, k), stage_pattern(k), stage_replacement(k)) == staged(s, k + 1),
    decreases s.len(),
{
    if s.len() == 0 {
        assert(staged(s, k) == Seq::<char>::empty());
    } else {
        lemma_stage(s.drop_first(), k);
        lemma_stage_char(k, s[0], staged(s.drop_first(), k));
    }
}

proof fn lemma_staged_plain(s: Seq<char>)
    ensures
        staged(s, 3) == s,
    decreases s.len(),
{
    if s.len() > 0 {
        lemma_staged_plain(s.drop_first());
        assert(seq![s[0]] + s.drop_first() == s);
    }
}

proof fn lemma_staged_escaped(s: Seq<char>)
    ensures
        staged(s, 0) == escaped(s),
    decreases s.len(),
{
    reveal_strlit("&amp;");
    reveal_strlit("&lt;");
    reveal_strlit("&gt;");
    if s.len() == 0 {
        assert(escaped(s) == Seq::<char>::empty());
    } else {
        lemma_staged_escaped(s.drop_first());
        let rest = s.drop_first();
        assert(s == seq![s[0]] + rest);
        lemma_escaped_append(seq![s[0]], rest);
        let one = seq![s[0]];
        assert(one.drop_last() == Seq::<char>::empty());
        assert(one.last() == s[0]);
        assert(escaped(one) == escaped(one.drop_last()) + escape_char(one.last()));
        assert(escaped(Seq::<char>::empty()) == Seq::<char>::empty());
        assert(Seq::<char>::empty() + escape_char(s[0]) == escape_char(s[0]));
        assert(stage_char(0, s[0]) =~= escape_char(s[0]));
    }
}

/// Escaping is undone by replacing `&lt;`, then `&gt;`, then `&amp;`:
/// `escape(s).replace("&lt;", "<").replace("&gt;", ">").replace("&amp;", "&")`
/// is `s` again for every `s`.
pub proof fn lemma_escape_undone_by_replacing(s: Seq<char>)
    ensures
        unescape_by_replacing(escaped(s)) == s,
{
    lemma_staged_escaped(s);
    lemma_stage(s, 0);
    lemma_stage(s, 1);
    lemma_stage(s, 2);
    lemma_staged_plain(s);
}

// ---------------------------------------------------------------------------
// Footer sections on the page
// ---------------------------------------------------------------------------

/// Whether `part` occurs in `s` starting at position `o`.
pub open spec fn occurs_at(s: Seq<char>, part: Seq<char>, o: int) -> bool {
    &&& 0 <= o
    &&& o + part.len() <= s.len()
    &&& s.subrange(o, o + part.len()) == part
}

proof fn lemma_footer_sections_append(a: Seq<(Seq<char>, Seq<char>)>, b: Seq<(Seq<char>, Seq<char>)>)
    ensures
        footer_sections(a + b) == footer_sections(a) + footer_sections(b),
    decreases b.len(),
{
    if b.len() == 0 {
        assert(a + b == a);
        assert(footer_sections(a) + footer_sections(b) == footer_sections(a));
    } else {
        lemma_footer_sections_append(a, b.drop_last());
        assert((a + b).drop_last() == a + b.drop_last());
        assert((a + b).last() == b.last());
    }
}

proof fn lemma_footer_sections_one(x: (Seq<char>, Seq<char>))
    ensures
        footer_sections(seq![x]) == footer_section(x.0, x.1),
{
    let one = seq![x];
    assert(one.drop_last() == Seq::<(Seq<char>, Seq<char>)>::empty());
    assert(one.last() == x);
    assert(footer_sections(Seq::<(Seq<char>, Seq<char>)>::empty()) == Seq::<char>::empty());
    assert(Seq::<char>::empty() + footer_section(x.0, x.1) == footer_section(x.0, x.1));
}

proof fn lemma_section_split(f: Seq<(Seq<char>, Seq<char>)>, i: int)
    requires
        0 <= i < f.len(),
    ensures
        footer_sections(f) == footer_sections(f.take(i)) + (footer_section(f[i].0, f[i].1)
            + footer_sections(f.skip(i + 1))),
{
    assert(f == f.take(i) + (seq![f[i]] + f.skip(i + 1)));
    lemma_footer_sections_append(f.take(i), seq![f[i]] + f.skip(i + 1));
    lemma_footer_sections_append(seq![f[i]], f.skip(i + 1));
    lemma_footer_sections_one(f[i]);
}

proof fn lemma_section_before(f: Seq<(Seq<char>, Seq<char>)>, i: int, j: int)
    requires
        0 <= i < j <= f.len(),
    ensures
        footer_sections(f.take(i)).len() + footer_section(f[i].0, f[i].1).len()
            <= footer_sections(f.take(j)).len(),
{
    assert(f.take(j) == f.take(i) + (seq![f[i]] + f.subrange(i + 1, j)));
    lemma_footer_sections_append(f.take(i), seq![f[i]] + f.subrange(i + 1, j));
    lemma_footer_sections_append(seq![f[i]], f.subrange(i + 1, j));
    lemma_footer_sections_one(f[i]);
}

proof fn lemma_occurs_in_middle(a: Seq<char>, x: Seq<char>, b: Seq<char>)
    ensures
        occurs_at(a + x + b, x, a.len() as int),
{
    assert((a + x + b).subrange(a.len() as int, (a.len() + x.len()) as int) =~= x);
}

proof fn lemma_regroup(
    q: Seq<char>,
    open: Seq<char>,
    pre: Seq<char>,
    x: Seq<char>,
    post: Seq<char>,
    close: Seq<char>,
    end: Seq<char>,
)
    ensures
        q + (open + (pre + (x + post)) + close) + end == (q + open + pre) + x + (post + close
            + end),
{
    assert(q + (open + (pre + (x + post)) + close) + end =~= (q + open + pre) + x + (post + close
        + end));
}

/// The page of an invoice is what comes before the footer, the footer block,
/// and the page's end.
proof fn lemma_page_around_footer(inv: InvoiceView, font: Seq<char>, size: u32, margin: u32)
    ensures
        exists|q: Seq<char>|
            rendered_page(inv, font, size, margin) == q + footer_block(inv.footer)
                + piece_page_end(),
{
    let sym = symbol_of(inv.denom);
    let q = piece_page_head() + style_sheet(font, size, margin) + piece_page_after_css() + decimal(
        inv.num as nat,
    ) + piece_page_after_num() + date_text(inv.date) + piece_page_after_date() + as_lines(inv.to)
        + piece_page_after_to() + as_lines(inv.from) + piece_page_after_from() + item_rows(
        inv.items,
        sym,
    ) + piece_page_after_rows() + sym + amount_text(items_total(inv.items) as nat)
        + piece_page_after_total();
    assert(rendered_page(inv, font, size, margin) == q + footer_block(inv.footer) + piece_page_end());
}

/// Where footer section `i` of `f` stands on a page `q + footer_block(f) + end`.
proof fn lemma_section_on_page(
    q: Seq<char>,
    f: Seq<(Seq<char>, Seq<char>)>,
    end: Seq<char>,
    i: int,
)
    requires
        0 <= i < f.len(),
    ensures
        occurs_at(
            q + footer_block(f) + end,
            footer_section(f[i].0, f[i].1),
            (q.len() + piece_footer_open().len() + footer_sections(f.take(i)).len()) as int,
        ),
{
    lemma_section_split(f, i);
    let open = piece_footer_open();
    let pre = footer_sections(f.take(i));
    let x = footer_section(f[i].0, f[i].1);
    let post = footer_sections(f.skip(i + 1));
    assert(footer_block(f) == open + (pre + (x + post)) + piece_footer_close());
    lemma_regroup(q, open, pre, x, post, piece_footer_close(), end);
    lemma_occurs_in_middle(q + open + pre, x, post + piece_footer_close() + end);
}

/// Every footer section of an invoice appears on its page, and in the
/// invoice's order: for sections `i <= j` there are places where the two
/// occur, the `i`-th ending no later than the `j`-th begins when `i < j`.
/// No section is left out, merged or moved.
pub proof fn lemma_page_shows_every_footer_section(
    inv: InvoiceView,
    font: Seq<char>,
    size: u32,
    margin: u32,
    i: int,
    j: int,
)
    requires
        0 <= i <= j < inv.footer.len(),
    ensures
        exists|oi: int, oj: int|
            occurs_at(
                rendered_page(inv, font, size, margin),
                footer_section(inv.footer[i].0, inv.footer[i].1),
                oi,
            ) && occurs_at(
                rendered_page(inv, font, size, margin),
                footer_section(inv.footer[j].0, inv.footer[j].1),
                oj,
            ) && (i < j ==> oi + footer_section(inv.footer[i].0, inv.footer[i].1).len() <= oj),
{
    let f = inv.footer;
    lemma_page_around_footer(inv, font, size, margin);
    let q = choose|q: Seq<char>|
        rendered_page(inv, font, size, margin) == q + footer_block(f) + piece_page_end();
    lemma_section_on_page(q, f, piece_page_end(), i);
    lemma_section_on_page(q, f, piece_page_end(), j);
    let base: int = (q.len() + piece_footer_open().len()) as int;
    let oi: int = base + footer_sections(f.take(i)).len() as int;
    let oj: int = base + footer_sections(f.take(j)).len() as int;
    if i < j {
        lemma_section_before(f, i, j);
    }
    assert(occurs_at(
        rendered_page(inv, font, size, margin),
        footer_section(f[i].0, f[i].1),
        oi,
    ));
    assert(occurs_at(
        rendered_page(inv, font, size, margin),
        footer_section(f[j].0, f[j].1),
        oj,
    ));
}

// ---------------------------------------------------------------------------
// Item rows on the page
// ---------------------------------------------------------------------------

proof fn lemma_item_rows_append(a: Seq<ItemView>, b: Seq<ItemView>, sym: Seq<char>)
    ensures
        item_rows(a + b, sym) == item_rows(a, sym) + item_rows(b, sym),
    decreases b.len(),
{
    if b.len() == 0 {
        assert(a + b == a);
        assert(item_rows(a, sym) + item_rows(b, sym) == item_rows(a, sym));
    } else {
        lemma_item_rows_append(a, b.drop_last(), sym);
        assert((a + b).drop_last() == a + b.drop_last());
        assert((a + b).last() == b.last());
    }
}

proof fn lemma_item_rows_one(x: ItemView, sym: Seq<char>)
    ensures
        item_rows(seq![x], sym) == item_row(x, sym),
{
    let one = seq![x];
    assert(one.drop_last() == Seq::<ItemView>::empty());
    assert(one.last() == x);
    assert(item_rows(Seq::<ItemView>::empty(), sym) == Seq::<char>::empty());
    assert(Seq::<char>::empty() + item_row(x, sym) == item_row(x, sym));
}

proof fn lemma_row_split(items: Seq<ItemView>, sym: Seq<char>, i: int)
    requires
        0 <= i < items.len(),
    ensures
        item_rows(items, sym) == item_rows(items.take(i), sym) + (item_row(items[i], sym)
            + item_rows(items.skip(i + 1), sym)),
{
    assert(items == items.take(i) + (seq![items[i]] + items.skip(i + 1)));
    lemma_item_rows_append(items.take(i), seq![items[i]] + items.skip(i + 1), sym);
    lemma_item_rows_append(seq![items[i]], items.skip(i + 1), sym);
    lemma_item_rows_one(items[i], sym);
}

proof fn lemma_row_before(items: Seq<ItemView>, sym: Seq<char>, i: int, j: int)
    requires
        0 <= i < j <= items.len(),
    ensures
        item_rows(items.take(i), sym).len() + item_row(items[i], sym).len() <= item_rows(
            items.take(j),
            sym,
        ).len(),
{
    assert(items.take(j) == items.take(i) + (seq![items[i]] + items.subrange(i + 1, j)));
    lemma_item_rows_append(items.take(i), seq![items[i]] + items.subrange(i + 1, j), sym);
    lemma_item_rows_append(seq![items[i]], items.subrange(i + 1, j), sym);
    lemma_item_rows_one(items[i], sym);
}

/// The page of an invoice is what comes before the item rows, the rows, and
/// what comes after them.
proof fn lemma_page_around_rows(inv: InvoiceView, font: Seq<char>, size: u32, margin: u32)
    ensures
        exists|q: Seq<char>, rest: Seq<char>|
            rendered_page(inv, font, size, margin) == q + item_rows(inv.items, symbol_of(inv.denom))
                + rest,
{
    let sym = symbol_of(inv.denom);
    let q = piece_page_head() + style_sheet(font, size, margin) + piece_page_after_css() + decimal(
        inv.num as nat,
    ) + piece_page_after_num() + date_text(inv.date) + piece_page_after_date() + as_lines(inv.to)
        + piece_page_after_to() + as_lines(inv.from) + piece_page_after_from();
    let rest = piece_page_after_rows() + sym + amount_text(items_total(inv.items) as nat)
        + piece_page_after_total() + footer_block(inv.footer) + piece_page_end();
    assert(rendered_page(inv, font, size, margin) =~= q + item_rows(inv.items, sym) + rest);
}

proof fn lemma_row_on_page(q: Seq<char>, items: Seq<ItemView>, sym: Seq<char>, rest: Seq<char>, i: int)
    requires
        0 <= i < items.len(),
    ensures
        occurs_at(
            q + item_rows(items, sym) + rest,
            item_row(items[i], sym),
            (q.len() + item_rows(items.take(i), sym).len()) as int,
        ),
{
    lemma_row_split(items, sym, i);
    let pre = item_rows(items.take(i), sym);
    let x = item_row(items[i], sym);
    let post = item_rows(items.skip(i + 1), sym);
    assert(q + item_rows(items, sym) + rest =~= (q + pre) + x + (post + rest));
    lemma_occurs_in_middle(q + pre, x, post + rest);
}

/// Every item of an invoice has its row on the page, and the rows stand in
/// the invoice's order: for items `i <= j` there are places where their
/// rows occur, the `i`-th ending no later than the `j`-th begins when
/// `i < j`. No item is left out, merged or moved.
pub proof fn lemma_page_shows_every_item(
    inv: InvoiceView,
    font: Seq<char>,
    size: u32,
    margin: u32,
    i: int,
    j: int,
)
    requires
        0 <= i <= j < inv.items.len(),
    ensures
        exists|oi: int, oj: int|
            occurs_at(
                rendered_page(inv, font, size, margin),
                item_row(inv.items[i], symbol_of(inv.denom)),
                oi,
            ) && occurs_at(
                rendered_page(inv, font, size, margin),
                item_row(inv.items[j], symbol_of(inv.denom)),
                oj,
            ) && (i < j ==> oi + item_row(inv.items[i], symbol_of(inv.denom)).len() <= oj),
{
    let items = inv.items;
    let sym = symbol_of(inv.denom);
    lemma_page_around_rows(inv, font, size, margin);
    let (q, rest) = choose|q: Seq<char>, rest: Seq<char>|
        rendered_page(inv, font, size, margin) == q + item_rows(items, sym) + rest;
    lemma_row_on_page(q, items, sym, rest, i);
    lemma_row_on_page(q, items, sym, rest, j);
    let oi: int = (q.len() + item_rows(items.take(i), sym).len()) as int;
    let oj: int = (q.len() + item_rows(items.take(j), sym).len()) as int;
    if i < j {
        lemma_row_before(items, sym, i, j);
    }
    assert(occurs_at(rendered_page(inv, font, size, margin), item_row(items[i], sym), oi));
    assert(occurs_at(rendered_page(inv, font, size, margin), item_row(items[j], sym), oj));
}

/// What an item is charged: its quantity times its unit price, or its total.
pub open spec fn charged(it: ItemView) -> nat {
    match it.price {
        PricingMethod::UnitPrice(u) => (it.quant as nat) * (u as nat),
        PricingMethod::Totaled(t) => t as nat,
    }
}

/// An item's row shows its description (escaped), its quantity, and as its
/// line total the currency sign and the quantity times the unit price for a
/// unit-priced item, or the item's total for a totaled one.
pub proof fn lemma_row_shows_item(it: ItemView, sym: Seq<char>)
    ensures
        exists|o: int| #[trigger] occurs_at(item_row(it, sym), escaped(it.desc), o),
        exists|o: int| #[trigger] occurs_at(item_row(it, sym), decimal(it.quant as nat), o),
        exists|o: int|
            #[trigger] occurs_at(
                item_row(it, sym),
                sym + amount_text(charged(it)),
                o,
            ),
{
    let a = piece_row_a();
    let b = piece_row_b();
    let e = escaped(it.desc);
    let d = decimal(it.quant as nat);
    let c = unit_cell(it, sym);
    let amt = sym + amount_text(line_total(it) as nat);
    let end = piece_row_end();
    let row = item_row(it, sym);
    assert(row =~= a + e + (b + d + b + c + b + sym + amount_text(line_total(it) as nat) + end));
    lemma_occurs_in_middle(a, e, b + d + b + c + b + sym + amount_text(line_total(it) as nat) + end);
    assert(row =~= (a + e + b) + d + (b + c + b + sym + amount_text(line_total(it) as nat) + end));
    lemma_occurs_in_middle(a + e + b, d, b + c + b + sym + amount_text(line_total(it) as nat) + end);
    assert(row =~= (a + e + b + d + b + c + b) + amt + end);
    lemma_occurs_in_middle(a + e + b + d + b + c + b, amt, end);
    assert(line_total(it) as nat == charged(it)) by {
        match it.price {
            PricingMethod::UnitPrice(u) => {
                assert((it.quant as nat) * (u as nat) == it.quant * u) by (nonlinear_arith);
                assert(it.quant * u >= 0) by (nonlinear_arith);
            },
            PricingMethod::Totaled(t) => {},
        }
    }
    let o = (a + e + b + d + b + c + b).len() as int;
    assert(occurs_at(row, amt, o));
    assert(amt == sym + amount_text(charged(it)));
    assert(occurs_at(row, sym + amount_text(charged(it)), o));
}

} // verus!
