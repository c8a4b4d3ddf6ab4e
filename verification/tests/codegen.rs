use invman::codegen::{
    css, denom_symbol, escape, fmt_amount, grand_total, lines, render_invoice, RenderSettings,
};
use invman::date::Date;
use invman::invoice::{Denomination, Invoice, Item};

fn sample_invoice(items: Vec<Item>, footer: Vec<(String, String)>) -> Invoice {
    Invoice::builder()
        .uuid(7)
        .num(12)
        .ver(1)
        .date(Date::from_calendar_date(2024, 3, 5).unwrap())
        .denom(Denomination::JPY)
        .to("Bob & Co\nTokyo".to_string())
        .from("Alice <Smith>".to_string())
        .items(items)
        .footer(footer)
        .build()
}

#[test]
fn fmt_amount_groups_thousands() {
    assert_eq!(fmt_amount(150000), "150,000");
    assert_eq!(fmt_amount(0), "0");
    assert_eq!(fmt_amount(999), "999");
    assert_eq!(fmt_amount(1000), "1,000");
    assert_eq!(fmt_amount(12345678), "12,345,678");
    assert_eq!(fmt_amount(u32::MAX), "4,294,967,295");
}

#[test]
fn escape_replaces_markup_characters() {
    assert_eq!(escape("a<b>&c"), "a&lt;b&gt;&amp;c");
    assert_eq!(escape("&amp;"), "&amp;amp;");
    assert_eq!(escape("plain\ntext"), "plain\ntext");
    assert_eq!(escape(""), "");
}

#[test]
fn lines_escapes_and_breaks() {
    assert_eq!(lines("a\nb<c"), "a<br>b&lt;c");
    assert_eq!(lines("\n\n"), "<br><br>");
    assert!(!lines("x\ny\nz").contains('\n'));
}

#[test]
fn lines_is_escape_then_breaks() {
    let s = "R&D <dept>\nBuilding 2\n";
    assert_eq!(lines(s), escape(s).replace('\n', "<br>"));
}

#[test]
fn denomination_symbols() {
    assert_eq!(denom_symbol(&Denomination::JPY), "¥");
    assert_eq!(denom_symbol(&Denomination::USD), "$");
}

#[test]
fn default_render_settings() {
    let s = RenderSettings::default();
    assert_eq!(s.font_family, "Times New Roman, Times, serif");
    assert_eq!(s.font_size_pt, 14);
    assert_eq!(s.margin_mm, 12);
}

#[test]
fn css_carries_the_settings() {
    let s = RenderSettings { font_family: "Noto Serif".to_string(), font_size_pt: 11, margin_mm: 20 };
    let c = css(&s);
    assert!(c.starts_with(":root {\n    --font: Noto Serif;\n    --size: 11pt;\n    --margin: 20mm;\n}\n"));
    assert!(c.ends_with(".footer-section .text { white-space: pre-wrap; }"));
    assert!(c.contains("@page { size: A4; margin: var(--margin); }"));
}

#[test]
fn grand_total_sums_line_totals() {
    let inv = sample_invoice(
        vec![Item::unit("Design".to_string(), 3, 1500), Item::total("Hosting".to_string(), 1, 10000)],
        vec![],
    );
    assert_eq!(grand_total(&inv), Some(14500));
    let empty = sample_invoice(vec![], vec![]);
    assert_eq!(grand_total(&empty), Some(0));
}

#[test]
fn grand_total_detects_overflow() {
    let inv = sample_invoice(vec![Item::unit("Many".to_string(), u32::MAX, 2)], vec![]);
    assert_eq!(grand_total(&inv), None);
    let inv2 = sample_invoice(
        vec![Item::total("A".to_string(), 1, u32::MAX), Item::total("B".to_string(), 1, 1)],
        vec![],
    );
    assert_eq!(grand_total(&inv2), None);
}

#[test]
fn render_invoice_rows_and_total() {
    let inv = sample_invoice(
        vec![Item::unit("Design <v2>".to_string(), 3, 1500), Item::total("Hosting".to_string(), 2, 10000)],
        vec![("Bank".to_string(), "Acct 1 & 2".to_string())],
    );
    let html = render_invoice(&inv, &RenderSettings::default());
    assert!(html.starts_with("<!DOCTYPE html>\n<html lang=\"en\">\n<head>\n<meta charset=\"UTF-8\">\n<style>\n:root {"));
    assert!(html.ends_with("</div>\n</body>\n</html>"));
    assert!(html.contains("<span>#&nbsp;12</span>\n    <span>2024/3/5</span>"));
    assert!(html.contains("<div>Bob &amp; Co<br>Tokyo</div>"));
    assert!(html.contains("<div>Alice &lt;Smith&gt;</div>"));
    assert!(html.contains(
        "<tr><td class=\"desc\">Design &lt;v2&gt;</td><td class=\"r\">3</td><td class=\"r\">¥1,500</td><td class=\"r\">¥4,500</td></tr>\n"
    ));
    assert!(html.contains(
        "<tr><td class=\"desc\">Hosting</td><td class=\"r\">2</td><td class=\"r\">&mdash;</td><td class=\"r\">¥10,000</td></tr>\n"
    ));
    assert!(html.contains("<td class=\"r\">¥14,500</td>"));
    assert!(html.contains(
        "<div class=\"footer\">\n<div class=\"footer-section\"><div class=\"label\">Bank</div><div class=\"text\">Acct 1 &amp; 2</div></div>\n</div>\n</div>\n</body>"
    ));
}

#[test]
fn render_invoice_without_footer() {
    let inv = sample_invoice(vec![], vec![]);
    let html = render_invoice(&inv, &RenderSettings::default());
    assert!(!html.contains("class=\"footer\""));
    assert!(html.contains("    <tbody>\n    </tbody>"));
    assert!(html.contains("<td class=\"r\">¥0</td>"));
    assert!(html.contains("  </table>\n</div>\n</body>\n</html>"));
}

#[test]
fn render_invoice_usd_and_negative_year() {
    let inv = Invoice::builder()
        .uuid(1)
        .num(1)
        .ver(1)
        .date(Date::from_calendar_date(-44, 3, 15).unwrap())
        .denom(Denomination::USD)
        .to("X".to_string())
        .from("Y".to_string())
        .build();
    let html = render_invoice(&inv, &RenderSettings::default());
    assert!(html.contains("<span>-44/3/15</span>"));
    assert!(html.contains("<td class=\"r\">$0</td>"));
}

#[test]
fn escaped_text_has_no_tags() {
    let e = escape("<script>alert('x')</script> & <b>");
    assert!(!e.contains('<') && !e.contains('>'));
    assert_eq!(e, "&lt;script&gt;alert('x')&lt;/script&gt; &amp; &lt;b&gt;");
}

fn tags(html: &str) -> Vec<String> {
    let mut out = Vec::new();
    let mut cur: Option<String> = None;
    for c in html.chars() {
        match cur.as_mut() {
            Some(t) => {
                t.push(c);
                if c == '>' {
                    out.push(cur.take().unwrap());
                }
            }
            None => {
                if c == '<' {
                    cur = Some(String::from("<"));
                }
            }
        }
    }
    out
}

#[test]
fn user_text_cannot_change_markup() {
    let a = sample_invoice(
        vec![Item::unit("Design".to_string(), 3, 1500), Item::total("Hosting".to_string(), 2, 10000)],
        vec![("Bank".to_string(), "Acct".to_string())],
    );
    let b = Invoice::builder()
        .uuid(8)
        .num(12)
        .ver(5)
        .date(Date::from_calendar_date(2024, 3, 5).unwrap())
        .denom(Denomination::JPY)
        .to("<b>x</b>\n<i>".to_string())
        .from("</div><script>".to_string())
        .items(vec![
            Item::unit("<td>evil</td>".to_string(), 3, 1500),
            Item::total("a > b & c < d".to_string(), 2, 10000),
        ])
        .footer(vec![("</div>".to_string(), "<br>\n<p>".to_string())])
        .build();
    let s = RenderSettings::default();
    assert_eq!(tags(&render_invoice(&a, &s)), tags(&render_invoice(&b, &s)));
}

#[test]
fn escaping_can_be_undone() {
    for s in ["", "plain", "a<b>&c", "&amp;&lt;&gt;", "&&<<>>", "x&lt;y", "日本 & <>"] {
        let e = escape(s);
        let back = e.replace("&lt;", "<").replace("&gt;", ">").replace("&amp;", "&");
        assert_eq!(back, s);
    }
    assert_ne!(escape("&lt;"), escape("<"));
}
