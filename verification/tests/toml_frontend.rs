use invman::codegen::fmt_amount;
use invman::date::Date;
use invman::invoice::{Denomination, PricingMethod};
use invman::toml_frontend::{
    build_invoice, default_footer_header, default_quant, parse_toml, TomlDate, TomlDatePart,
    TomlError, TomlFooter, TomlInvoice, TomlItem, TomlNumber,
};

fn s(x: &str) -> TomlNumber {
    TomlNumber::String(x.to_string())
}

fn item(desc: &str, quant: TomlNumber, unit: Option<TomlNumber>, total: Option<TomlNumber>) -> TomlItem {
    TomlItem { desc: desc.to_string(), quant, unit_price: unit, total }
}

fn doc(date: Option<TomlDate>, items: Vec<TomlItem>) -> TomlInvoice {
    TomlInvoice {
        num: TomlNumber::U32(7),
        to: "Bob".to_string(),
        from: "Alice".to_string(),
        denom: Denomination::JPY,
        date,
        ver: default_quant(),
        items,
        footer: vec![TomlFooter { header: default_footer_header(), text: "Thanks".to_string() }],
    }
}

#[test]
fn numbers_from_strings() {
    assert_eq!(s(" 1,500 ").to_u32(), Ok(1500));
    assert_eq!(s("150,000").to_u32(), Ok(150000));
    assert_eq!(s("+7").to_u32(), Ok(7));
    assert_eq!(s("4,294,967,295").to_u32(), Ok(u32::MAX));
    assert_eq!(TomlNumber::U32(42).to_u32(), Ok(42));
}

#[test]
fn bad_numbers() {
    assert_eq!(s("abc").to_u32(), Err(TomlError::InvalidInteger));
    assert_eq!(s("-1").to_u32(), Err(TomlError::InvalidInteger));
    assert_eq!(s("").to_u32(), Err(TomlError::InvalidInteger));
    assert_eq!(s(" , ").to_u32(), Err(TomlError::InvalidInteger));
    assert_eq!(s("+").to_u32(), Err(TomlError::InvalidInteger));
    assert_eq!(s("4294967296").to_u32(), Err(TomlError::InvalidInteger));
    assert_eq!(s("1 000").to_u32(), Err(TomlError::InvalidInteger));
}

#[test]
fn printed_amounts_read_back() {
    for n in [0u32, 5, 999, 1000, 150000, 1234567, u32::MAX] {
        assert_eq!(TomlNumber::String(fmt_amount(n)).to_u32(), Ok(n));
    }
}

#[test]
fn defaults() {
    assert!(matches!(default_quant(), TomlNumber::U32(1)));
    assert_eq!(default_footer_header(), "Notes");
}

fn date_of(d: TomlDate) -> Result<(i32, u8, u8), TomlError> {
    d.to_date().map(|d| (d.year(), d.month(), d.day()))
}

#[test]
fn string_dates() {
    assert_eq!(date_of(TomlDate::String("24.03.05".to_string())), Ok((2024, 3, 5)));
    assert_eq!(date_of(TomlDate::String(" 24 . 3 . 5 ".to_string())), Ok((2024, 3, 5)));
    assert_eq!(date_of(TomlDate::String("-24.12.31".to_string())), Ok((1976, 12, 31)));
    assert_eq!(date_of(TomlDate::String("24.02.29".to_string())), Ok((2024, 2, 29)));
}

#[test]
fn bad_string_dates() {
    assert_eq!(date_of(TomlDate::String("24.03".to_string())), Err(TomlError::DateFormat));
    assert_eq!(date_of(TomlDate::String("2024-03-05".to_string())), Err(TomlError::DateFormat));
    assert_eq!(date_of(TomlDate::String("x.03.05".to_string())), Err(TomlError::InvalidInteger));
    assert_eq!(date_of(TomlDate::String("24.3.5.1".to_string())), Err(TomlError::InvalidInteger));
    assert_eq!(date_of(TomlDate::String("24.300.5".to_string())), Err(TomlError::InvalidInteger));
    assert_eq!(date_of(TomlDate::String("24.13.01".to_string())), Err(TomlError::DateOutOfRange));
    assert_eq!(date_of(TomlDate::String("23.02.29".to_string())), Err(TomlError::DateOutOfRange));
    assert_eq!(date_of(TomlDate::String("8000.1.1".to_string())), Err(TomlError::DateOutOfRange));
}

#[test]
fn datetime_dates() {
    let p = TomlDatePart { year: 2024, month: 2, day: 29 };
    assert_eq!(date_of(TomlDate::Datetime(Some(p))), Ok((2024, 2, 29)));
    let bad = TomlDatePart { year: 2024, month: 13, day: 1 };
    assert_eq!(date_of(TomlDate::Datetime(Some(bad))), Err(TomlError::DateOutOfRange));
    assert_eq!(date_of(TomlDate::Datetime(None)), Err(TomlError::NoDate));
}

#[test]
fn year_overflow_is_detected() {
    assert!(TomlDate::String("2147483000.1.1".to_string()).year_overflows());
    assert!(!TomlDate::String("24.1.1".to_string()).year_overflows());
    assert!(!TomlDate::String("2147483000.1".to_string()).year_overflows());
    assert!(!TomlDate::Datetime(None).year_overflows());
}

#[test]
fn build_invoice_converts_everything() {
    let today = Date::from_calendar_date(2025, 1, 2).unwrap();
    let d = doc(
        Some(TomlDate::String("24.03.05".to_string())),
        vec![
            item("Design", s("3"), Some(s("1,500")), None),
            item("Hosting", TomlNumber::U32(1), None, Some(s("10,000"))),
            item("Gift", default_quant(), None, None),
        ],
    );
    let inv = build_invoice(&d, 77, &today).ok().unwrap();
    assert_eq!(*inv.uuid(), 77);
    assert_eq!(*inv.num(), 7);
    assert_eq!(*inv.ver(), 1);
    assert_eq!((inv.date().year(), inv.date().month(), inv.date().day()), (2024, 3, 5));
    assert_eq!(inv.to(), "Bob");
    assert_eq!(inv.from(), "Alice");
    assert_eq!(inv.items().len(), 3);
    assert_eq!(*inv.items()[0].price(), PricingMethod::UnitPrice(1500));
    assert_eq!(*inv.items()[0].quant(), 3);
    assert_eq!(*inv.items()[1].price(), PricingMethod::Totaled(10000));
    assert_eq!(*inv.items()[2].price(), PricingMethod::Totaled(0));
    assert_eq!(*inv.items()[2].quant(), 1);
    assert_eq!(inv.footer(), &vec![("Notes".to_string(), "Thanks".to_string())]);
}

#[test]
fn undated_document_uses_today() {
    let today = Date::from_calendar_date(2025, 1, 2).unwrap();
    let inv = build_invoice(&doc(None, vec![]), 1, &today).ok().unwrap();
    assert_eq!((inv.date().year(), inv.date().month(), inv.date().day()), (2025, 1, 2));
}

#[test]
fn doubly_priced_item_is_refused() {
    let today = Date::from_calendar_date(2025, 1, 2).unwrap();
    let d = doc(None, vec![item("X", s("1"), Some(s("1")), Some(s("2")))]);
    assert_eq!(build_invoice(&d, 1, &today).err(), Some(TomlError::PricedTwice));
    let bad_quant = doc(None, vec![item("X", s("q"), Some(s("1")), Some(s("2")))]);
    assert_eq!(build_invoice(&bad_quant, 1, &today).err(), Some(TomlError::InvalidInteger));
}

#[test]
fn first_error_wins() {
    let today = Date::from_calendar_date(2025, 1, 2).unwrap();
    let mut d = doc(Some(TomlDate::Datetime(None)), vec![item("X", s("1"), Some(s("1")), Some(s("2")))]);
    d.ver = s("v");
    assert_eq!(build_invoice(&d, 1, &today).err(), Some(TomlError::NoDate));
    d.date = None;
    assert_eq!(build_invoice(&d, 1, &today).err(), Some(TomlError::InvalidInteger));
    d.ver = TomlNumber::U32(1);
    assert_eq!(build_invoice(&d, 1, &today).err(), Some(TomlError::PricedTwice));
}

#[test]
fn parse_toml_assigns_fresh_identifier() {
    let inv = parse_toml(&doc(None, vec![])).ok().unwrap();
    let u = *inv.uuid();
    assert_eq!((u >> 76) & 0xf, 7);
    assert!(inv.date().year() >= 2024);
    let dated = parse_toml(&doc(Some(TomlDate::String("24.03.05".to_string())), vec![])).ok().unwrap();
    assert_eq!(dated.date().year(), 2024);
}
