use invman::date::{Date, DateError};
use invman::invoice::{Denomination, Invoice, Item, PricingMethod};

#[test]
fn item_constructors() {
    let u = Item::unit("Design".to_string(), 3, 1500);
    assert_eq!(u.desc(), "Design");
    assert_eq!(*u.quant(), 3);
    assert_eq!(*u.price(), PricingMethod::UnitPrice(1500));
    let t = Item::total("Hosting".to_string(), 2, 10000);
    assert_eq!(*t.price(), PricingMethod::Totaled(10000));
    assert_eq!(*t.quant(), 2);
}

#[test]
fn builder_sets_fields_and_defaults() {
    let inv = Invoice::builder()
        .uuid(99)
        .num(4)
        .ver(2)
        .date(Date::from_calendar_date(2023, 12, 31).unwrap())
        .denom(Denomination::USD)
        .to("To".to_string())
        .from("From".to_string())
        .build();
    assert_eq!(*inv.uuid(), 99);
    assert_eq!(*inv.num(), 4);
    assert_eq!(*inv.ver(), 2);
    assert_eq!(inv.date().year(), 2023);
    assert_eq!(inv.date().month(), 12);
    assert_eq!(inv.date().day(), 31);
    assert_eq!(*inv.denom(), Denomination::USD);
    assert_eq!(inv.to(), "To");
    assert_eq!(inv.from(), "From");
    assert!(inv.items().is_empty());
    assert!(inv.footer().is_empty());
}

#[test]
fn new_uuid_is_version_7() {
    let inv = Invoice::builder()
        .new_uuid()
        .num(1)
        .ver(1)
        .date(Date::from_calendar_date(2024, 1, 1).unwrap())
        .denom(Denomination::JPY)
        .to("a".to_string())
        .from("b".to_string())
        .build();
    let u = *inv.uuid();
    assert_eq!((u >> 76) & 0xf, 7);
    assert_eq!((u >> 62) & 0x3, 2);
}

#[test]
fn calendar_dates() {
    assert!(Date::from_calendar_date(2024, 2, 29).is_ok());
    assert_eq!(Date::from_calendar_date(2023, 2, 29).err(), Some(DateError::ComponentRange));
    assert_eq!(Date::from_calendar_date(2000, 2, 29).map(|d| d.day()).ok(), Some(29));
    assert!(Date::from_calendar_date(1900, 2, 29).is_err());
    assert!(Date::from_calendar_date(2024, 4, 31).is_err());
    assert!(Date::from_calendar_date(2024, 13, 1).is_err());
    assert!(Date::from_calendar_date(2024, 0, 1).is_err());
    assert!(Date::from_calendar_date(2024, 1, 0).is_err());
    assert!(Date::from_calendar_date(9999, 12, 31).is_ok());
    assert!(Date::from_calendar_date(10000, 1, 1).is_err());
    assert!(Date::from_calendar_date(-9999, 1, 1).is_ok());
    assert!(Date::from_calendar_date(-10000, 1, 1).is_err());
}
