use invman::invoice::{Denomination, Invoice};
use invman::date::Date;
use invman::records::{file_name, load_dir, record_uuid_of};
use invman::saves::savables::{Footer, Party, Savable, SavableKind};
use invman::saves::toml_save::Storage;
use invman::saving::savables as sv;
use invman::saving::toml_save::{Storage as Store2, Stores};

const U1: u128 = 0x0190a8f2_3c4d_7e5f_8a6b_1c2d3e4f5a6b;
const T1: &str = "0190a8f2-3c4d-7e5f-8a6b-1c2d3e4f5a6b";

#[test]
fn file_names() {
    assert_eq!(file_name(U1), format!("{T1}.toml"));
    assert_eq!(file_name(0), "00000000-0000-0000-0000-000000000000.toml");
    assert_eq!(file_name(u128::MAX), "ffffffff-ffff-ffff-ffff-ffffffffffff.toml");
}

#[test]
fn saved_file_names_are_records_of_their_uuid() {
    for u in [0u128, 1, U1, u128::MAX, 0xdead_beef << 64] {
        assert_eq!(record_uuid_of(&file_name(u)), Some(u));
    }
}

#[test]
fn record_names() {
    assert_eq!(record_uuid_of(&format!("{T1}.toml")), Some(U1));
    assert_eq!(record_uuid_of(&format!("{T1}.txt")), None);
    assert_eq!(record_uuid_of(&format!("{T1}.toml.bak")), None);
    assert_eq!(record_uuid_of(".toml"), None);
    assert_eq!(record_uuid_of("notes.toml"), None);
    assert_eq!(record_uuid_of(T1), None);
    assert_eq!(record_uuid_of(""), None);
    assert_eq!(record_uuid_of("0190A8F23C4D7E5F8A6B1C2D3E4F5A6B.toml"), Some(U1));
    assert_eq!(record_uuid_of(&format!("{{{T1}}}.toml")), Some(U1));
    assert_eq!(record_uuid_of("not-a-uuid.toml"), None);
}

#[test]
fn loading_a_folder() {
    let a = format!("{T1}.toml");
    let entries = vec![
        (a.clone(), Some(1u32)),
        ("readme.md".to_string(), Some(2u32)),
        (format!("{}.toml", "00000000-0000-0000-0000-000000000005"), None),
        (a.clone(), Some(3u32)),
        (format!("{}.toml", "00000000-0000-0000-0000-000000000009"), Some(4u32)),
    ];
    let m = load_dir(entries);
    assert_eq!(m.len(), 2);
    assert_eq!(m.get(&U1), Some(&3));
    assert_eq!(m.get(&9), Some(&4));
    assert_eq!(m.get(&5), None);
}

fn invoice(uuid: u128) -> Invoice {
    Invoice::builder()
        .uuid(uuid)
        .num(1)
        .ver(1)
        .date(Date::from_calendar_date(2024, 1, 1).unwrap())
        .denom(Denomination::JPY)
        .to("t".to_string())
        .from("f".to_string())
        .build()
}

#[test]
fn savable_kinds() {
    assert_eq!(SavableKind::Party.to_string(), "party");
    assert_eq!(SavableKind::Footer.to_string(), "footer");
    let p = Party { uuid: 3, name_id: "bob".to_string(), content: "Bob\nTokyo".to_string() };
    assert_eq!(Savable::uuid(&p), 3);
    assert_eq!(p.group(), SavableKind::Party);
    let f = Footer::new(4, "Bank".to_string(), "Acct".to_string());
    assert_eq!(Savable::uuid(&f), 4);
    assert_eq!(f.group(), SavableKind::Footer);
    assert_eq!(f.header(), "Bank");
    assert_eq!(f.text(), "Acct");
}

#[test]
fn storage_saves_and_looks_up() {
    let mut st = Storage::new(
        "db".to_string(),
        vec![(format!("{}.toml", "00000000-0000-0000-0000-000000000004"), Some(Footer::new(4, "Old".to_string(), "x".to_string())))],
        vec![],
        vec![],
    );
    assert_eq!(st.db(), "db");
    assert_eq!(st.footer(&4).map(|f| f.header().clone()), Some("Old".to_string()));
    st.save_footer(Footer::new(4, "New".to_string(), "y".to_string()));
    st.save_party(Party { uuid: 4, name_id: "p".to_string(), content: String::new() });
    st.save_invoice(invoice(8));
    assert_eq!(st.footer(&4).map(|f| f.header().clone()), Some("New".to_string()));
    assert_eq!(st.party(&4).map(|p| p.name_id.clone()), Some("p".to_string()));
    assert_eq!(st.invoice(&8).map(|i| *i.uuid()), Some(8));
    assert!(st.invoice(&4).is_none());
    assert!(st.party(&8).is_none());
}

#[test]
fn generic_store_saves_and_loads() {
    let mut st = Store2::new("db".to_string(), vec![], vec![], vec![]);
    st.save(sv::Footer::new(1, "H".to_string(), "T".to_string()));
    st.save(sv::Party { uuid: 2, name_id: "n".to_string(), content: "c".to_string() });
    st.save(invoice(3));
    let f: Option<&sv::Footer> = st.load(1);
    assert_eq!(f.map(|f| f.header().clone()), Some("H".to_string()));
    let p: Option<&sv::Party> = st.load(2);
    assert_eq!(p.map(|p| p.content.clone()), Some("c".to_string()));
    let i: Option<&Invoice> = st.load(3);
    assert_eq!(i.map(|i| *i.uuid()), Some(3));
    let none: Option<&sv::Party> = st.load(1);
    assert!(none.is_none());
    assert_eq!(Store2::footers_folder(), "footers");
    assert_eq!(Storage::footers_folder(), "fields");
}

#[test]
fn skipped_entries_change_nothing() {
    let a = format!("{T1}.toml");
    let b = "00000000-0000-0000-0000-000000000009.toml".to_string();
    let plain = vec![(a.clone(), Some(1u32)), (b.clone(), Some(2u32))];
    let noisy = vec![
        ("notes.txt".to_string(), Some(7u32)),
        (a.clone(), Some(1u32)),
        (format!("{T1}.toml"), None),
        ("bad.toml".to_string(), Some(8u32)),
        (b.clone(), Some(2u32)),
        (".toml".to_string(), Some(9u32)),
    ];
    assert_eq!(load_dir(plain), load_dir(noisy));
}

#[test]
fn never_stored_ids_are_absent() {
    let mut st = Storage::new(
        "db".to_string(),
        vec![
            ("00000000-0000-0000-0000-000000000004.toml".to_string(), Some(Footer::new(4, "A".to_string(), "b".to_string()))),
            ("00000000-0000-0000-0000-000000000006.toml".to_string(), None),
        ],
        vec![],
        vec![],
    );
    st.save_footer(Footer::new(5, "C".to_string(), "d".to_string()));
    assert!(st.footer(&6).is_none());
    assert!(st.footer(&7).is_none());
    assert!(st.party(&4).is_none());
    let mut st2 = Store2::new("db".to_string(), vec![], vec![], vec![]);
    st2.save(sv::Party { uuid: 2, name_id: "n".to_string(), content: String::new() });
    let none: Option<&sv::Party> = st2.load(3);
    assert!(none.is_none());
}
