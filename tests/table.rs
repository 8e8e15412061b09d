use campus_ledger::table::TenantTable;

fn s(text: &str) -> String {
    text.to_string()
}

#[test]
fn a_table_lists_only_the_tenants_entries() {
    let mut t: TenantTable<u32> = TenantTable::new();
    assert_eq!(t.insert(&s("north"), 10), 0);
    assert_eq!(t.insert(&s("south"), 20), 1);
    assert_eq!(t.insert(&s("north"), 30), 2);
    assert_eq!(t.list(&s("north")), vec![&10, &30]);
    assert_eq!(t.list(&s("south")), vec![&20]);
    assert!(t.list(&s("east")).is_empty());
}

#[test]
fn another_tenants_entry_reads_as_absent() {
    let mut t: TenantTable<String> = TenantTable::new();
    let id = t.insert(&s("north"), s("CS101"));
    assert_eq!(t.get(id, &s("north")), Some(&s("CS101")));
    assert_eq!(t.get(id, &s("south")), None);
    assert_eq!(t.get(id + 1, &s("north")), None);
}
