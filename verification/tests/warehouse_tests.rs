use warehouse::codec::{Address, Topology};
use warehouse::ledger::{StockError, Warehouse};
use warehouse::report::percent_tenths;

fn topo() -> Topology {
    Topology {
        zone_count: 1,
        shelves_per_zone: 10,
        sections_per_shelf: 7,
        slots_per_section: 4,
        total_capacity_units: 2800,
    }
}

fn sum_of_quantities(w: &Warehouse) -> u64 {
    w.occupied().iter().map(|r| r.quantity as u64).sum()
}

#[test]
fn decode_accepts_a_valid_token() {
    let r = topo().decode("A0141");
    assert_eq!(r, Some(Address { zone: 0, shelf: 1, section: 4, slot: 1 }));
}

#[test]
fn decode_rejects_wrong_length() {
    let t = topo();
    assert_eq!(t.decode("A014"), None);
    assert_eq!(t.decode("A01411"), None);
    assert_eq!(t.decode(""), None);
    assert_eq!(t.decode("A107"), None);
}

#[test]
fn decode_section_boundary() {
    let t = topo();
    // section digit 7 is the maximum valid value; 8 and 0 are rejected
    assert_eq!(t.decode("A1071"), Some(Address { zone: 0, shelf: 10, section: 7, slot: 1 }));
    assert_eq!(t.decode("A1081"), None);
    assert_eq!(t.decode("A1001"), None);
}

#[test]
fn decode_shelf_boundary() {
    let t = topo();
    assert_eq!(t.decode("A1011"), Some(Address { zone: 0, shelf: 10, section: 1, slot: 1 }));
    assert_eq!(t.decode("A0011"), None);
    assert_eq!(t.decode("A1111"), None);
}

#[test]
fn decode_slot_boundary() {
    let t = topo();
    assert_eq!(t.decode("A0114"), Some(Address { zone: 0, shelf: 1, section: 1, slot: 4 }));
    assert_eq!(t.decode("A0115"), None);
    assert_eq!(t.decode("A0110"), None);
}

#[test]
fn decode_zone_letter() {
    let t = topo();
    assert_eq!(t.decode("B0111"), None);
    assert_eq!(t.decode("a0111"), None);
    let wide = Topology { zone_count: 2, ..topo() };
    assert_eq!(wide.decode("B0111"), Some(Address { zone: 1, shelf: 1, section: 1, slot: 1 }));
    assert_eq!(wide.decode("C0111"), None);
}

#[test]
fn decode_rejects_non_digits() {
    let t = topo();
    assert_eq!(t.decode("AX111"), None);
    assert_eq!(t.decode("A+531"), None);
    assert_eq!(t.decode("A01x1"), None);
    assert_eq!(t.decode("A011x"), None);
}

#[test]
fn address_valid_matches_decode() {
    let w = Warehouse::new(1, 10, 7, 4, 2800);
    assert!(w.address_valid("A0141"));
    assert!(!w.address_valid("A014"));
    assert!(!w.address_valid("B0111"));
}

#[test]
fn encode_is_the_inverse_of_decode() {
    let t = topo();
    for token in ["A0141", "A1071", "A0114", "A0111"] {
        let a = t.decode(token).unwrap();
        assert_eq!(a.encode(), token);
    }
    let a = Address { zone: 1, shelf: 10, section: 2, slot: 2 };
    assert_eq!(a.encode(), "B1022");
}

#[test]
fn topology_derived_sizes() {
    let t = topo();
    assert_eq!(t.total_slots(), 280);
    assert_eq!(t.zone_capacity(), 2800);
}

#[test]
fn scenario_widget_lifecycle() {
    let mut w = Warehouse::new(1, 10, 7, 4, 2800);
    assert_eq!(w.add("Widget", 5, "A0141"), Ok(()));
    assert_eq!(w.used_capacity, 5);
    assert_eq!(w.occupied().len(), 1);
    assert_eq!(w.occupied()[0].product, "Widget");
    assert_eq!(w.occupied()[0].quantity, 5);

    // 5 + 6 = 11 > 10: rejected, state unchanged
    assert_eq!(w.add("Widget", 6, "A0141"), Err(StockError::SlotWouldOverflow { current: 5 }));
    assert_eq!(w.used_capacity, 5);

    // a different product cannot share the slot
    assert_eq!(
        w.add("Gadget", 3, "A0141"),
        Err(StockError::ProductMismatch { occupant: String::from("Widget") })
    );
    assert_eq!(w.used_capacity, 5);

    // overall fill 5/2800 = 0.2% (in tenths of a percent), zone A the same
    let rep = w.info();
    assert_eq!(rep.overall_fill_tenths, 2);
    assert_eq!(rep.zones.len(), 1);
    assert_eq!(rep.zones[0].used_units, 5);
    assert_eq!(rep.zones[0].capacity_units, 2800);
    assert_eq!(rep.zones[0].fill_tenths, 2);
    assert_eq!(rep.occupied_count, 1);
    assert_eq!(rep.empty_slots, 279);

    assert_eq!(w.remove("Widget", 5, "A0141"), Ok(()));
    assert_eq!(w.used_capacity, 0);
    assert_eq!(w.occupied().len(), 0);
    assert_eq!(w.empty_slots(), 280);
}

#[test]
fn get_reads_the_slot_store() {
    let mut w = Warehouse::new(1, 10, 7, 4, 2800);
    let a = w.topology.decode("A0141").unwrap();
    assert!(w.get(a).is_none());
    assert_eq!(w.add("Widget", 5, "A0141"), Ok(()));
    let rec = w.get(a).unwrap();
    assert_eq!(rec.address, a);
    assert_eq!(rec.product, "Widget");
    assert_eq!(rec.quantity, 5);
}

#[test]
fn four_character_scenario_token_is_rejected() {
    let mut w = Warehouse::new(1, 10, 7, 4, 2800);
    assert_eq!(w.add("Widget", 5, "A014"), Err(StockError::InvalidAddress));
    assert_eq!(w.used_capacity, 0);
}

#[test]
fn round_trip_returns_slot_to_empty() {
    let mut w = Warehouse::new(2, 10, 7, 4, 5600);
    assert_eq!(w.add("Bolts", 7, "B0321"), Ok(()));
    let used_before = w.used_capacity;
    let count_before = w.occupied().len();
    assert_eq!(w.add("Nuts", 9, "A0111"), Ok(()));
    assert_eq!(w.remove("Nuts", 9, "A0111"), Ok(()));
    assert_eq!(w.used_capacity, used_before);
    assert_eq!(w.occupied().len(), count_before);
    assert_eq!(w.occupied()[0].product, "Bolts");
}

#[test]
fn counter_always_equals_sum_of_quantities() {
    let mut w = Warehouse::new(1, 10, 7, 4, 2800);
    let _ = w.add("A", 5, "A0111");
    let _ = w.add("B", 10, "A0112");
    let _ = w.add("A", 3, "A0111");
    let _ = w.remove("B", 4, "A0112");
    let _ = w.add("C", 11, "A0113"); // rejected
    let _ = w.remove("A", 8, "A0111"); // empties the slot
    assert_eq!(w.used_capacity as u64, sum_of_quantities(&w));
    for r in w.occupied().iter() {
        assert!(1 <= r.quantity && r.quantity <= 10);
    }
}

#[test]
fn rejected_operations_leave_state_unchanged() {
    let mut w = Warehouse::new(1, 10, 7, 4, 2800);
    assert_eq!(w.add("Widget", 5, "A0141"), Ok(()));
    let used = w.used_capacity;
    let snapshot: Vec<(Address, String, u32)> = w
        .occupied()
        .iter()
        .map(|r| (r.address, r.product.clone(), r.quantity))
        .collect();

    assert!(w.add("Widget", 5, "A01F1").is_err()); // invalid address
    assert!(w.add("Widget", 11, "A0142").is_err()); // over slot capacity
    assert!(w.add("Gadget", 1, "A0141").is_err()); // product mismatch
    assert!(w.add("Widget", 6, "A0141").is_err()); // would overflow
    assert!(w.remove("Widget", 1, "A0142").is_err()); // empty slot
    assert!(w.remove("Gadget", 1, "A0141").is_err()); // product mismatch
    assert!(w.remove("Widget", 6, "A0141").is_err()); // insufficient stock

    assert_eq!(w.used_capacity, used);
    let after: Vec<(Address, String, u32)> = w
        .occupied()
        .iter()
        .map(|r| (r.address, r.product.clone(), r.quantity))
        .collect();
    assert_eq!(snapshot, after);
}

#[test]
fn every_error_variant_is_reachable() {
    let mut w = Warehouse::new(1, 10, 7, 4, 2800);
    assert_eq!(w.add("P", 1, "zzzzz"), Err(StockError::InvalidAddress));
    assert_eq!(w.add("P", 11, "A0111"), Err(StockError::RequestExceedsSlotCapacity));
    assert_eq!(w.add("P", 10, "A0111"), Ok(()));
    assert_eq!(
        w.add("Q", 1, "A0111"),
        Err(StockError::ProductMismatch { occupant: String::from("P") })
    );
    assert_eq!(w.add("P", 1, "A0111"), Err(StockError::SlotWouldOverflow { current: 10 }));
    assert_eq!(w.remove("P", 1, "A0112"), Err(StockError::EmptySlot));
    assert_eq!(
        w.remove("Q", 1, "A0111"),
        Err(StockError::ProductMismatch { occupant: String::from("P") })
    );
    assert_eq!(
        w.remove("P", 11, "A0111"),
        Err(StockError::InsufficientStock { available: 10 })
    );
    assert_eq!(w.remove("P", 10, "A0111"), Ok(()));
}

#[test]
fn partial_stock_out_keeps_record() {
    let mut w = Warehouse::new(1, 10, 7, 4, 2800);
    assert_eq!(w.add("Cogs", 9, "A0221"), Ok(()));
    assert_eq!(w.remove("Cogs", 4, "A0221"), Ok(()));
    assert_eq!(w.occupied().len(), 1);
    assert_eq!(w.occupied()[0].quantity, 5);
    assert_eq!(w.used_capacity, 5);
}

#[test]
fn same_product_accumulates() {
    let mut w = Warehouse::new(1, 10, 7, 4, 2800);
    assert_eq!(w.add("Cogs", 4, "A0221"), Ok(()));
    assert_eq!(w.add("Cogs", 3, "A0221"), Ok(()));
    assert_eq!(w.occupied().len(), 1);
    assert_eq!(w.occupied()[0].quantity, 7);
    assert_eq!(w.used_capacity, 7);
}

#[test]
fn per_zone_report_scans_all_zones() {
    let mut w = Warehouse::new(3, 2, 2, 2, 240);
    assert_eq!(w.add("Kit", 8, "B0121"), Ok(()));
    assert_eq!(w.add("Kit", 2, "B0122"), Ok(()));
    assert_eq!(w.add("Jar", 4, "C0211"), Ok(()));
    let rep = w.info();
    assert_eq!(rep.zones.len(), 3);
    // zone capacity: 2 * 2 * 2 * 10 = 80 units
    assert_eq!(rep.zones[0].capacity_units, 80);
    assert_eq!(rep.zones[0].used_units, 0);
    assert_eq!(rep.zones[0].fill_tenths, 0);
    assert_eq!(rep.zones[1].used_units, 10);
    // 10/80 = 12.5% -> 125 tenths
    assert_eq!(rep.zones[1].fill_tenths, 125);
    assert_eq!(rep.zones[2].used_units, 4);
    // 4/80 = 5.0%
    assert_eq!(rep.zones[2].fill_tenths, 50);
    // overall: 14/240 = 5.83..% -> 58 tenths
    assert_eq!(rep.overall_fill_tenths, 58);
    assert_eq!(rep.occupied_count, 3);
    assert_eq!(rep.empty_slots, 24 - 3);
}

#[test]
fn fresh_warehouse_reports_all_empty() {
    let w = Warehouse::new(1, 10, 7, 4, 2800);
    let rep = w.info();
    assert_eq!(rep.overall_fill_tenths, 0);
    assert_eq!(rep.zones.len(), 1);
    assert_eq!(rep.zones[0].fill_tenths, 0);
    assert_eq!(rep.occupied_count, 0);
    assert_eq!(rep.empty_slots, 280);
}

#[test]
fn percent_tenths_rounds_to_nearest() {
    assert_eq!(percent_tenths(5, 2800), 2); // 0.178..% -> 0.2%
    assert_eq!(percent_tenths(0, 2800), 0);
    assert_eq!(percent_tenths(2800, 2800), 1000); // 100.0%
    assert_eq!(percent_tenths(1, 400), 3); // 0.25% -> 0.3% (halves up)
    assert_eq!(percent_tenths(1, 1000), 1); // 0.1%
}
