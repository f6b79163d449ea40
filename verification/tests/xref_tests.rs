use easy_pdf::cross_reference::{CrossReferenceTable, CrossReferenceTableEntry};

#[test]
fn test_cross_reference_table() {
    // setup cross reference table
    let mut bytes: Vec<u8> = b"%PDF-1.7\n".to_vec();
    let mut table = CrossReferenceTable::new();
    table.add_bytes(bytes.len());
    assert_eq!(table.num_entries(), 1);
    assert_eq!(table.total_bytes(), bytes.len());
    assert_eq!(
        table.entries()[0],
        CrossReferenceTableEntry { offset: 0, generation: 65535, in_use: false }
    );

    // add entry
    let entry = b"1234567890\n";
    table.add_entry(0, true);
    assert_eq!(table.num_entries(), 2);
    bytes.extend_from_slice(entry);
    table.add_bytes(entry.len());
    assert_eq!(
        table.entries()[1],
        CrossReferenceTableEntry { offset: 10, generation: 0, in_use: true }
    );

    // add another entry
    table.add_entry(0, true);
    assert_eq!(table.num_entries(), 3);
    bytes.extend_from_slice(entry);
    table.add_bytes(entry.len());
    assert_eq!(
        table.entries()[2],
        CrossReferenceTableEntry { offset: 21, generation: 0, in_use: true }
    );
}
