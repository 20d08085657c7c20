//! Tests for the catalog loader and lookups: the tab-separated format,
//! malformed rows, and graceful handling of dangling references.
use musicalist::catalog::{
    catalog_name, first_id, get_musical_url, parse_catalog, parse_catalog_line, parse_u64_dec,
};

#[test]
fn parse_u64_reads_decimal() {
    assert_eq!(parse_u64_dec(b"0"), Some(0));
    assert_eq!(parse_u64_dec(b"42"), Some(42));
    assert_eq!(parse_u64_dec(b"18446744073709551615"), Some(u64::MAX));
}

#[test]
fn parse_u64_rejects_non_numbers() {
    assert_eq!(parse_u64_dec(b""), None);
    assert_eq!(parse_u64_dec(b"12a"), None);
    assert_eq!(parse_u64_dec(b"-1"), None);
    assert_eq!(parse_u64_dec(b" 1"), None);
    // one past the largest value
    assert_eq!(parse_u64_dec(b"18446744073709551616"), None);
}

#[test]
fn line_needs_exactly_three_fields() {
    assert!(parse_catalog_line(b"1\tCats\tCats_(musical)").is_some());
    assert!(parse_catalog_line(b"no tabs at all").is_none());
    assert!(parse_catalog_line(b"1\tonly two").is_none());
    assert!(parse_catalog_line(b"1\ta\tb\tc").is_none());
    assert!(parse_catalog_line(b"x\ta\tb").is_none());
}

#[test]
fn catalog_skips_malformed_rows() {
    let data = b"1\tCats\tCats_(musical)\nbadline\n2\tEvita\tEvita_(musical)\nx\ta\tb\n\n10\tChess\tChess_(musical)\r\n";
    let catalog = parse_catalog(data);
    let ids: Vec<u64> = catalog.iter().map(|m| m.id).collect();
    assert_eq!(ids, vec![1, 2, 10]);
    assert_eq!(catalog[2].name, "Chess");
    assert_eq!(catalog[2].url, "Chess_(musical)");
}

#[test]
fn lookups_degrade_on_dangling_references() {
    let catalog = parse_catalog(b"1\tCats\tCats_(musical)\n");
    assert_eq!(catalog_name(&catalog, 1), "Cats");
    assert_eq!(catalog_name(&catalog, 99), "");
    assert_eq!(
        get_musical_url(&catalog, 1),
        "https://en.wikipedia.org/wiki/Cats_(musical)"
    );
    assert_eq!(get_musical_url(&catalog, 99), "https://en.wikipedia.org/wiki/");
}

#[test]
fn first_id_defaults_on_empty_catalog() {
    let catalog = parse_catalog(b"7\tCats\tCats_(musical)\n");
    assert_eq!(first_id(&catalog), 7);
    let empty = parse_catalog(b"");
    assert_eq!(first_id(&empty), 1);
}

#[test]
fn catalog_matches_independent_reader() {
    let data = b"1\tCats\tCats_(musical)\n2\tEvita\tEvita_(musical)\n";
    let catalog = parse_catalog(data);
    let mut reader = csv::ReaderBuilder::new()
        .delimiter(b'\t')
        .has_headers(false)
        .from_reader(&data[..]);
    let mut rows: Vec<(u64, String, String)> = Vec::new();
    for record in reader.records() {
        let record = record.unwrap();
        rows.push((
            record.get(0).unwrap().parse().unwrap(),
            record.get(1).unwrap().to_string(),
            record.get(2).unwrap().to_string(),
        ));
    }
    assert_eq!(catalog.len(), rows.len());
    for (m, (id, name, url)) in catalog.iter().zip(rows.iter()) {
        assert_eq!(m.id, *id);
        assert_eq!(&m.name, name);
        assert_eq!(&m.url, url);
    }
}
