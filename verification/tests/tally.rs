use minsec::net::Addr;
use minsec::tally::{address_count_line, match_line, tally_summary, Tally};

#[test]
fn tally_counts_lines_matches_and_addresses() {
    let mut t = Tally::new();
    let six = Addr::V6(0x2001_0db8 << 96 | 1);
    for m in [
        Some(Addr::V4(0x0a00_0002)),
        None,
        Some(six),
        Some(Addr::V4(0x0a00_0001)),
        Some(Addr::V4(0x0a00_0002)),
        None,
    ] {
        t.record(m);
    }
    assert_eq!(t.lines(), 6);
    assert_eq!(t.hits(), 4);
    assert_eq!(
        t.per_address(),
        vec![(Addr::V4(0x0a00_0001), 1), (Addr::V4(0x0a00_0002), 2), (six, 1)]
    );
    assert_eq!(tally_summary(&t), "6 lines, 4 matched, 3 distinct addresses");
    assert_eq!(tally_summary(&Tally::new()), "0 lines, 0 matched, 0 distinct addresses");
}

#[test]
fn tally_lines() {
    assert_eq!(
        address_count_line(Addr::V4(0x0a00_0001), 7),
        format!("{:<40} {}", "10.0.0.1", 7)
    );
    assert_eq!(
        match_line(Addr::V4(0x0a00_0001), 3, "Failed password for root from 10.0.0.1"),
        format!("{:<40} #{:<2} {}", "10.0.0.1", 3, "Failed password for root from 10.0.0.1")
    );
    assert_eq!(
        match_line(Addr::V4(0x0a00_0001), 12, "x"),
        format!("{:<40} #{:<2} {}", "10.0.0.1", 12, "x")
    );
}
