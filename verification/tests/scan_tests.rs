use calscan::geometry::FormatVariant;
use calscan::scan::scan;
use calscan::validate::LeniencyPolicy;

const POLICY: LeniencyPolicy = LeniencyPolicy::LeadingZeroRun;

// x=3, y=2: header 03 02, X-axis 01 05 09, blocks (00|AA BB CC) (02|DD EE FF).
const TABLE: [u8; 13] = [
    0x03, 0x02, 0x01, 0x05, 0x09, 0x00, 0xAA, 0xBB, 0xCC, 0x02, 0xDD, 0xEE, 0xFF,
];

#[test]
fn concrete_compact_scenario() {
    let tables = scan(&TABLE, TABLE.len(), FormatVariant::Compact, POLICY);
    assert_eq!(tables.len(), 1);
    let t = &tables[0];
    assert_eq!(t.start, 0x0);
    assert_eq!(t.size, 0xd);
    assert_eq!(t.start as usize + t.size, 0xd);
    assert_eq!(t.x_val, 0x3);
    assert_eq!(t.y_val, 0x2);
    assert_eq!(t.count, 0);
    assert_eq!(t.get_x_axis(), vec![0x01, 0x05, 0x09]);
    assert_eq!(t.get_y_axis(), vec![0x00, 0x02]);
}

#[test]
fn embedded_table_is_found_at_its_offset() {
    // 0xff can never start a candidate: it fails the range heuristic.
    let mut buffer = vec![0xffu8; 7];
    buffer.extend_from_slice(&TABLE);
    buffer.extend_from_slice(&[0xff, 0xff, 0xff]);
    let tables = scan(&buffer, buffer.len(), FormatVariant::Compact, POLICY);
    assert_eq!(tables.len(), 1);
    assert_eq!(tables[0].start, 7);
    assert_eq!(tables[0].size, 13);
    assert_eq!(tables[0].x_val, 3);
    assert_eq!(tables[0].y_val, 2);
}

#[test]
fn nested_candidate_is_suppressed() {
    // An outer table at 0 whose payload holds a complete inner candidate at
    // offset 6 (x=2, y=2, size 10, running into the padding).
    let buffer: [u8; 16] = [
        0x03, 0x02, // outer header
        0x01, 0x05, 0x09, // outer X-axis
        0x00, // outer Y[0]
        0x02, 0x02, 0x01, // outer row 0, also the inner header + X[0]
        0x02, // outer Y[1], also the inner X[1]
        0x00, 0xAA, 0xBB, // outer row 1, inner Y[0] + row
        0x05, 0xFF, 0xFF, // padding, inner Y[1] + row
    ];
    // Scanned from its own offset, the inner candidate is accepted.
    let inner = scan(&buffer[6..], 10, FormatVariant::Compact, POLICY);
    assert_eq!(inner.len(), 1);
    assert_eq!(inner[0].x_val, 2);
    assert_eq!(inner[0].size, 10);
    // In the full scan, skip-ahead suppresses it: only the outer is reported,
    // and nothing starts inside (0, 13).
    let tables = scan(&buffer, buffer.len(), FormatVariant::Compact, POLICY);
    assert_eq!(tables.len(), 1);
    assert_eq!(tables[0].start, 0);
    assert_eq!(tables[0].size, 13);
    for t in &tables {
        assert!(t.start == 0 || t.start as usize > 13);
    }
}

#[test]
fn rescan_is_deterministic() {
    let mut buffer = vec![0xffu8; 5];
    buffer.extend_from_slice(&TABLE);
    buffer.extend_from_slice(&[0xff; 4]);
    buffer.extend_from_slice(&TABLE);
    let first = scan(&buffer, buffer.len(), FormatVariant::Compact, POLICY);
    let second = scan(&buffer, buffer.len(), FormatVariant::Compact, POLICY);
    assert_eq!(first.len(), 2);
    assert_eq!(first.len(), second.len());
    for (a, b) in first.iter().zip(second.iter()) {
        assert_eq!(a.x_val, b.x_val);
        assert_eq!(a.y_val, b.y_val);
        assert_eq!(a.start, b.start);
        assert_eq!(a.size, b.size);
        assert_eq!(a.count, b.count);
        assert_eq!(a.data_slice, b.data_slice);
    }
    // Discovery order is ascending start offset with sequential indices.
    assert_eq!(first[0].start, 5);
    assert_eq!(first[1].start, 22);
    assert_eq!(first[0].count, 0);
    assert_eq!(first[1].count, 1);
}

#[test]
fn truncated_candidate_is_silently_skipped() {
    // A plausible header whose computed size runs past the buffer end.
    let buffer: [u8; 6] = [0x03, 0x02, 0x01, 0x05, 0x09, 0x00];
    let tables = scan(&buffer, buffer.len(), FormatVariant::Compact, POLICY);
    assert!(tables.is_empty());
}

#[test]
fn invalid_axis_rejects_the_candidate() {
    // Same geometry as TABLE but with a non-increasing X-axis.
    let buffer: [u8; 13] = [
        0x03, 0x02, 0x09, 0x05, 0x01, 0x00, 0xAA, 0xBB, 0xCC, 0x02, 0xDD, 0xEE, 0xFF,
    ];
    let tables = scan(&buffer, buffer.len(), FormatVariant::Compact, POLICY);
    assert!(tables.is_empty());
}

#[test]
fn scan_respects_the_address_bound() {
    let mut buffer = vec![0xffu8; 5];
    buffer.extend_from_slice(&TABLE);
    // The table starts at 5; a bound of 5 stops before it.
    let none = scan(&buffer, 5, FormatVariant::Compact, POLICY);
    assert!(none.is_empty());
    // A bound of 6 still examines offset 5; the candidate may extend past
    // the bound, only not past the buffer.
    let one = scan(&buffer, 6, FormatVariant::Compact, POLICY);
    assert_eq!(one.len(), 1);
    assert_eq!(one[0].start, 5);
}

#[test]
fn tagged_variant_is_scanned_with_its_marker() {
    // 00 02 02 | 01 02 | 00 AA BB | 03 CC DD
    let buffer: [u8; 11] = [
        0x00, 0x02, 0x02, 0x01, 0x02, 0x00, 0xAA, 0xBB, 0x03, 0xCC, 0xDD,
    ];
    let tables = scan(&buffer, buffer.len(), FormatVariant::Tagged, POLICY);
    assert_eq!(tables.len(), 1);
    assert_eq!(tables[0].start, 0);
    assert_eq!(tables[0].size, 11);
    assert_eq!(tables[0].x_val, 2);
    assert_eq!(tables[0].y_val, 2);
    // Without the zero marker the same bytes are no Tagged candidate.
    let mut broken = buffer;
    broken[0] = 0x01;
    let none = scan(&broken, broken.len(), FormatVariant::Tagged, POLICY);
    assert!(none.is_empty());
}

#[test]
fn empty_buffer_yields_nothing() {
    let buffer: [u8; 0] = [];
    let tables = scan(&buffer, 0, FormatVariant::Compact, POLICY);
    assert!(tables.is_empty());
    let short: [u8; 1] = [0x03];
    let tables = scan(&short, 1, FormatVariant::Compact, POLICY);
    assert!(tables.is_empty());
}

#[test]
fn maximal_table_is_found() {
    // The largest geometry the heuristic accepts: x=29, y=29,
    // size 2 + 29 + 29 + 841 = 901.
    let mut buffer: Vec<u8> = vec![29, 29];
    for i in 1..=29u8 {
        buffer.push(i);
    }
    for marker in 1..=29u8 {
        buffer.push(marker);
        for _ in 0..29 {
            buffer.push(0xF0);
        }
    }
    assert_eq!(buffer.len(), 901);
    let tables = scan(&buffer, buffer.len(), FormatVariant::Compact, POLICY);
    assert_eq!(tables.len(), 1);
    assert_eq!(tables[0].start, 0);
    assert_eq!(tables[0].size, 901);
    assert_eq!(tables[0].x_val, 29);
    assert_eq!(tables[0].y_val, 29);
    let rows = tables[0].get_rows();
    assert_eq!(rows.len(), 29);
    assert!(rows.iter().all(|r| r.len() == 29));
}

#[test]
fn strict_policy_rejects_what_leniency_accepts() {
    // Y-axis [0, 0, 2]: a zero run, acceptable only with leniency.
    // x=2, y=3: header 02 03, X 01 02, blocks (00|AA BB)(00|CC DD)(02|EE FF).
    let buffer: [u8; 13] = [
        0x02, 0x03, 0x01, 0x02, 0x00, 0xAA, 0xBB, 0x00, 0xCC, 0xDD, 0x02, 0xEE, 0xFF,
    ];
    let lenient = scan(&buffer, buffer.len(), FormatVariant::Compact, POLICY);
    assert_eq!(lenient.len(), 1);
    let strict = scan(&buffer, buffer.len(), FormatVariant::Compact, LeniencyPolicy::Strict);
    assert!(strict.is_empty());
}
