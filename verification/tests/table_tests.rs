use calscan::geometry::FormatVariant;
use calscan::table::TableParms;
use calscan::validate::AxisKind;
use calscan::validate::LeniencyPolicy;
use calscan::validate::ValidationOutcome;

// A well-formed Compact table: x=3, y=2, size 2 + 3 + 2 + 6 = 13.
// header | X-axis   | marker row      | marker row
// 03 02  | 01 05 09 | 00  AA BB CC    | 02  DD EE FF
const COMPACT_TABLE: [u8; 13] = [
    0x03, 0x02, 0x01, 0x05, 0x09, 0x00, 0xAA, 0xBB, 0xCC, 0x02, 0xDD, 0xEE, 0xFF,
];

fn compact_parms(data: &[u8]) -> TableParms<'_> {
    TableParms {
        x_val: 3,
        y_val: 2,
        start: 0,
        size: 13,
        count: 0,
        variant: FormatVariant::Compact,
        data_slice: data,
    }
}

#[test]
fn x_axis_is_taken_after_the_header() {
    let t = compact_parms(&COMPACT_TABLE);
    assert_eq!(t.get_x_axis(), vec![0x01, 0x05, 0x09]);
}

#[test]
fn y_axis_is_the_first_byte_of_each_stride() {
    let t = compact_parms(&COMPACT_TABLE);
    assert_eq!(t.get_y_axis(), vec![0x00, 0x02]);
}

#[test]
fn rows_are_the_stride_payloads() {
    let t = compact_parms(&COMPACT_TABLE);
    assert_eq!(t.get_rows(), vec![vec![0xAA, 0xBB, 0xCC], vec![0xDD, 0xEE, 0xFF]]);
}

#[test]
fn table_end_is_start_plus_size() {
    let mut t = compact_parms(&COMPACT_TABLE);
    t.start = 0x40;
    assert_eq!(t.get_table_end(), 0x40 + 13);
}

#[test]
fn both_axes_valid_gives_valid() {
    let t = compact_parms(&COMPACT_TABLE);
    assert_eq!(
        t.check_table_validity(LeniencyPolicy::LeadingZeroRun),
        ValidationOutcome::Valid
    );
}

#[test]
fn bad_x_axis_is_reported_first() {
    // X-axis 01 05 05 repeats a value.
    let data: [u8; 13] = [
        0x03, 0x02, 0x01, 0x05, 0x05, 0x00, 0xAA, 0xBB, 0xCC, 0x02, 0xDD, 0xEE, 0xFF,
    ];
    let t = compact_parms(&data);
    assert_eq!(
        t.check_table_validity(LeniencyPolicy::LeadingZeroRun),
        ValidationOutcome::Invalid { axis: AxisKind::X, position: 2 }
    );
}

#[test]
fn bad_y_axis_is_reported_second() {
    // Y markers 05 then 02 decrease.
    let data: [u8; 13] = [
        0x03, 0x02, 0x01, 0x05, 0x09, 0x05, 0xAA, 0xBB, 0xCC, 0x02, 0xDD, 0xEE, 0xFF,
    ];
    let t = compact_parms(&data);
    assert_eq!(
        t.check_table_validity(LeniencyPolicy::LeadingZeroRun),
        ValidationOutcome::Invalid { axis: AxisKind::Y, position: 1 }
    );
}

#[test]
fn tagged_projection_accounts_for_the_marker_byte() {
    // Tagged table: x=2, y=2, size 3 + 2 + 2 + 4 = 11.
    // 00 02 02 | 01 02 | 00 AA BB | 03 CC DD
    let data: [u8; 11] = [
        0x00, 0x02, 0x02, 0x01, 0x02, 0x00, 0xAA, 0xBB, 0x03, 0xCC, 0xDD,
    ];
    let t = TableParms {
        x_val: 2,
        y_val: 2,
        start: 0,
        size: 11,
        count: 0,
        variant: FormatVariant::Tagged,
        data_slice: &data,
    };
    assert_eq!(t.get_x_axis(), vec![0x01, 0x02]);
    assert_eq!(t.get_y_axis(), vec![0x00, 0x03]);
    assert_eq!(t.get_rows(), vec![vec![0xAA, 0xBB], vec![0xCC, 0xDD]]);
    assert_eq!(
        t.check_table_validity(LeniencyPolicy::LeadingZeroRun),
        ValidationOutcome::Valid
    );
}
