use serendip_whitelister::delimited::split_fields;
use serendip_whitelister::ingest::{
    ingest_bytes, process_csv_file, table_from_text, IngestError, DATE_HEADER, ID_HEADER,
};
use serendip_whitelister::progress::{ProgressChannel, FULL};

fn utf16le(s: &str) -> Vec<u8> {
    s.encode_utf16().flat_map(|u| u.to_le_bytes()).collect()
}

fn chars(s: &str) -> Vec<char> {
    s.chars().collect()
}

const JUNE_FIRST_2023_0915: i64 = 1_685_610_900_000_000;

#[test]
fn one_row_scenario() {
    let bytes = utf16le("STUDENT NUMBER\tENROLMENT DATE\n12345\t01.06.2023 09.15.00\n");
    let t = ingest_bytes(&bytes).unwrap();
    assert_eq!(t.row_count(), 1);
    assert_eq!(t.ids, vec!["12345".to_string()]);
    assert_eq!(t.dates, vec![JUNE_FIRST_2023_0915]);
}

#[test]
fn round_trip_several_rows() {
    let text = "NAME\tSTUDENT NUMBER\tENROLMENT DATE\r\n\
                a\t1\t05.03.2024 14.30.00\r\n\
                b\t2\t01.01.1970 00.00.01\r\n\
                c\t3\t31.12.2024 23.59.59\r\n";
    let t = ingest_bytes(&utf16le(text)).unwrap();
    assert_eq!(t.row_count(), 3);
    assert_eq!(t.ids, vec!["1".to_string(), "2".to_string(), "3".to_string()]);
    assert_eq!(t.dates, vec![1_709_649_000_000_000, 1_000_000, 1_735_689_599_000_000]);
}

#[test]
fn missing_date_header_is_schema_error() {
    let bytes = utf16le("STUDENT NUMBER\tDATE\n12345\t01.06.2023 09.15.00\n");
    assert_eq!(
        ingest_bytes(&bytes),
        Err(IngestError::Schema { header: DATE_HEADER.to_string() })
    );
}

#[test]
fn missing_id_header_is_schema_error() {
    let bytes = utf16le("student number\tENROLMENT DATE\n12345\t01.06.2023 09.15.00\n");
    assert_eq!(ingest_bytes(&bytes), Err(IngestError::Schema { header: ID_HEADER.to_string() }));
}

#[test]
fn empty_file_is_schema_error() {
    assert_eq!(ingest_bytes(&[]), Err(IngestError::Schema { header: ID_HEADER.to_string() }));
}

#[test]
fn wrong_date_separator_is_cast_error() {
    let bytes = utf16le("STUDENT NUMBER\tENROLMENT DATE\n12345\t31/12/2024\n");
    assert_eq!(
        ingest_bytes(&bytes),
        Err(IngestError::Cast { row: 0, text: "31/12/2024".to_string() })
    );
}

#[test]
fn cast_error_names_first_bad_row() {
    let bytes = utf16le(
        "STUDENT NUMBER\tENROLMENT DATE\n1\t01.06.2023 09.15.00\n2\t32.06.2023 09.15.00\n3\tx\n",
    );
    assert_eq!(
        ingest_bytes(&bytes),
        Err(IngestError::Cast { row: 1, text: "32.06.2023 09.15.00".to_string() })
    );
}

#[test]
fn short_row_has_empty_date() {
    let bytes = utf16le("STUDENT NUMBER\tENROLMENT DATE\n12345\n");
    assert_eq!(ingest_bytes(&bytes), Err(IngestError::Cast { row: 0, text: String::new() }));
}

#[test]
fn byte_order_mark_is_dropped() {
    let mut bytes = vec![0xFF, 0xFE];
    bytes.extend(utf16le("STUDENT NUMBER\tENROLMENT DATE\n7\t01.06.2023 09.15.00"));
    let t = ingest_bytes(&bytes).unwrap();
    assert_eq!(t.ids, vec!["7".to_string()]);
    assert_eq!(t.dates, vec![JUNE_FIRST_2023_0915]);
}

#[test]
fn lone_surrogate_is_decode_error() {
    let mut bytes = utf16le("STUDENT NUMBER");
    bytes.extend([0x00, 0xDC, 0x41, 0x00]);
    match ingest_bytes(&bytes) {
        Err(IngestError::Decode { offset }) => assert!(offset <= bytes.len() && offset >= 28),
        other => panic!("unexpected {:?}", other),
    }
}

#[test]
fn odd_length_is_decode_error() {
    let bytes = vec![0x41, 0x00, 0x42];
    assert!(matches!(ingest_bytes(&bytes), Err(IngestError::Decode { .. })));
}

#[test]
fn quoted_field_keeps_tab() {
    let t = table_from_text(&chars(
        "\"STUDENT NUMBER\"\tENROLMENT DATE\n\"12\t34\"\t01.06.2023 09.15.00\n",
    ))
    .unwrap();
    assert_eq!(t.ids, vec!["12\t34".to_string()]);
}

#[test]
fn blank_lines_are_skipped() {
    let t = table_from_text(&chars(
        "\nSTUDENT NUMBER\tENROLMENT DATE\n\n12345\t01.06.2023 09.15.00\n\r\n",
    ))
    .unwrap();
    assert_eq!(t.row_count(), 1);
}

#[test]
fn split_plain_and_quoted() {
    let r = split_fields(&chars("a\t\"b\tc\"\t\"d\"\"e\""), '\t', true);
    assert_eq!(r, vec![chars("a"), chars("b\tc"), chars("d\"e")]);
    let r = split_fields(&chars("x\n\ny"), '\n', false);
    assert_eq!(r, vec![chars("x"), chars(""), chars("y")]);
    let r = split_fields(&chars(""), '\t', true);
    assert_eq!(r, vec![chars("")]);
}

#[test]
fn progress_rises_to_full_on_success() {
    let mut worker = ProgressChannel::new();
    let reader = worker.share();
    assert_eq!(reader.read(), 0);
    let bytes = utf16le("STUDENT NUMBER\tENROLMENT DATE\n12345\t01.06.2023 09.15.00\n");
    assert!(process_csv_file(&bytes, &mut worker).is_ok());
    assert_eq!(reader.read(), FULL);
}

#[test]
fn progress_stops_at_open_on_failure() {
    let mut worker = ProgressChannel::new();
    let reader = worker.share();
    let bytes = utf16le("STUDENT NUMBER\tENROLMENT DATE\n12345\t31/12/2024\n");
    assert!(process_csv_file(&bytes, &mut worker).is_err());
    assert_eq!(reader.read(), 100);
}
