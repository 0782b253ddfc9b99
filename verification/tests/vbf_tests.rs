use doip_tester::common::compare_expect_value;
use doip_tester::error::TesterError;
use doip_tester::vbf::{
    expect_pattern, extract_erase_values, extract_value, plan_flash, vbf_header_end,
    FlashStepKind,
};

fn header_text() -> Vec<u8> {
    let text = "vbf_version = 2.6;\nheader {\n    sw_part_number = \"12345678\";\n    sw_version = \"A\";\n    sw_signature_dev = 0xAABB;\n    erase = { 0x00040000, 0x00001000 };\n}";
    text.as_bytes().to_vec()
}

#[test]
fn header_end_counts_braces() {
    let header = header_text();
    assert_eq!(vbf_header_end(&header), header.len());
    let mut with_body = header.clone();
    with_body.extend(vec![0x00, 0x04]);
    assert_eq!(vbf_header_end(&with_body), header.len());
    // a header that never closes extends to the end
    assert_eq!(vbf_header_end(&b"header {".to_vec()), 8);
}

#[test]
fn extract_named_fields() {
    let header = header_text();
    assert_eq!(
        extract_value(&header, &b"sw_part_number".to_vec()),
        b"12345678".to_vec()
    );
    assert_eq!(
        extract_value(&header, &b"sw_signature_dev".to_vec()),
        b"0xAABB".to_vec()
    );
    assert_eq!(
        extract_value(&header, &b"missing_field".to_vec()),
        Vec::<u8>::new()
    );
}

#[test]
fn extract_erase_pair() {
    let header = header_text();
    let erase = extract_value(&header, &b"erase".to_vec());
    let (start, length) = extract_erase_values(&erase);
    assert_eq!(start, b"0x00040000".to_vec());
    assert_eq!(length, b"0x00001000".to_vec());
    // anything but exactly one comma parses to nothing
    let (s, l) = extract_erase_values(&b"{1,2,3}".to_vec());
    assert!(s.is_empty() && l.is_empty());
    let (s, l) = extract_erase_values(&b"{12}".to_vec());
    assert!(s.is_empty() && l.is_empty());
}

fn single_block_file() -> Vec<u8> {
    let mut data = header_text();
    // block: start address, length 4096, the data, a checksum
    data.extend(vec![0x00, 0x04, 0x00, 0x00]);
    data.extend(vec![0x00, 0x00, 0x10, 0x00]);
    data.extend(vec![0xAB; 4096]);
    data.extend(vec![0xCD, 0xEF]);
    data
}

#[test]
fn single_block_flash_plan() {
    let data = single_block_file();
    let plan = plan_flash(&data, 4093).unwrap();
    assert_eq!(plan.len(), 6);

    assert!(matches!(plan[0].kind, FlashStepKind::Erase));
    assert_eq!(
        plan[0].request,
        vec![0x31, 0x01, 0xFF, 0x00, 0x00, 0x04, 0x00, 0x00, 0x00, 0x00, 0x10, 0x00]
    );

    assert!(matches!(plan[1].kind, FlashStepKind::RequestDownload));
    assert_eq!(
        plan[1].request,
        vec![0x34, 0x00, 0x44, 0x00, 0x04, 0x00, 0x00, 0x00, 0x00, 0x10, 0x00]
    );

    assert!(matches!(plan[2].kind, FlashStepKind::TransferData));
    assert_eq!(plan[2].request.len(), 2 + 4093);
    assert_eq!(&plan[2].request[0..2], &[0x36, 0x01]);
    assert!(plan[2].request[2..].iter().all(|&b| b == 0xAB));

    assert!(matches!(plan[3].kind, FlashStepKind::TransferData));
    assert_eq!(plan[3].request, vec![0x36, 0x02, 0xAB, 0xAB, 0xAB]);

    assert!(matches!(plan[4].kind, FlashStepKind::TransferExit));
    assert_eq!(plan[4].request, vec![0x37]);

    assert!(matches!(plan[5].kind, FlashStepKind::CheckMemory));
    assert_eq!(plan[5].request, vec![0x31, 0x01, 0x02, 0x12, 0xAA, 0xBB]);
}

#[test]
fn flash_plan_without_erase_field() {
    let mut data = b"header { sw_signature_dev = 0x1122; }".to_vec();
    data.extend(vec![0x00, 0x00, 0x00, 0x01]);
    data.extend(vec![0x00, 0x00, 0x00, 0x02]);
    data.extend(vec![0x11, 0x22]);
    data.extend(vec![0x00, 0x00]);
    let plan = plan_flash(&data, 4093).unwrap();
    assert_eq!(plan.len(), 4);
    assert!(matches!(plan[0].kind, FlashStepKind::RequestDownload));
    assert_eq!(plan[1].request, vec![0x36, 0x01, 0x11, 0x22]);
    assert!(matches!(plan[2].kind, FlashStepKind::TransferExit));
    assert!(matches!(plan[3].kind, FlashStepKind::CheckMemory));
}

#[test]
fn truncated_block_is_invalid() {
    let mut data = header_text();
    data.extend(vec![0x00, 0x04, 0x00, 0x00]);
    data.extend(vec![0x00, 0x00, 0x10, 0x00]);
    data.extend(vec![0xAB; 10]);
    assert!(matches!(plan_flash(&data, 4093), Err(TesterError::InvalidData)));

    let mut data = header_text();
    data.extend(vec![0x00, 0x04, 0x00, 0x00]);
    assert!(matches!(plan_flash(&data, 4093), Err(TesterError::InvalidData)));
}

#[test]
fn trailing_short_bytes_end_the_stream() {
    // fewer than four bytes after the last block end the stream
    let mut data = b"header { }".to_vec();
    data.extend(vec![0x00, 0x00]);
    let plan = plan_flash(&data, 4093).unwrap();
    assert_eq!(plan.len(), 1);
    assert!(matches!(plan[0].kind, FlashStepKind::CheckMemory));
    // no signature: the request is the bare routine control
    assert_eq!(plan[0].request, vec![0x31, 0x01, 0x02, 0x12]);
}

#[test]
fn expect_patterns_match_positive_responses() {
    assert!(compare_expect_value(
        expect_pattern(FlashStepKind::Erase),
        vec![0x71, 0x01, 0xFF, 0x00, 0x10]
    ));
    assert!(compare_expect_value(
        expect_pattern(FlashStepKind::RequestDownload),
        vec![0x74, 0x20, 0x0F, 0xFD]
    ));
    assert!(compare_expect_value(
        expect_pattern(FlashStepKind::TransferData),
        vec![0x76, 0x01]
    ));
    assert!(compare_expect_value(
        expect_pattern(FlashStepKind::TransferExit),
        vec![0x77]
    ));
    assert!(compare_expect_value(
        expect_pattern(FlashStepKind::CheckMemory),
        vec![0x71, 0x01, 0x02, 0x12, 0x10, 0x00]
    ));
    // a negative response fails the pattern
    assert!(!compare_expect_value(
        expect_pattern(FlashStepKind::TransferData),
        vec![0x7F, 0x36, 0x31]
    ));
}
