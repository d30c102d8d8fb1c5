use svm::template_builder::AppTemplateBuilder;

#[test]
fn template_builder_builds_raw_bytes() {
    let code = vec![0xAA, 0xBB, 0xCC, 0xDD];

    let bytes = AppTemplateBuilder::new()
        .with_version(0)
        .with_name("Template #1")
        .with_page_count(10)
        .with_code(&code)
        .build();

    let mut expected: Vec<u8> = Vec::new();
    expected.extend_from_slice(&[0, 0, 0, 0]); // version
    expected.push(11); // name length
    expected.extend_from_slice(b"Template #1");
    expected.extend_from_slice(&[0, 0]); // admins
    expected.extend_from_slice(&[0, 0]); // dependencies
    expected.extend_from_slice(&[0, 10]); // page count
    expected.extend_from_slice(&[0, 0, 0, 0, 0, 0, 0, 4]); // code length
    expected.extend_from_slice(&code);

    assert_eq!(expected, bytes);
}

#[test]
fn template_builder_writes_big_endian() {
    let bytes = AppTemplateBuilder::new()
        .with_version(0x0102_0304)
        .with_name("")
        .with_page_count(0x0506)
        .with_code(&[])
        .build();

    assert_eq!(
        vec![1, 2, 3, 4, 0, 0, 0, 0, 0, 5, 6, 0, 0, 0, 0, 0, 0, 0, 0],
        bytes
    );
}

#[test]
fn template_builder_counts_the_bytes_of_the_name() {
    let bytes = AppTemplateBuilder::new()
        .with_version(1)
        .with_name("é")
        .with_page_count(1)
        .with_code(&[7])
        .build();

    assert_eq!(
        vec![0, 0, 0, 1, 2, 0xC3, 0xA9, 0, 0, 0, 0, 0, 1, 0, 0, 0, 0, 0, 0, 0, 1, 7],
        bytes
    );
}

#[test]
fn template_builder_knows_when_it_is_complete() {
    let builder = AppTemplateBuilder::new();
    assert!(!builder.is_complete());

    let builder = builder.with_version(1).with_page_count(2).with_code(&[1]);
    assert!(!builder.is_complete());

    let long_name = "x".repeat(256);
    let builder = builder.with_name(&long_name);
    assert!(!builder.is_complete());

    let name = "x".repeat(255);
    let mut builder = builder.with_name(&name);
    assert!(builder.is_complete());

    let bytes = builder.build();
    assert_eq!(255, bytes[4]);
    assert_eq!(4 + 1 + 255 + 2 + 2 + 2 + 8 + 1, bytes.len());
    // the name was handed over
    assert!(!builder.is_complete());
}
