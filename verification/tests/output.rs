use freemarker::error::TemplateError;
use freemarker::number::TNumber;
use freemarker::number_output::{finish_number_text, legacy_number_format};
use freemarker::output_encoding::{encode_direct, transcode_output};

fn msg(e: &TemplateError) -> String {
    match e {
        TemplateError::Misc { message } => message.clone(),
        other => format!("{other:?}"),
    }
}

fn dec(unscaled: i64, scale: u32) -> TNumber {
    TNumber::Decimal { unscaled, scale }
}

#[test]
fn latin1_output() {
    let out = transcode_output("aé€".as_bytes(), "ISO-8859-1").unwrap();
    assert_eq!(out, vec![0x61, 0xE9, 0x3F]);
    let out = transcode_output("é".as_bytes(), "iso-8859-1").unwrap();
    assert_eq!(out, vec![0xE9]);
}

#[test]
fn utf16_output() {
    assert_eq!(transcode_output("a".as_bytes(), "UTF-16").unwrap(), vec![0xFE, 0xFF, 0x00, 0x61]);
    assert_eq!(transcode_output("a".as_bytes(), "UTF-16LE").unwrap(), vec![0x61, 0x00]);
    assert_eq!(transcode_output("a".as_bytes(), "utf-16be").unwrap(), vec![0x00, 0x61]);
    assert_eq!(
        transcode_output("\u{10000}".as_bytes(), "UTF-16BE").unwrap(),
        vec![0xD8, 0x00, 0xDC, 0x00]
    );
}

#[test]
fn labelled_output() {
    assert_eq!(transcode_output("é".as_bytes(), "windows-1252").unwrap(), vec![0xE9]);
    assert_eq!(transcode_output("abc".as_bytes(), "utf-8").unwrap(), b"abc".to_vec());
    let err = transcode_output("a".as_bytes(), "no-such-encoding").unwrap_err();
    assert_eq!(msg(&err), "Unknown output encoding: \"no-such-encoding\"");
    let err = transcode_output(&[0xFF, 0xFE], "UTF-8").unwrap_err();
    assert_eq!(msg(&err), "Internal output is not valid UTF-8");
}

#[test]
fn direct_encodings_take_the_upper_case_name() {
    assert_eq!(encode_direct("a", "x", "X-UTF-16-LE"), Some(vec![0x61, 0x00]));
    assert_eq!(encode_direct("a", "utf-8", "UTF-8"), None);
}

#[test]
fn legacy_numbers() {
    assert_eq!(legacy_number_format(&TNumber::Long(2), 0, 2, "en_US"), "2");
    assert_eq!(legacy_number_format(&dec(12345, 3), 0, 2, "en_US"), "12.34");
    assert_eq!(legacy_number_format(&dec(12355, 3), 0, 2, "en_US"), "12.36");
    assert_eq!(legacy_number_format(&dec(15, 1), 2, 3, "en_US"), "1.50");
    assert_eq!(legacy_number_format(&dec(15, 1), 0, 3, "fr_FR"), "1,5");
    assert_eq!(legacy_number_format(&dec(-1005, 3), 0, 2, "en"), "-1");
    assert_eq!(legacy_number_format(&TNumber::Int(-7), 1, 1, "de"), "-7,0");
}

#[test]
fn finishing_rounded_text() {
    assert_eq!(finish_number_text("3.1400", 1, "en"), "3.14");
    assert_eq!(finish_number_text("3.1000", 0, "en"), "3.1");
    assert_eq!(finish_number_text("3.000", 0, "it_IT"), "3");
    assert_eq!(finish_number_text("42", 2, "en"), "42");
}
