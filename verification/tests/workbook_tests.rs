use xlsxwriter::XlsxError;
use xlsxwriter::style::Format;
use xlsxwriter::workbook::Workbook;
use xlsxwriter::sheet::{CellValue, RowProps, ColProps, Validation};

// A tiny independent CRC-32 (IEEE), to check the packaged checksums.
fn crc32_ref(data: &[u8]) -> u32 {
    let mut crc: u32 = 0xFFFFFFFF;
    for &b in data {
        crc ^= b as u32;
        for _ in 0..8 {
            let mask = if crc & 1 != 0 { 0xEDB88320u32 } else { 0 };
            crc = (crc >> 1) ^ mask;
        }
    }
    !crc
}

fn le16(b: &[u8]) -> usize {
    b[0] as usize | (b[1] as usize) << 8
}

fn le32(b: &[u8]) -> usize {
    b[0] as usize | (b[1] as usize) << 8 | (b[2] as usize) << 16 | (b[3] as usize) << 24
}

// Reads one entry of the archive back: (crc stored, inflated payload).
fn read_entry(zip: &[u8], want: &str) -> Option<(u32, Vec<u8>)> {
    // End-of-central-directory record: fixed size, no comment.
    let eocd = zip.len() - 22;
    assert_eq!(&zip[eocd..eocd + 4], b"PK\x05\x06");
    let count = le16(&zip[eocd + 10..]);
    let mut cd = le32(&zip[eocd + 16..]);
    for _ in 0..count {
        assert_eq!(&zip[cd..cd + 4], b"PK\x01\x02");
        let name_len = le16(&zip[cd + 28..]);
        let offset = le32(&zip[cd + 42..]);
        let name = &zip[cd + 46..cd + 46 + name_len];
        if name == want.as_bytes() {
            assert_eq!(&zip[offset..offset + 4], b"PK\x03\x04");
            let crc = le32(&zip[offset + 14..]) as u32;
            let csize = le32(&zip[offset + 18..]);
            let nlen = le16(&zip[offset + 26..]);
            let xlen = le16(&zip[offset + 28..]);
            let start = offset + 30 + nlen + xlen;
            let raw = &zip[start..start + csize];
            let data = miniz_oxide::inflate::decompress_to_vec(raw).expect("inflate");
            return Some((crc, data));
        }
        cd += 46 + name_len + le16(&zip[cd + 30..]) + le16(&zip[cd + 32..]);
    }
    None
}

fn contains(hay: &[u8], needle: &str) -> bool {
    hay.windows(needle.len()).any(|w| w == needle.as_bytes())
}

#[test]
fn format_registry_deduplicates() {
    let mut wb = Workbook::new();
    let s = wb.add_worksheet(None).unwrap();
    let mut red = Format::new();
    red.font_color = 0xFF0000;
    let mut red2 = Format::new();
    red2.font_color = 0xFF0000;
    let mut blue = Format::new();
    blue.font_color = 0x0000FF;
    wb.write_blank(s, 0, 0, Some(&red)).unwrap();
    assert_eq!(wb.format_count(), 1);
    wb.write_blank(s, 0, 1, Some(&red2)).unwrap();
    assert_eq!(wb.format_count(), 1);
    wb.write_blank(s, 0, 2, Some(&blue)).unwrap();
    assert_eq!(wb.format_count(), 2);
}

#[test]
fn styles_render_fonts_fills_and_cell_refs() {
    let mut wb = Workbook::new();
    let s = wb.add_worksheet(None).unwrap();
    let mut f = Format::new();
    f.bold = true;
    f.font_color = 0xFF0000;
    f.fill_set = true;
    f.fill_color = 0x00A1B2;
    f.border = 1;
    f.align = 2;
    wb.write_number(s, 0, 0, "1", Some(&f)).unwrap();
    let bytes = wb.close().unwrap();
    let (_, styles) = read_entry(&bytes, "xl/styles.xml").unwrap();
    assert!(contains(&styles, "<font><b/><sz val=\"11\"/><color rgb=\"FFFF0000\"/>"));
    assert!(contains(&styles, "<fgColor rgb=\"FF00A1B2\"/>"));
    assert!(contains(&styles, "<left style=\"thin\"/>"));
    assert!(contains(&styles, "<alignment horizontal=\"center\"/>"));
    // The first user format carries style index 1, the default being 0.
    let (_, sheet) = read_entry(&bytes, "xl/worksheets/sheet1.xml").unwrap();
    assert!(contains(&sheet, "<c r=\"A1\" s=\"1\"><v>1</v></c>"));
}

#[test]
fn shared_strings_intern_and_rank() {
    let mut wb = Workbook::new();
    let s = wb.add_worksheet(None).unwrap();
    wb.write_string(s, 0, 0, "alpha", None).unwrap();
    wb.write_string(s, 1, 0, "beta", None).unwrap();
    wb.write_string(s, 2, 0, "alpha", None).unwrap();
    assert_eq!(wb.string_count(), 2);
    let bytes = wb.close().unwrap();
    let (_, sst) = read_entry(&bytes, "xl/sharedStrings.xml").unwrap();
    assert!(contains(&sst, "count=\"2\" uniqueCount=\"2\""));
    // First-insertion order: alpha before beta.
    let a = sst.windows(5).position(|w| w == b"alpha").unwrap();
    let b = sst.windows(4).position(|w| w == b"beta").unwrap();
    assert!(a < b);
    // Both cells that hold "alpha" reference index 0.
    let (_, sheet) = read_entry(&bytes, "xl/worksheets/sheet1.xml").unwrap();
    assert!(contains(&sheet, "<c r=\"A1\" t=\"s\"><v>0</v></c>"));
    assert!(contains(&sheet, "<c r=\"A3\" t=\"s\"><v>0</v></c>"));
    assert!(contains(&sheet, "<c r=\"A2\" t=\"s\"><v>1</v></c>"));
}

#[test]
fn write_then_read_back() {
    let mut wb = Workbook::new();
    let s = wb.add_worksheet(None).unwrap();
    wb.write_number(s, 5, 3, "2.5", None).unwrap();
    let cell = wb.sheet(s).get_cell(5, 3).unwrap();
    match &cell.value {
        CellValue::Number(t) => assert_eq!(t.as_slice(), b"2.5"),
        _ => panic!("wrong kind"),
    }
    // Last write wins.
    wb.write_boolean(s, 5, 3, true, None).unwrap();
    let cell = wb.sheet(s).get_cell(5, 3).unwrap();
    assert!(matches!(cell.value, CellValue::Boolean(true)));
    assert!(wb.sheet(s).get_cell(4, 3).is_none());
    // Out of bounds coordinates are refused.
    assert_eq!(wb.write_number(s, 1048576, 0, "1", None), Err(XlsxError::InvalidCoordinate));
    assert_eq!(wb.write_number(s, 0, 16384, "1", None), Err(XlsxError::InvalidCoordinate));
}

#[test]
fn round_trip_number_and_string() {
    let mut wb = Workbook::new();
    let s = wb.add_worksheet(None).unwrap();
    wb.write_number(s, 0, 0, "20", None).unwrap();
    wb.write_string(s, 0, 1, "Red text", None).unwrap();
    let bytes = wb.close().unwrap();
    let (crc, sheet) = read_entry(&bytes, "xl/worksheets/sheet1.xml").unwrap();
    assert_eq!(crc, crc32_ref(&sheet));
    assert!(contains(&sheet, "<c r=\"A1\"><v>20</v></c>"));
    assert!(contains(&sheet, "<c r=\"B1\" t=\"s\"><v>0</v></c>"));
    let (crc2, sst) = read_entry(&bytes, "xl/sharedStrings.xml").unwrap();
    assert_eq!(crc2, crc32_ref(&sst));
    assert!(contains(&sst, "Red text"));
    for part in [
        "[Content_Types].xml",
        "_rels/.rels",
        "docProps/core.xml",
        "docProps/app.xml",
        "xl/workbook.xml",
        "xl/_rels/workbook.xml.rels",
        "xl/styles.xml",
    ] {
        assert!(read_entry(&bytes, part).is_some(), "missing {part}");
    }
}

#[test]
fn merge_conflicts() {
    let mut wb = Workbook::new();
    let s = wb.add_worksheet(None).unwrap();
    wb.merge_range(s, 2, 0, 3, 2).unwrap();
    assert_eq!(wb.write_number(s, 2, 1, "1", None), Err(XlsxError::MergedCellConflict));
    assert_eq!(wb.write_string(s, 3, 2, "x", None), Err(XlsxError::MergedCellConflict));
    // The anchor itself accepts the value.
    wb.write_string(s, 2, 0, "Hello, world", None).unwrap();
    assert_eq!(wb.merge_range(s, 3, 1, 4, 1), Err(XlsxError::OverlappingMerge));
    wb.merge_range(s, 4, 0, 5, 2).unwrap();
    let bytes = wb.close().unwrap();
    let (_, sheet) = read_entry(&bytes, "xl/worksheets/sheet1.xml").unwrap();
    assert!(contains(&sheet, "<mergeCells count=\"2\">"));
    assert!(contains(&sheet, "<mergeCell ref=\"A3:C4\"/>"));
    assert!(contains(&sheet, "<mergeCell ref=\"A5:C6\"/>"));
}

#[test]
fn duplicate_sheet_names() {
    let mut wb = Workbook::new();
    wb.add_worksheet(Some("Data")).unwrap();
    assert_eq!(wb.add_worksheet(Some("data")), Err(XlsxError::DuplicateSheetName));
    assert_eq!(wb.add_worksheet(Some("DATA")), Err(XlsxError::DuplicateSheetName));
    wb.add_worksheet(Some("Other")).unwrap();
}

#[test]
fn invalid_sheet_names() {
    let mut wb = Workbook::new();
    assert_eq!(wb.add_worksheet(Some("")), Err(XlsxError::InvalidSheetName));
    assert_eq!(wb.add_worksheet(Some("a[b")), Err(XlsxError::InvalidSheetName));
    assert_eq!(wb.add_worksheet(Some("a:b")), Err(XlsxError::InvalidSheetName));
    assert_eq!(wb.add_worksheet(Some("a/b")), Err(XlsxError::InvalidSheetName));
    assert_eq!(
        wb.add_worksheet(Some("abcdefghijklmnopqrstuvwxyz123456")),
        Err(XlsxError::InvalidSheetName)
    );
    wb.add_worksheet(Some("abcdefghijklmnopqrstuvwxyz12345")).unwrap();
}

#[test]
fn auto_names_avoid_collisions() {
    let mut wb = Workbook::new();
    wb.add_worksheet(Some("Sheet1")).unwrap();
    let s2 = wb.add_worksheet(None).unwrap();
    assert_eq!(s2, 1);
    let bytes = wb.close().unwrap();
    let (_, wbxml) = read_entry(&bytes, "xl/workbook.xml").unwrap();
    assert!(contains(&wbxml, "name=\"Sheet1\""));
    assert!(contains(&wbxml, "name=\"Sheet2\""));
}

#[test]
fn close_twice_fails() {
    let mut wb = Workbook::new();
    wb.add_worksheet(None).unwrap();
    assert!(wb.close().is_ok());
    assert_eq!(wb.close(), Err(XlsxError::WorkbookClosed));
    assert_eq!(wb.add_worksheet(None), Err(XlsxError::WorkbookClosed));
    assert_eq!(wb.write_number(0, 0, 0, "1", None), Err(XlsxError::WorkbookClosed));
}

#[test]
fn empty_workbook_fails() {
    let mut wb = Workbook::new();
    assert_eq!(wb.close(), Err(XlsxError::EmptyWorkbook));
    // The failure did not close the workbook.
    wb.add_worksheet(None).unwrap();
    assert!(wb.close().is_ok());
}

#[test]
fn non_finite_numbers_are_refused() {
    let mut wb = Workbook::new();
    let s = wb.add_worksheet(None).unwrap();
    let nan = format!("{}", f64::NAN);
    assert_eq!(wb.write_number(s, 0, 0, &nan, None), Err(XlsxError::InvalidNumericValue));
    let inf = format!("{}", f64::INFINITY);
    assert_eq!(wb.write_number(s, 0, 0, &inf, None), Err(XlsxError::InvalidNumericValue));
    assert_eq!(wb.write_number(s, 0, 0, "", None), Err(XlsxError::InvalidNumericValue));
    assert_eq!(wb.write_number(s, 0, 0, "1.2.3", None), Err(XlsxError::InvalidNumericValue));
    assert_eq!(wb.write_number(s, 0, 0, "-", None), Err(XlsxError::InvalidNumericValue));
    wb.write_number(s, 0, 0, &format!("{}", 1.5e300f64), None).unwrap();
    wb.write_number(s, 0, 1, "-0.5", None).unwrap();
    wb.write_number(s, 0, 2, "1e-10", None).unwrap();
    wb.write_number(s, 0, 3, "3E+7", None).unwrap();
}

#[test]
fn identical_builds_are_byte_identical() {
    let build = || {
        let mut wb = Workbook::new();
        let s = wb.add_worksheet(Some("Data")).unwrap();
        let mut f = Format::new();
        f.bold = true;
        f.fill_set = true;
        f.fill_color = 0x00FF00;
        wb.write_number(s, 0, 0, "20", Some(&f)).unwrap();
        wb.write_string(s, 0, 1, "Red text", None).unwrap();
        wb.write_formula(s, 1, 0, "=10+B1", Some("30"), None).unwrap();
        wb.merge_range(s, 2, 0, 3, 2).unwrap();
        wb.close().unwrap()
    };
    assert_eq!(build(), build());
}

#[test]
fn formats_cap_is_enforced() {
    let mut wb = Workbook::new();
    let s = wb.add_worksheet(None).unwrap();
    let mut i: u32 = 0;
    loop {
        let mut f = Format::new();
        f.font_color = i;
        match wb.write_blank(s, 0, 0, Some(&f)) {
            Ok(()) => i += 1,
            Err(e) => {
                assert_eq!(e, XlsxError::TooManyFormats);
                break;
            }
        }
        assert!(i <= 70000, "cap never hit");
    }
    assert_eq!(i, 65490);
}

#[test]
fn xml_escaping_in_strings() {
    let mut wb = Workbook::new();
    let s = wb.add_worksheet(None).unwrap();
    wb.write_string(s, 0, 0, "a<b>&\"'\u{1}", None).unwrap();
    let bytes = wb.close().unwrap();
    let (_, sst) = read_entry(&bytes, "xl/sharedStrings.xml").unwrap();
    assert!(contains(&sst, "a&lt;b&gt;&amp;&quot;&apos;&#x01;"));
}

#[test]
fn column_letters_and_cell_refs() {
    let mut wb = Workbook::new();
    let s = wb.add_worksheet(None).unwrap();
    wb.write_number(s, 0, 25, "1", None).unwrap();
    wb.write_number(s, 0, 26, "2", None).unwrap();
    wb.write_number(s, 99, 16383, "3", None).unwrap();
    let bytes = wb.close().unwrap();
    let (_, sheet) = read_entry(&bytes, "xl/worksheets/sheet1.xml").unwrap();
    assert!(contains(&sheet, "<c r=\"Z1\">"));
    assert!(contains(&sheet, "<c r=\"AA1\">"));
    assert!(contains(&sheet, "<c r=\"XFD100\">"));
}

#[test]
fn row_and_column_metadata() {
    let mut wb = Workbook::new();
    let s = wb.add_worksheet(None).unwrap();
    wb.set_row(s, 0, RowProps { height: Some(30), hidden: false, format: None }).unwrap();
    wb.set_row(s, 4, RowProps { height: None, hidden: true, format: None }).unwrap();
    wb.set_column(s, 1, ColProps { last_col: 2, width: Some(25), hidden: false, format: None })
        .unwrap();
    wb.write_number(s, 0, 0, "7", None).unwrap();
    wb.freeze_panes(s, 1, 0).unwrap();
    wb.set_selection(s, 1, 0, 1, 2).unwrap();
    wb.add_validation(
        s,
        Validation {
            r1: 0,
            c1: 0,
            r2: 9,
            c2: 0,
            kind: 1,
            formula1: b"1".to_vec(),
            formula2: Some(b"10".to_vec()),
        },
    )
    .unwrap();
    let bytes = wb.close().unwrap();
    let (_, sheet) = read_entry(&bytes, "xl/worksheets/sheet1.xml").unwrap();
    assert!(contains(&sheet, "<row r=\"1\" ht=\"30\" customHeight=\"1\"><c r=\"A1\"><v>7</v></c></row>"));
    assert!(contains(&sheet, "<row r=\"5\" hidden=\"1\"></row>"));
    assert!(contains(&sheet, "<col min=\"2\" max=\"3\" width=\"25\" customWidth=\"1\"/>"));
    assert!(contains(&sheet, "<pane xSplit=\"0\" ySplit=\"1\""));
    assert!(contains(&sheet, "<selection activeCell=\"A2\" sqref=\"A2:C2\"/>"));
    assert!(contains(&sheet, "<dataValidation type=\"whole\" sqref=\"A1:A10\">"));
    assert!(contains(&sheet, "<formula1>1</formula1><formula2>10</formula2>"));
}

#[test]
fn rows_serialize_in_ascending_order() {
    let mut wb = Workbook::new();
    let s = wb.add_worksheet(None).unwrap();
    wb.write_number(s, 9, 1, "9", None).unwrap();
    wb.write_number(s, 2, 3, "2", None).unwrap();
    wb.write_number(s, 2, 0, "1", None).unwrap();
    let bytes = wb.close().unwrap();
    let (_, sheet) = read_entry(&bytes, "xl/worksheets/sheet1.xml").unwrap();
    assert!(contains(
        &sheet,
        "<sheetData><row r=\"3\"><c r=\"A3\"><v>1</v></c><c r=\"D3\"><v>2</v></c></row><row r=\"10\"><c r=\"B10\"><v>9</v></c></row></sheetData>"
    ));
}

#[test]
fn formulas_and_booleans_serialize() {
    let mut wb = Workbook::new();
    let s = wb.add_worksheet(None).unwrap();
    wb.write_formula(s, 0, 0, "=10+B1", Some("30"), None).unwrap();
    wb.write_formula(s, 1, 0, "=A1<5", None, None).unwrap();
    wb.write_boolean(s, 2, 0, true, None).unwrap();
    assert_eq!(
        wb.write_formula(s, 3, 0, "=1", Some("abc"), None),
        Err(XlsxError::InvalidNumericValue)
    );
    let bytes = wb.close().unwrap();
    let (_, sheet) = read_entry(&bytes, "xl/worksheets/sheet1.xml").unwrap();
    assert!(contains(&sheet, "<c r=\"A1\"><f>=10+B1</f><v>30</v></c>"));
    assert!(contains(&sheet, "<c r=\"A2\"><f>=A1&lt;5</f></c>"));
    assert!(contains(&sheet, "<c r=\"A3\" t=\"b\"><v>1</v></c>"));
}

#[test]
fn try_to_vec_collects_or_fails() {
    let ok: Vec<Result<u32, XlsxError>> = vec![Ok(1), Ok(2), Ok(3)];
    assert_eq!(xlsxwriter::try_to_vec(ok), Ok(vec![1, 2, 3]));
    let bad: Vec<Result<u32, XlsxError>> =
        vec![Ok(1), Err(XlsxError::EmptyWorkbook), Err(XlsxError::IoFailure)];
    assert_eq!(xlsxwriter::try_to_vec(bad), Err(XlsxError::EmptyWorkbook));
}
