//! The XML part generators. Each part is a pure function of the workbook
//! model: a spec function states the bytes, an executable builder produces
//! exactly those bytes.

use vstd::prelude::*;
use crate::bytes::{
    cell_ref, dec_of, esc_bytes, hex_digit, lit, push_bytes, push_cell_ref, push_dec, push_esc,
    push_lit,
};
use crate::sheet::{Cell, CellV, CellValue, CellValueV, ColProps, Entry, EntryV, Merge, RowProps, ValidationV, Worksheet};
use crate::style::Format;

verus! {

/// The concatenation of `f` over a sequence, in order.
pub open spec fn cat_map<T>(s: Seq<T>, f: spec_fn(T) -> Seq<u8>) -> Seq<u8>
    decreases s.len(),
{
    if s.len() == 0 {
        Seq::empty()
    } else {
        cat_map(s.drop_last(), f) + f(s.last())
    }
}


/// Named instances of `cat_map`, so contracts and loop invariants speak of
/// one function.
pub open spec fn overrides_cat(s: Seq<int>) -> Seq<u8> {
    cat_map(s, |i: int| sheet_override(i))
}

pub open spec fn sst_items(s: Seq<Seq<u8>>) -> Seq<u8> {
    cat_map(s, |t: Seq<u8>| sst_item(t))
}

/// Extending the shared string table appends its item to the serialized
/// list: an id's position in the final part is the rank of its first
/// insertion.
pub proof fn lemma_sst_rank(strings: Seq<Seq<u8>>, t: Seq<u8>)
    ensures
        sst_items(strings.push(t)) == sst_items(strings) + sst_item(t),
{
    assert(strings.push(t).drop_last() =~= strings);
    assert(strings.push(t).last() == t);
}

pub open spec fn fonts_cat(s: Seq<Format>) -> Seq<u8> {
    cat_map(s, |f: Format| font_xml(f))
}

pub open spec fn fills_cat(s: Seq<Format>) -> Seq<u8> {
    cat_map(s, |f: Format| fill_xml(f))
}

pub open spec fn borders_cat(s: Seq<Format>) -> Seq<u8> {
    cat_map(s, |f: Format| border_xml(f))
}

pub open spec fn merges_cat(s: Seq<Merge>) -> Seq<u8> {
    cat_map(s, |m: Merge| merge_item(m))
}

pub open spec fn cols_cat(s: Seq<(u64, ColProps)>) -> Seq<u8> {
    cat_map(s, |p: (u64, ColProps)| col_item(p))
}

pub open spec fn validations_cat(s: Seq<ValidationV>) -> Seq<u8> {
    cat_map(s, |v: ValidationV| validation_item(v))
}

pub open spec fn xml_decl() -> Seq<u8> {
    lit("<?xml version=\"1.0\" encoding=\"UTF-8\" standalone=\"yes\"?>\n")
}

/// `[Content_Types].xml`: the fixed defaults plus one override per sheet.
pub open spec fn content_types_xml(n_sheets: nat) -> Seq<u8> {
    xml_decl() + lit(
        "<Types xmlns=\"http://schemas.openxmlformats.org/package/2006/content-types\"><Default Extension=\"rels\" ContentType=\"application/vnd.openxmlformats-package.relationships+xml\"/><Default Extension=\"xml\" ContentType=\"application/xml\"/><Override PartName=\"/xl/workbook.xml\" ContentType=\"application/vnd.openxmlformats-officedocument.spreadsheetml.sheet.main+xml\"/>",
    ) + overrides_cat(Seq::new(n_sheets, |i: int| i)) + lit(
        "<Override PartName=\"/xl/styles.xml\" ContentType=\"application/vnd.openxmlformats-officedocument.spreadsheetml.styles+xml\"/><Override PartName=\"/xl/sharedStrings.xml\" ContentType=\"application/vnd.openxmlformats-officedocument.spreadsheetml.sharedStrings+xml\"/><Override PartName=\"/docProps/core.xml\" ContentType=\"application/vnd.openxmlformats-package.core-properties+xml\"/><Override PartName=\"/docProps/app.xml\" ContentType=\"application/vnd.openxmlformats-officedocument.extended-properties+xml\"/></Types>",
    )
}

pub open spec fn sheet_override(i: int) -> Seq<u8> {
    lit("<Override PartName=\"/xl/worksheets/sheet") + dec_of((i + 1) as nat) + lit(
        ".xml\" ContentType=\"application/vnd.openxmlformats-officedocument.spreadsheetml.worksheet+xml\"/>",
    )
}

/// `_rels/.rels`: the package-level relationships.
pub open spec fn root_rels_xml() -> Seq<u8> {
    xml_decl() + lit(
        "<Relationships xmlns=\"http://schemas.openxmlformats.org/package/2006/relationships\"><Relationship Id=\"rId1\" Type=\"http://schemas.openxmlformats.org/officeDocument/2006/relationships/officeDocument\" Target=\"xl/workbook.xml\"/><Relationship Id=\"rId2\" Type=\"http://schemas.openxmlformats.org/package/2006/relationships/metadata/core-properties\" Target=\"docProps/core.xml\"/><Relationship Id=\"rId3\" Type=\"http://schemas.openxmlformats.org/officeDocument/2006/relationships/extended-properties\" Target=\"docProps/app.xml\"/></Relationships>",
    )
}

/// `docProps/core.xml` with a fixed timestamp, keeping output reproducible.
pub open spec fn core_xml() -> Seq<u8> {
    xml_decl() + lit(
        "<cp:coreProperties xmlns:cp=\"http://schemas.openxmlformats.org/package/2006/metadata/core-properties\" xmlns:dc=\"http://purl.org/dc/elements/1.1/\" xmlns:dcterms=\"http://purl.org/dc/terms/\" xmlns:xsi=\"http://www.w3.org/2001/XMLSchema-instance\"><dcterms:created xsi:type=\"dcterms:W3CDTF\">2000-01-01T00:00:00Z</dcterms:created></cp:coreProperties>",
    )
}

pub open spec fn app_xml() -> Seq<u8> {
    xml_decl() + lit(
        "<Properties xmlns=\"http://schemas.openxmlformats.org/officeDocument/2006/extended-properties\"><Application>xlsxwriter</Application></Properties>",
    )
}

/// `xl/workbook.xml`: the sheet list in tab order.
pub open spec fn workbook_xml(names: Seq<Seq<u8>>) -> Seq<u8> {
    xml_decl() + lit(
        "<workbook xmlns=\"http://schemas.openxmlformats.org/spreadsheetml/2006/main\" xmlns:r=\"http://schemas.openxmlformats.org/officeDocument/2006/relationships\"><sheets>",
    ) + sheets_list(names, 0) + lit("</sheets></workbook>")
}

pub open spec fn sheets_list(names: Seq<Seq<u8>>, i: int) -> Seq<u8>
    decreases names.len() - i,
{
    if i < 0 || i >= names.len() {
        Seq::empty()
    } else {
        lit("<sheet name=\"") + esc_bytes(names[i]) + lit("\" sheetId=\"") + dec_of((i + 1) as nat)
            + lit("\" r:id=\"rId") + dec_of((i + 1) as nat) + lit("\"/>") + sheets_list(
            names,
            i + 1,
        )
    }
}

/// `xl/_rels/workbook.xml.rels`: one relationship per sheet, then styles
/// and the shared string table.
pub open spec fn wb_rels_xml(n_sheets: nat) -> Seq<u8> {
    xml_decl() + lit(
        "<Relationships xmlns=\"http://schemas.openxmlformats.org/package/2006/relationships\">",
    ) + rel_list(n_sheets as int, 0) + lit("<Relationship Id=\"rId") + dec_of(n_sheets + 1) + lit(
        "\" Type=\"http://schemas.openxmlformats.org/officeDocument/2006/relationships/styles\" Target=\"styles.xml\"/><Relationship Id=\"rId",
    ) + dec_of(n_sheets + 2) + lit(
        "\" Type=\"http://schemas.openxmlformats.org/officeDocument/2006/relationships/sharedStrings\" Target=\"sharedStrings.xml\"/></Relationships>",
    )
}

pub open spec fn rel_list(n: int, i: int) -> Seq<u8>
    decreases n - i,
{
    if i < 0 || i >= n {
        Seq::empty()
    } else {
        lit("<Relationship Id=\"rId") + dec_of((i + 1) as nat) + lit(
            "\" Type=\"http://schemas.openxmlformats.org/officeDocument/2006/relationships/worksheet\" Target=\"worksheets/sheet",
        ) + dec_of((i + 1) as nat) + lit(".xml\"/>") + rel_list(n, i + 1)
    }
}

/// `xl/sharedStrings.xml`: the interned strings in index order, escaped.
pub open spec fn sst_xml(strings: Seq<Seq<u8>>) -> Seq<u8> {
    xml_decl() + lit(
        "<sst xmlns=\"http://schemas.openxmlformats.org/spreadsheetml/2006/main\" count=\"",
    ) + dec_of(strings.len()) + lit("\" uniqueCount=\"") + dec_of(strings.len()) + lit("\">")
        + sst_items(strings) + lit("</sst>")
}

pub open spec fn sst_item(t: Seq<u8>) -> Seq<u8> {
    lit("<si><t xml:space=\"preserve\">") + esc_bytes(t) + lit("</t></si>")
}

/// The six-digit uppercase hex rendering of a 24-bit color.
pub open spec fn rgb_hex(c: u32) -> Seq<u8> {
    seq![
        hex_digit(((c >> 20) & 0xF) as u8),
        hex_digit(((c >> 16) & 0xF) as u8),
        hex_digit(((c >> 12) & 0xF) as u8),
        hex_digit(((c >> 8) & 0xF) as u8),
        hex_digit(((c >> 4) & 0xF) as u8),
        hex_digit((c & 0xF) as u8),
    ]
}

pub open spec fn font_xml(f: Format) -> Seq<u8> {
    lit("<font>") + (if f.bold {
        lit("<b/>")
    } else {
        Seq::empty()
    }) + (if f.italic {
        lit("<i/>")
    } else {
        Seq::empty()
    }) + (if f.underline {
        lit("<u/>")
    } else {
        Seq::empty()
    }) + lit("<sz val=\"") + dec_of(f.font_size as nat) + lit("\"/><color rgb=\"FF") + rgb_hex(
        f.font_color,
    ) + lit("\"/><name val=\"Calibri\"/></font>")
}

pub open spec fn fill_xml(f: Format) -> Seq<u8> {
    if f.fill_set {
        lit("<fill><patternFill patternType=\"solid\"><fgColor rgb=\"FF") + rgb_hex(f.fill_color)
            + lit("\"/><bgColor indexed=\"64\"/></patternFill></fill>")
    } else {
        lit("<fill><patternFill patternType=\"none\"/></fill>")
    }
}

pub open spec fn border_style_name(b: u8) -> Seq<u8> {
    if b == 1 {
        lit("thin")
    } else if b == 2 {
        lit("medium")
    } else if b == 3 {
        lit("dashed")
    } else if b == 4 {
        lit("dotted")
    } else {
        lit("thick")
    }
}

pub open spec fn border_xml(f: Format) -> Seq<u8> {
    if f.border == 0 {
        lit("<border><left/><right/><top/><bottom/><diagonal/></border>")
    } else {
        let side = lit(" style=\"") + border_style_name(f.border) + lit("\"/>");
        lit("<border><left") + side + lit("<right") + side + lit("<top") + side + lit("<bottom")
            + side + lit("<diagonal/></border>")
    }
}

pub open spec fn halign_name(a: u8) -> Seq<u8> {
    if a == 1 {
        lit("left")
    } else if a == 2 {
        lit("center")
    } else {
        lit("right")
    }
}

pub open spec fn valign_name(a: u8) -> Seq<u8> {
    if a == 1 {
        lit("top")
    } else {
        lit("center")
    }
}

/// One `cellXfs` entry. Entry `i + 1` refers to font, fill and border
/// `i + 1` (entry 0 of each collection is the default), so a cell with
/// format id `i` carries `s="i + 1"`.
pub open spec fn xf_ids(f: Format, i: int) -> Seq<u8> {
    lit("<xf numFmtId=\"") + dec_of(f.num_fmt as nat) + lit("\" fontId=\"") + dec_of((i + 1) as nat)
        + lit("\" fillId=\"") + dec_of((i + 2) as nat) + lit("\" borderId=\"") + dec_of(
        (i + 1) as nat,
    ) + lit("\" xfId=\"0\"")
}

pub open spec fn xf_flags(f: Format) -> Seq<u8> {
    (if f.num_fmt != 0 {
        lit(" applyNumberFormat=\"1\"")
    } else {
        Seq::empty()
    }) + lit(" applyFont=\"1\"") + (if f.fill_set {
        lit(" applyFill=\"1\"")
    } else {
        Seq::empty()
    }) + (if f.border != 0 {
        lit(" applyBorder=\"1\"")
    } else {
        Seq::empty()
    }) + (if f.align != 0 || f.valign != 0 {
        lit(" applyAlignment=\"1\"")
    } else {
        Seq::empty()
    }) + (if !f.locked {
        lit(" applyProtection=\"1\"")
    } else {
        Seq::empty()
    })
}

pub open spec fn xf_align(f: Format) -> Seq<u8> {
    if f.align != 0 || f.valign != 0 {
        lit("<alignment") + (if f.align != 0 {
            lit(" horizontal=\"") + halign_name(f.align) + lit("\"")
        } else {
            Seq::empty()
        }) + (if f.valign != 0 {
            lit(" vertical=\"") + valign_name(f.valign) + lit("\"")
        } else {
            Seq::empty()
        }) + lit("/>")
    } else {
        Seq::empty()
    }
}

pub open spec fn xf_body(f: Format) -> Seq<u8> {
    if f.align == 0 && f.valign == 0 && f.locked {
        lit("/>")
    } else {
        lit(">") + xf_align(f) + (if !f.locked {
            lit("<protection locked=\"0\"/>")
        } else {
            Seq::empty()
        }) + lit("</xf>")
    }
}

/// One `cellXfs` entry. Entry `i + 1` refers to font, fill and border
/// `i + 1` (entry 0 of each collection is the default), so a cell with
/// format id `i` carries `s="i + 1"`.
pub open spec fn xf_xml(f: Format, i: int) -> Seq<u8> {
    xf_ids(f, i) + xf_flags(f) + xf_body(f)
}

pub open spec fn xf_list(formats: Seq<Format>, i: int) -> Seq<u8>
    decreases formats.len() - i,
{
    if i < 0 || i >= formats.len() {
        Seq::empty()
    } else {
        xf_xml(formats[i], i) + xf_list(formats, i + 1)
    }
}

/// `xl/styles.xml`: a default entry plus one font, fill, border and `xf`
/// per registered format, indexes aligned.
pub open spec fn styles_xml(formats: Seq<Format>) -> Seq<u8> {
    xml_decl() + lit(
        "<styleSheet xmlns=\"http://schemas.openxmlformats.org/spreadsheetml/2006/main\"><fonts count=\"",
    ) + dec_of(formats.len() + 1) + lit(
        "\"><font><sz val=\"11\"/><color theme=\"1\"/><name val=\"Calibri\"/></font>",
    ) + fonts_cat(formats) + lit("</fonts><fills count=\"") + dec_of(
        formats.len() + 2,
    ) + lit(
        "\"><fill><patternFill patternType=\"none\"/></fill><fill><patternFill patternType=\"gray125\"/></fill>",
    ) + fills_cat(formats) + lit("</fills><borders count=\"") + dec_of(
        formats.len() + 1,
    ) + lit("\"><border><left/><right/><top/><bottom/><diagonal/></border>") + borders_cat(formats) + lit(
        "</borders><cellStyleXfs count=\"1\"><xf numFmtId=\"0\" fontId=\"0\" fillId=\"0\" borderId=\"0\"/></cellStyleXfs><cellXfs count=\"",
    ) + dec_of(formats.len() + 1) + lit(
        "\"><xf numFmtId=\"0\" fontId=\"0\" fillId=\"0\" borderId=\"0\" xfId=\"0\"/>",
    ) + xf_list(formats, 0) + lit(
        "</cellXfs><cellStyles count=\"1\"><cellStyle name=\"Normal\" xfId=\"0\" builtinId=\"0\"/></cellStyles></styleSheet>",
    )
}

/// The row a grid key belongs to, and the column of a cell key.
pub open spec fn row_of(k: u64) -> nat {
    (k / 16385) as nat
}

pub open spec fn col_of(k: u64) -> nat {
    ((k % 16385) - 1) as nat
}

/// Whether a grid key is a row-metadata slot.
pub open spec fn is_row_slot(k: u64) -> bool {
    k % 16385 == 0
}

pub open spec fn row_attrs(p: RowProps) -> Seq<u8> {
    (match p.height {
        Some(h) => lit(" ht=\"") + dec_of(h as nat) + lit("\" customHeight=\"1\""),
        None => Seq::empty(),
    }) + (if p.hidden {
        lit(" hidden=\"1\"")
    } else {
        Seq::empty()
    }) + (match p.format {
        Some(f) => lit(" s=\"") + dec_of(f as nat + 1) + lit("\" customFormat=\"1\""),
        None => Seq::empty(),
    })
}

/// The value-dependent tail of one cell element.
pub open spec fn cell_value_xml(v: CellValueV) -> Seq<u8> {
    match v {
        CellValueV::Number(t) => lit("><v>") + t + lit("</v></c>"),
        CellValueV::SharedString(i) => lit(" t=\"s\"><v>") + dec_of(i as nat) + lit("</v></c>"),
        CellValueV::Boolean(b) => lit(" t=\"b\"><v>") + (if b {
            lit("1")
        } else {
            lit("0")
        }) + lit("</v></c>"),
        CellValueV::Formula(f, cached) => lit("><f>") + esc_bytes(f) + lit("</f>") + (match cached {
            Some(v) => lit("<v>") + v + lit("</v>"),
            None => Seq::empty(),
        }) + lit("</c>"),
        CellValueV::Blank => lit("/>"),
    }
}

/// One cell element.
pub open spec fn cell_xml(k: u64, c: CellV) -> Seq<u8> {
    lit("<c r=\"") + cell_ref(row_of(k), col_of(k)) + lit("\"") + (match c.format {
        Some(f) => lit(" s=\"") + dec_of(f as nat + 1) + lit("\""),
        None => Seq::empty(),
    }) + cell_value_xml(c.value)
}

/// What one grid entry contributes inside an open row.
pub open spec fn entry_xml(k: u64, e: EntryV) -> Seq<u8> {
    match e {
        EntryV::Props(_) => Seq::empty(),
        EntryV::Cell(c) => cell_xml(k, c),
    }
}

/// Opens a row element; a metadata slot as the row's first entry becomes
/// the row's attributes.
pub open spec fn row_open(k: u64, e: EntryV) -> Seq<u8> {
    lit("<row r=\"") + dec_of(row_of(k) + 1) + lit("\"") + (match e {
        EntryV::Props(p) => row_attrs(p),
        EntryV::Cell(_) => Seq::empty(),
    }) + lit(">")
}

/// The walk over the sorted grid that emits `sheetData` content: rows open
/// when their first key appears and close when the row changes or the grid
/// ends.
pub open spec fn sheet_data_walk(g: Seq<(u64, EntryV)>, cur: Option<nat>) -> Seq<u8>
    decreases g.len(),
{
    if g.len() == 0 {
        match cur {
            Some(_) => lit("</row>"),
            None => Seq::empty(),
        }
    } else {
        let k = g[0].0;
        let e = g[0].1;
        let r = row_of(k);
        if cur == Some(r) {
            entry_xml(k, e) + sheet_data_walk(g.skip(1), Some(r))
        } else {
            (match cur {
                Some(_) => lit("</row>"),
                None => Seq::empty(),
            }) + row_open(k, e) + entry_xml(k, e) + sheet_data_walk(g.skip(1), Some(r))
        }
    }
}

pub open spec fn merge_item(m: Merge) -> Seq<u8> {
    lit("<mergeCell ref=\"") + cell_ref(m.r1 as nat, m.c1 as nat) + lit(":") + cell_ref(
        m.r2 as nat,
        m.c2 as nat,
    ) + lit("\"/>")
}

pub open spec fn merges_xml(ms: Seq<Merge>) -> Seq<u8> {
    if ms.len() == 0 {
        Seq::empty()
    } else {
        lit("<mergeCells count=\"") + dec_of(ms.len()) + lit("\">") + merges_cat(ms) + lit("</mergeCells>")
    }
}

pub open spec fn col_item(p: (u64, ColProps)) -> Seq<u8> {
    lit("<col min=\"") + dec_of(p.0 as nat + 1) + lit("\" max=\"") + dec_of(p.1.last_col as nat + 1)
        + lit("\"") + (match p.1.width {
        Some(w) => lit(" width=\"") + dec_of(w as nat) + lit("\" customWidth=\"1\""),
        None => Seq::empty(),
    }) + (if p.1.hidden {
        lit(" hidden=\"1\"")
    } else {
        Seq::empty()
    }) + (match p.1.format {
        Some(f) => lit(" style=\"") + dec_of(f as nat + 1) + lit("\""),
        None => Seq::empty(),
    }) + lit("/>")
}

pub open spec fn cols_xml(cols: Seq<(u64, ColProps)>) -> Seq<u8> {
    if cols.len() == 0 {
        Seq::empty()
    } else {
        lit("<cols>") + cols_cat(cols) + lit("</cols>")
    }
}

pub open spec fn validation_kind_name(k: u8) -> Seq<u8> {
    if k == 1 {
        lit("whole")
    } else if k == 2 {
        lit("decimal")
    } else if k == 3 {
        lit("list")
    } else if k == 4 {
        lit("date")
    } else if k == 5 {
        lit("time")
    } else if k == 6 {
        lit("textLength")
    } else {
        lit("custom")
    }
}

pub open spec fn validation_item(v: ValidationV) -> Seq<u8> {
    lit("<dataValidation type=\"") + validation_kind_name(v.kind) + lit("\" sqref=\"") + cell_ref(
        v.r1 as nat,
        v.c1 as nat,
    ) + lit(":") + cell_ref(v.r2 as nat, v.c2 as nat) + lit("\"><formula1>") + esc_bytes(v.formula1)
        + lit("</formula1>") + (match v.formula2 {
        Some(f) => lit("<formula2>") + esc_bytes(f) + lit("</formula2>"),
        None => Seq::empty(),
    }) + lit("</dataValidation>")
}

pub open spec fn validations_xml(vs: Seq<ValidationV>) -> Seq<u8> {
    if vs.len() == 0 {
        Seq::empty()
    } else {
        lit("<dataValidations count=\"") + dec_of(vs.len()) + lit("\">") + validations_cat(vs) + lit("</dataValidations>")
    }
}

pub open spec fn pane_xml(freeze: Option<(u32, u16)>) -> Seq<u8> {
    match freeze {
        Some(p) => {
            if p.0 == 0 && p.1 == 0 {
                Seq::empty()
            } else {
                lit("<pane xSplit=\"") + dec_of(p.1 as nat) + lit("\" ySplit=\"") + dec_of(
                    p.0 as nat,
                ) + lit("\" topLeftCell=\"") + cell_ref(p.0 as nat, p.1 as nat) + lit(
                    "\" activePane=\"bottomRight\" state=\"frozen\"/>",
                )
            }
        },
        None => Seq::empty(),
    }
}

pub open spec fn selection_xml(sel: Option<(u32, u16, u32, u16)>) -> Seq<u8> {
    match sel {
        Some(s) => lit("<selection activeCell=\"") + cell_ref(s.0 as nat, s.1 as nat) + lit(
            "\" sqref=\"",
        ) + cell_ref(s.0 as nat, s.1 as nat) + lit(":") + cell_ref(s.2 as nat, s.3 as nat) + lit(
            "\"/>",
        ),
        None => Seq::empty(),
    }
}

/// One worksheet part: views, column metadata, the cell grid in row-major
/// order, merges, then validations.
pub open spec fn sheet_xml(
    grid: Seq<(u64, EntryV)>,
    merges: Seq<Merge>,
    cols: Seq<(u64, ColProps)>,
    validations: Seq<ValidationV>,
    freeze: Option<(u32, u16)>,
    selection: Option<(u32, u16, u32, u16)>,
) -> Seq<u8> {
    xml_decl() + lit(
        "<worksheet xmlns=\"http://schemas.openxmlformats.org/spreadsheetml/2006/main\" xmlns:r=\"http://schemas.openxmlformats.org/officeDocument/2006/relationships\"><sheetViews><sheetView workbookViewId=\"0\">",
    ) + pane_xml(freeze) + selection_xml(selection) + lit("</sheetView></sheetViews>") + cols_xml(
        cols,
    ) + lit("<sheetData>") + sheet_data_walk(grid, None) + lit("</sheetData>") + merges_xml(merges)
        + validations_xml(validations) + lit("</worksheet>")
}

/// The names of the sheets, in tab order.
pub open spec fn names_of(sheets: Seq<Worksheet>) -> Seq<Seq<u8>> {
    Seq::new(sheets.len(), |i: int| sheets[i].name@)
}

pub open spec fn validations_view(vs: Seq<crate::sheet::Validation>) -> Seq<ValidationV> {
    Seq::new(vs.len(), |i: int| vs[i]@)
}

pub fn build_content_types(n_sheets: usize) -> (r: Vec<u8>)
    ensures
        r@ == content_types_xml(n_sheets as nat),
{
    let ghost idxs = Seq::new(n_sheets as nat, |i: int| i);
    let mut out: Vec<u8> = Vec::new();
    push_lit(&mut out, "<?xml version=\"1.0\" encoding=\"UTF-8\" standalone=\"yes\"?>\n");
    push_lit(
        &mut out,
        "<Types xmlns=\"http://schemas.openxmlformats.org/package/2006/content-types\"><Default Extension=\"rels\" ContentType=\"application/vnd.openxmlformats-package.relationships+xml\"/><Default Extension=\"xml\" ContentType=\"application/xml\"/><Override PartName=\"/xl/workbook.xml\" ContentType=\"application/vnd.openxmlformats-officedocument.spreadsheetml.sheet.main+xml\"/>",
    );
    let ghost base = out@;
    let mut i: usize = 0;
    while i < n_sheets
        invariant
            i <= n_sheets,
            idxs == Seq::new(n_sheets as nat, |i: int| i),
            out@ == base + overrides_cat(idxs.take(i as int)),
        decreases n_sheets - i,
    {
        let ghost pre = out@;
        push_lit(&mut out, "<Override PartName=\"/xl/worksheets/sheet");
        push_dec(&mut out, i as u64 + 1);
        push_lit(
            &mut out,
            ".xml\" ContentType=\"application/vnd.openxmlformats-officedocument.spreadsheetml.worksheet+xml\"/>",
        );
        proof {
            assert(out@ =~= pre + sheet_override(i as int));
            assert(idxs.take(i + 1).drop_last() =~= idxs.take(i as int));
            assert(idxs.take(i + 1).last() == i as int);
            assert(idxs.take(i + 1).last() == i as int);
            assert(out@ =~= base + overrides_cat(idxs.take(i + 1)));
        }
        i = i + 1;
    }
    proof {
        assert(idxs.take(n_sheets as int) =~= idxs);
    }
    push_lit(
        &mut out,
        "<Override PartName=\"/xl/styles.xml\" ContentType=\"application/vnd.openxmlformats-officedocument.spreadsheetml.styles+xml\"/><Override PartName=\"/xl/sharedStrings.xml\" ContentType=\"application/vnd.openxmlformats-officedocument.spreadsheetml.sharedStrings+xml\"/><Override PartName=\"/docProps/core.xml\" ContentType=\"application/vnd.openxmlformats-package.core-properties+xml\"/><Override PartName=\"/docProps/app.xml\" ContentType=\"application/vnd.openxmlformats-officedocument.extended-properties+xml\"/></Types>",
    );
    proof {
        assert(out@ =~= content_types_xml(n_sheets as nat));
    }
    out
}

pub fn build_root_rels() -> (r: Vec<u8>)
    ensures
        r@ == root_rels_xml(),
{
    let mut out: Vec<u8> = Vec::new();
    push_lit(&mut out, "<?xml version=\"1.0\" encoding=\"UTF-8\" standalone=\"yes\"?>\n");
    push_lit(
        &mut out,
        "<Relationships xmlns=\"http://schemas.openxmlformats.org/package/2006/relationships\"><Relationship Id=\"rId1\" Type=\"http://schemas.openxmlformats.org/officeDocument/2006/relationships/officeDocument\" Target=\"xl/workbook.xml\"/><Relationship Id=\"rId2\" Type=\"http://schemas.openxmlformats.org/package/2006/relationships/metadata/core-properties\" Target=\"docProps/core.xml\"/><Relationship Id=\"rId3\" Type=\"http://schemas.openxmlformats.org/officeDocument/2006/relationships/extended-properties\" Target=\"docProps/app.xml\"/></Relationships>",
    );
    proof {
        assert(out@ =~= root_rels_xml());
    }
    out
}

pub fn build_core() -> (r: Vec<u8>)
    ensures
        r@ == core_xml(),
{
    let mut out: Vec<u8> = Vec::new();
    push_lit(&mut out, "<?xml version=\"1.0\" encoding=\"UTF-8\" standalone=\"yes\"?>\n");
    push_lit(
        &mut out,
        "<cp:coreProperties xmlns:cp=\"http://schemas.openxmlformats.org/package/2006/metadata/core-properties\" xmlns:dc=\"http://purl.org/dc/elements/1.1/\" xmlns:dcterms=\"http://purl.org/dc/terms/\" xmlns:xsi=\"http://www.w3.org/2001/XMLSchema-instance\"><dcterms:created xsi:type=\"dcterms:W3CDTF\">2000-01-01T00:00:00Z</dcterms:created></cp:coreProperties>",
    );
    proof {
        assert(out@ =~= core_xml());
    }
    out
}

pub fn build_app() -> (r: Vec<u8>)
    ensures
        r@ == app_xml(),
{
    let mut out: Vec<u8> = Vec::new();
    push_lit(&mut out, "<?xml version=\"1.0\" encoding=\"UTF-8\" standalone=\"yes\"?>\n");
    push_lit(
        &mut out,
        "<Properties xmlns=\"http://schemas.openxmlformats.org/officeDocument/2006/extended-properties\"><Application>xlsxwriter</Application></Properties>",
    );
    proof {
        assert(out@ =~= app_xml());
    }
    out
}

pub fn build_workbook_xml(sheets: &Vec<Worksheet>) -> (r: Vec<u8>)
    ensures
        r@ == workbook_xml(names_of(sheets@)),
{
    let ghost names = names_of(sheets@);
    let mut out: Vec<u8> = Vec::new();
    push_lit(&mut out, "<?xml version=\"1.0\" encoding=\"UTF-8\" standalone=\"yes\"?>\n");
    push_lit(
        &mut out,
        "<workbook xmlns=\"http://schemas.openxmlformats.org/spreadsheetml/2006/main\" xmlns:r=\"http://schemas.openxmlformats.org/officeDocument/2006/relationships\"><sheets>",
    );
    let ghost base = out@;
    let mut i: usize = 0;
    while i < sheets.len()
        invariant
            i <= sheets@.len(),
            names == names_of(sheets@),
            base + sheets_list(names, 0) == out@ + sheets_list(names, i as int),
        decreases sheets@.len() - i,
    {
        let ghost pre = out@;
        push_lit(&mut out, "<sheet name=\"");
        push_esc(&mut out, sheets[i].name.as_slice());
        push_lit(&mut out, "\" sheetId=\"");
        push_dec(&mut out, i as u64 + 1);
        push_lit(&mut out, "\" r:id=\"rId");
        push_dec(&mut out, i as u64 + 1);
        push_lit(&mut out, "\"/>");
        proof {
            assert(names[i as int] == sheets@[i as int].name@);
            assert(out@ =~= pre + (lit("<sheet name=\"") + esc_bytes(names[i as int]) + lit(
                "\" sheetId=\"",
            ) + dec_of((i + 1) as nat) + lit("\" r:id=\"rId") + dec_of((i + 1) as nat) + lit(
                "\"/>",
            )));
            assert(base + sheets_list(names, 0) =~= out@ + sheets_list(names, i + 1));
        }
        i = i + 1;
    }
    push_lit(&mut out, "</sheets></workbook>");
    proof {
        assert(sheets_list(names, sheets@.len() as int) =~= Seq::<u8>::empty());
        assert(out@ =~= workbook_xml(names));
    }
    out
}

pub fn build_wb_rels(n_sheets: usize) -> (r: Vec<u8>)
    requires
        n_sheets < 0xFFFFFFFF,
    ensures
        r@ == wb_rels_xml(n_sheets as nat),
{
    let mut out: Vec<u8> = Vec::new();
    push_lit(&mut out, "<?xml version=\"1.0\" encoding=\"UTF-8\" standalone=\"yes\"?>\n");
    push_lit(
        &mut out,
        "<Relationships xmlns=\"http://schemas.openxmlformats.org/package/2006/relationships\">",
    );
    let ghost base = out@;
    let mut i: usize = 0;
    while i < n_sheets
        invariant
            i <= n_sheets,
            n_sheets < 0xFFFFFFFF,
            base + rel_list(n_sheets as int, 0) == out@ + rel_list(n_sheets as int, i as int),
        decreases n_sheets - i,
    {
        let ghost pre = out@;
        push_lit(&mut out, "<Relationship Id=\"rId");
        push_dec(&mut out, i as u64 + 1);
        push_lit(
            &mut out,
            "\" Type=\"http://schemas.openxmlformats.org/officeDocument/2006/relationships/worksheet\" Target=\"worksheets/sheet",
        );
        push_dec(&mut out, i as u64 + 1);
        push_lit(&mut out, ".xml\"/>");
        proof {
            assert(base + rel_list(n_sheets as int, 0) =~= out@ + rel_list(
                n_sheets as int,
                i + 1,
            ));
        }
        i = i + 1;
    }
    proof {
        assert(rel_list(n_sheets as int, n_sheets as int) =~= Seq::<u8>::empty());
    }
    push_lit(&mut out, "<Relationship Id=\"rId");
    push_dec(&mut out, n_sheets as u64 + 1);
    push_lit(
        &mut out,
        "\" Type=\"http://schemas.openxmlformats.org/officeDocument/2006/relationships/styles\" Target=\"styles.xml\"/><Relationship Id=\"rId",
    );
    push_dec(&mut out, n_sheets as u64 + 2);
    push_lit(
        &mut out,
        "\" Type=\"http://schemas.openxmlformats.org/officeDocument/2006/relationships/sharedStrings\" Target=\"sharedStrings.xml\"/></Relationships>",
    );
    proof {
        assert(out@ =~= wb_rels_xml(n_sheets as nat));
    }
    out
}

pub fn build_sst(strings: &crate::intern::ByteInterner) -> (r: Vec<u8>)
    ensures
        r@ == sst_xml(strings@),
{
    let mut out: Vec<u8> = Vec::new();
    push_lit(&mut out, "<?xml version=\"1.0\" encoding=\"UTF-8\" standalone=\"yes\"?>\n");
    push_lit(
        &mut out,
        "<sst xmlns=\"http://schemas.openxmlformats.org/spreadsheetml/2006/main\" count=\"",
    );
    push_dec(&mut out, strings.len() as u64);
    push_lit(&mut out, "\" uniqueCount=\"");
    push_dec(&mut out, strings.len() as u64);
    push_lit(&mut out, "\">");
    let ghost base = out@;
    let n = strings.len();
    let mut i: usize = 0;
    while i < n
        invariant
            i <= n,
            n == strings@.len(),
            out@ == base + sst_items(strings@.take(i as int)),
        decreases n - i,
    {
        let ghost pre = out@;
        push_lit(&mut out, "<si><t xml:space=\"preserve\">");
        push_esc(&mut out, strings.entry(i).as_slice());
        push_lit(&mut out, "</t></si>");
        proof {
            assert(out@ =~= pre + sst_item(strings@[i as int]));
            assert(strings@.take(i + 1).drop_last() =~= strings@.take(i as int));
            assert(strings@.take(i + 1).last() == strings@[i as int]);
            assert(out@ =~= base + sst_items(strings@.take(i + 1)));
        }
        i = i + 1;
    }
    push_lit(&mut out, "</sst>");
    proof {
        assert(strings@.take(strings@.len() as int) =~= strings@);
        assert(out@ =~= sst_xml(strings@));
    }
    out
}

fn push_rgb(out: &mut Vec<u8>, c: u32)
    ensures
        final(out)@ == old(out)@ + rgb_hex(c),
{
    proof {
        assert((c >> 20) & 0xF < 16 && (c >> 16) & 0xF < 16 && (c >> 12) & 0xF < 16 && (c >> 8)
            & 0xF < 16 && (c >> 4) & 0xF < 16 && c & 0xF < 16) by (bit_vector);
    }
    let d0: u8 = ((c >> 20) & 0xF) as u8;
    let d1: u8 = ((c >> 16) & 0xF) as u8;
    let d2: u8 = ((c >> 12) & 0xF) as u8;
    let d3: u8 = ((c >> 8) & 0xF) as u8;
    let d4: u8 = ((c >> 4) & 0xF) as u8;
    let d5: u8 = (c & 0xF) as u8;
    out.push(if d0 < 10 { 48 + d0 } else { 55 + d0 });
    out.push(if d1 < 10 { 48 + d1 } else { 55 + d1 });
    out.push(if d2 < 10 { 48 + d2 } else { 55 + d2 });
    out.push(if d3 < 10 { 48 + d3 } else { 55 + d3 });
    out.push(if d4 < 10 { 48 + d4 } else { 55 + d4 });
    out.push(if d5 < 10 { 48 + d5 } else { 55 + d5 });
    proof {
        assert(final(out)@ =~= old(out)@ + rgb_hex(c));
    }
}

fn push_font(out: &mut Vec<u8>, f: &Format)
    ensures
        final(out)@ == old(out)@ + font_xml(*f),
{
    push_lit(out, "<font>");
    if f.bold {
        push_lit(out, "<b/>");
    }
    if f.italic {
        push_lit(out, "<i/>");
    }
    if f.underline {
        push_lit(out, "<u/>");
    }
    push_lit(out, "<sz val=\"");
    push_dec(out, f.font_size as u64);
    push_lit(out, "\"/><color rgb=\"FF");
    push_rgb(out, f.font_color);
    push_lit(out, "\"/><name val=\"Calibri\"/></font>");
    proof {
        assert(final(out)@ =~= old(out)@ + font_xml(*f));
    }
}

fn push_fill(out: &mut Vec<u8>, f: &Format)
    ensures
        final(out)@ == old(out)@ + fill_xml(*f),
{
    if f.fill_set {
        push_lit(out, "<fill><patternFill patternType=\"solid\"><fgColor rgb=\"FF");
        push_rgb(out, f.fill_color);
        push_lit(out, "\"/><bgColor indexed=\"64\"/></patternFill></fill>");
        proof {
            assert(final(out)@ =~= old(out)@ + fill_xml(*f));
        }
    } else {
        push_lit(out, "<fill><patternFill patternType=\"none\"/></fill>");
    }
}

fn push_border(out: &mut Vec<u8>, f: &Format)
    ensures
        final(out)@ == old(out)@ + border_xml(*f),
{
    if f.border == 0 {
        push_lit(out, "<border><left/><right/><top/><bottom/><diagonal/></border>");
    } else {
        let name: &str = if f.border == 1 {
            "thin"
        } else if f.border == 2 {
            "medium"
        } else if f.border == 3 {
            "dashed"
        } else if f.border == 4 {
            "dotted"
        } else {
            "thick"
        };
        proof {
            assert(lit(name) == border_style_name(f.border));
        }
        push_lit(out, "<border><left");
        push_lit(out, " style=\"");
        push_lit(out, name);
        push_lit(out, "\"/>");
        push_lit(out, "<right");
        push_lit(out, " style=\"");
        push_lit(out, name);
        push_lit(out, "\"/>");
        push_lit(out, "<top");
        push_lit(out, " style=\"");
        push_lit(out, name);
        push_lit(out, "\"/>");
        push_lit(out, "<bottom");
        push_lit(out, " style=\"");
        push_lit(out, name);
        push_lit(out, "\"/>");
        push_lit(out, "<diagonal/></border>");
        proof {
            assert(final(out)@ =~= old(out)@ + border_xml(*f));
        }
    }
}

#[verifier::rlimit(100)]
#[verifier::spinoff_prover]
fn push_xf_ids(out: &mut Vec<u8>, f: &Format, i: usize)
    requires
        i < 0xFFFFFFFF,
    ensures
        final(out)@ == old(out)@ + xf_ids(*f, i as int),
{
    let ghost base = out@;
    push_lit(out, "<xf numFmtId=\"");
    push_dec(out, f.num_fmt as u64);
    push_lit(out, "\" fontId=\"");
    push_dec(out, i as u64 + 1);
    push_lit(out, "\" fillId=\"");
    push_dec(out, i as u64 + 2);
    push_lit(out, "\" borderId=\"");
    push_dec(out, i as u64 + 1);
    push_lit(out, "\" xfId=\"0\"");
    proof {
        assert(out@ =~= base + xf_ids(*f, i as int));
    }
}

#[verifier::rlimit(100)]
#[verifier::spinoff_prover]
fn push_xf_flags(out: &mut Vec<u8>, f: &Format)
    ensures
        final(out)@ == old(out)@ + xf_flags(*f),
{
    let ghost mid1 = out@;
    let ghost e = Seq::<u8>::empty();
    if f.num_fmt != 0 {
        push_lit(out, " applyNumberFormat=\"1\"");
    }
    let ghost a1 = (if f.num_fmt != 0 { lit(" applyNumberFormat=\"1\"") } else { e });
    proof {
        assert(out@ =~= mid1 + a1);
    }
    push_lit(out, " applyFont=\"1\"");
    let ghost a2 = a1 + lit(" applyFont=\"1\"");
    proof {
        assert(out@ =~= mid1 + a2);
    }
    if f.fill_set {
        push_lit(out, " applyFill=\"1\"");
    }
    let ghost a3 = a2 + (if f.fill_set { lit(" applyFill=\"1\"") } else { e });
    proof {
        assert(out@ =~= mid1 + a3);
    }
    if f.border != 0 {
        push_lit(out, " applyBorder=\"1\"");
    }
    let ghost a4 = a3 + (if f.border != 0 { lit(" applyBorder=\"1\"") } else { e });
    proof {
        assert(out@ =~= mid1 + a4);
    }
    if f.align != 0 || f.valign != 0 {
        push_lit(out, " applyAlignment=\"1\"");
    }
    let ghost a5 = a4 + (if f.align != 0 || f.valign != 0 {
        lit(" applyAlignment=\"1\"")
    } else {
        e
    });
    proof {
        assert(out@ =~= mid1 + a5);
    }
    if !f.locked {
        push_lit(out, " applyProtection=\"1\"");
    }
    proof {
        assert(out@ =~= mid1 + (a5 + (if !f.locked { lit(" applyProtection=\"1\"") } else { e })));
        assert(out@ == mid1 + xf_flags(*f));
    }
}

#[verifier::rlimit(100)]
#[verifier::spinoff_prover]
fn push_xf_align(out: &mut Vec<u8>, f: &Format)
    ensures
        final(out)@ == old(out)@ + xf_align(*f),
{
    let ghost e = Seq::<u8>::empty();
    let ghost mid3 = out@;
    if f.align != 0 || f.valign != 0 {
        push_lit(out, "<alignment");
        let ghost m0 = out@;
        if f.align != 0 {
            push_lit(out, " horizontal=\"");
            push_lit(out, if f.align == 1 {
                "left"
            } else if f.align == 2 {
                "center"
            } else {
                "right"
            });
            push_lit(out, "\"");
            proof {
                assert(lit(if f.align == 1 {
                    "left"
                } else if f.align == 2 {
                    "center"
                } else {
                    "right"
                }) == halign_name(f.align));
            }
        }
        let ghost b1 = (if f.align != 0 {
            lit(" horizontal=\"") + halign_name(f.align) + lit("\"")
        } else {
            e
        });
        proof {
            assert(out@ =~= m0 + b1);
        }
        if f.valign != 0 {
            push_lit(out, " vertical=\"");
            push_lit(out, if f.valign == 1 { "top" } else { "center" });
            push_lit(out, "\"");
        }
        let ghost b2 = b1 + (if f.valign != 0 {
            lit(" vertical=\"") + valign_name(f.valign) + lit("\"")
        } else {
            e
        });
        proof {
            assert(out@ =~= m0 + b2);
        }
        push_lit(out, "/>");
        proof {
            assert(out@ =~= mid3 + (lit("<alignment") + b2 + lit("/>")));
            assert(out@ == mid3 + xf_align(*f));
        }
    }
}

#[verifier::rlimit(100)]
#[verifier::spinoff_prover]
fn push_xf_body(out: &mut Vec<u8>, f: &Format)
    ensures
        final(out)@ == old(out)@ + xf_body(*f),
{
    let ghost e = Seq::<u8>::empty();
    let ghost mid2 = out@;
    if f.align == 0 && f.valign == 0 && f.locked {
        push_lit(out, "/>");
        proof {
            assert(out@ == mid2 + xf_body(*f));
        }
    } else {
        push_lit(out, ">");
        push_xf_align(out, f);
        let ghost mid4 = out@;
        if !f.locked {
            push_lit(out, "<protection locked=\"0\"/>");
        }
        proof {
            assert(out@ =~= mid4 + (if !f.locked { lit("<protection locked=\"0\"/>") } else { e }));
        }
        push_lit(out, "</xf>");
        proof {
            assert(out@ =~= mid2 + (lit(">") + xf_align(*f) + (if !f.locked {
                lit("<protection locked=\"0\"/>")
            } else {
                e
            }) + lit("</xf>")));
            assert(out@ == mid2 + xf_body(*f));
        }
    }
}

fn push_xf(out: &mut Vec<u8>, f: &Format, i: usize)
    requires
        i < 0xFFFFFFFF,
    ensures
        final(out)@ == old(out)@ + xf_xml(*f, i as int),
{
    push_xf_ids(out, f, i);
    push_xf_flags(out, f);
    push_xf_body(out, f);
    proof {
        assert(final(out)@ =~= old(out)@ + xf_xml(*f, i as int));
    }
}

pub fn build_styles(formats: &crate::style::FormatRegistry) -> (r: Vec<u8>)
    requires
        formats@.len() < 0xFFFFFFFF,
    ensures
        r@ == styles_xml(formats@),
{
    let n = formats.len();
    let mut out: Vec<u8> = Vec::new();
    push_lit(&mut out, "<?xml version=\"1.0\" encoding=\"UTF-8\" standalone=\"yes\"?>\n");
    push_lit(
        &mut out,
        "<styleSheet xmlns=\"http://schemas.openxmlformats.org/spreadsheetml/2006/main\"><fonts count=\"",
    );
    push_dec(&mut out, n as u64 + 1);
    push_lit(&mut out, "\"><font><sz val=\"11\"/><color theme=\"1\"/><name val=\"Calibri\"/></font>");
    let ghost base1 = out@;
    let mut i: usize = 0;
    while i < n
        invariant
            i <= n,
            n == formats@.len(),
            n < 0xFFFFFFFF,
            out@ == base1 + fonts_cat(formats@.take(i as int)),
        decreases n - i,
    {
        let ghost pre = out@;
        push_font(&mut out, formats.get(i as u32));
        proof {
            assert(formats@.take(i + 1).drop_last() =~= formats@.take(i as int));
            assert(formats@.take(i + 1).last() == formats@[i as int]);
            assert(out@ =~= base1 + fonts_cat(formats@.take(i + 1)));
        }
        i = i + 1;
    }
    proof {
        assert(formats@.take(n as int) =~= formats@);
    }
    push_lit(&mut out, "</fonts><fills count=\"");
    push_dec(&mut out, n as u64 + 2);
    push_lit(
        &mut out,
        "\"><fill><patternFill patternType=\"none\"/></fill><fill><patternFill patternType=\"gray125\"/></fill>",
    );
    let ghost base2 = out@;
    i = 0;
    while i < n
        invariant
            i <= n,
            n == formats@.len(),
            n < 0xFFFFFFFF,
            out@ == base2 + fills_cat(formats@.take(i as int)),
        decreases n - i,
    {
        push_fill(&mut out, formats.get(i as u32));
        proof {
            assert(formats@.take(i + 1).drop_last() =~= formats@.take(i as int));
            assert(formats@.take(i + 1).last() == formats@[i as int]);
            assert(out@ =~= base2 + fills_cat(formats@.take(i + 1)));
        }
        i = i + 1;
    }
    proof {
        assert(formats@.take(n as int) =~= formats@);
    }
    push_lit(&mut out, "</fills><borders count=\"");
    push_dec(&mut out, n as u64 + 1);
    push_lit(&mut out, "\"><border><left/><right/><top/><bottom/><diagonal/></border>");
    let ghost base3 = out@;
    i = 0;
    while i < n
        invariant
            i <= n,
            n == formats@.len(),
            n < 0xFFFFFFFF,
            out@ == base3 + borders_cat(formats@.take(i as int)),
        decreases n - i,
    {
        push_border(&mut out, formats.get(i as u32));
        proof {
            assert(formats@.take(i + 1).drop_last() =~= formats@.take(i as int));
            assert(formats@.take(i + 1).last() == formats@[i as int]);
            assert(out@ =~= base3 + borders_cat(formats@.take(i + 1)));
        }
        i = i + 1;
    }
    proof {
        assert(formats@.take(n as int) =~= formats@);
    }
    push_lit(
        &mut out,
        "</borders><cellStyleXfs count=\"1\"><xf numFmtId=\"0\" fontId=\"0\" fillId=\"0\" borderId=\"0\"/></cellStyleXfs><cellXfs count=\"",
    );
    push_dec(&mut out, n as u64 + 1);
    push_lit(
        &mut out,
        "\"><xf numFmtId=\"0\" fontId=\"0\" fillId=\"0\" borderId=\"0\" xfId=\"0\"/>",
    );
    let ghost base4 = out@;
    i = 0;
    while i < n
        invariant
            i <= n,
            n == formats@.len(),
            n < 0xFFFFFFFF,
            base4 + xf_list(formats@, 0) == out@ + xf_list(formats@, i as int),
        decreases n - i,
    {
        push_xf(&mut out, formats.get(i as u32), i);
        proof {
            assert(base4 + xf_list(formats@, 0) =~= out@ + xf_list(formats@, i + 1));
        }
        i = i + 1;
    }
    proof {
        assert(xf_list(formats@, n as int) =~= Seq::<u8>::empty());
    }
    push_lit(
        &mut out,
        "</cellXfs><cellStyles count=\"1\"><cellStyle name=\"Normal\" xfId=\"0\" builtinId=\"0\"/></cellStyles></styleSheet>",
    );
    proof {
        assert(out@ =~= styles_xml(formats@));
    }
    out
}

fn push_cell_value(out: &mut Vec<u8>, v: &CellValue)
    ensures
        final(out)@ == old(out)@ + cell_value_xml(v@),
{
    let ghost mid2 = out@;
    match v {
        CellValue::Number(t) => {
            push_lit(out, "><v>");
            push_bytes(out, t.as_slice());
            push_lit(out, "</v></c>");
            proof {
                assert(out@ =~= mid2 + cell_value_xml(v@));
            }
        },
        CellValue::SharedString(i) => {
            push_lit(out, " t=\"s\"><v>");
            push_dec(out, *i as u64);
            push_lit(out, "</v></c>");
            proof {
                assert(out@ =~= mid2 + cell_value_xml(v@));
            }
        },
        CellValue::Boolean(b) => {
            push_lit(out, " t=\"b\"><v>");
            push_lit(out, if *b { "1" } else { "0" });
            push_lit(out, "</v></c>");
            proof {
                assert(out@ =~= mid2 + cell_value_xml(v@));
            }
        },
        CellValue::Formula(f, cached) => {
            push_lit(out, "><f>");
            push_esc(out, f.as_slice());
            push_lit(out, "</f>");
            let ghost m0 = out@;
            match cached {
                Some(cv) => {
                    push_lit(out, "<v>");
                    push_bytes(out, cv.as_slice());
                    push_lit(out, "</v>");
                },
                None => {},
            }
            proof {
                assert(out@ =~= m0 + (match v@ {
                    CellValueV::Formula(_, cached2) => match cached2 {
                        Some(w) => lit("<v>") + w + lit("</v>"),
                        None => Seq::<u8>::empty(),
                    },
                    _ => Seq::<u8>::empty(),
                }));
            }
            push_lit(out, "</c>");
            proof {
                assert(out@ =~= mid2 + cell_value_xml(v@));
            }
        },
        CellValue::Blank => {
            push_lit(out, "/>");
        },
    }
}

fn push_cell(out: &mut Vec<u8>, k: u64, c: &Cell)
    requires
        k < crate::sheet::GRID_KEY_BOUND,
        k % 16385 != 0,
    ensures
        final(out)@ == old(out)@ + cell_xml(k, c@),
{
    let ghost base = out@;
    push_lit(out, "<c r=\"");
    let row: u32 = (k / 16385) as u32;
    let col: u16 = (k % 16385 - 1) as u16;
    push_cell_ref(out, row, col);
    push_lit(out, "\"");
    proof {
        assert(out@ =~= base + (lit("<c r=\"") + cell_ref(row_of(k), col_of(k)) + lit("\"")));
    }
    let ghost mid1 = out@;
    match &c.format {
        Some(f) => {
            push_lit(out, " s=\"");
            push_dec(out, *f as u64 + 1);
            push_lit(out, "\"");
        },
        None => {},
    }
    proof {
        assert(out@ =~= mid1 + (match c@.format {
            Some(f) => lit(" s=\"") + dec_of(f as nat + 1) + lit("\""),
            None => Seq::<u8>::empty(),
        }));
    }
    push_cell_value(out, &c.value);
    proof {
        assert(out@ =~= base + cell_xml(k, c@));
    }
}

#[verifier::rlimit(100)]
#[verifier::spinoff_prover]
fn push_row_open(out: &mut Vec<u8>, k: u64, e: &Entry)
    requires
        k < crate::sheet::GRID_KEY_BOUND,
    ensures
        final(out)@ == old(out)@ + row_open(k, e@),
{
    let ghost base = out@;
    push_lit(out, "<row r=\"");
    let row: u64 = k / 16385;
    push_dec(out, row + 1);
    push_lit(out, "\"");
    let ghost mid = out@;
    match e {
        Entry::Props(p) => {
            let ghost m0 = out@;
            let ghost emp = Seq::<u8>::empty();
            match &p.height {
                Some(h) => {
                    push_lit(out, " ht=\"");
                    push_dec(out, *h as u64);
                    push_lit(out, "\" customHeight=\"1\"");
                },
                None => {},
            }
            let ghost h1 = (match p.height {
                Some(h) => lit(" ht=\"") + dec_of(h as nat) + lit("\" customHeight=\"1\""),
                None => emp,
            });
            proof {
                assert(out@ =~= m0 + h1);
            }
            if p.hidden {
                push_lit(out, " hidden=\"1\"");
            }
            let ghost h2 = h1 + (if p.hidden {
                lit(" hidden=\"1\"")
            } else {
                emp
            });
            proof {
                assert(out@ =~= m0 + h2);
            }
            match &p.format {
                Some(f) => {
                    push_lit(out, " s=\"");
                    push_dec(out, *f as u64 + 1);
                    push_lit(out, "\" customFormat=\"1\"");
                },
                None => {},
            }
            proof {
                assert(out@ =~= m0 + (h2 + (match p.format {
                    Some(f) => lit(" s=\"") + dec_of(f as nat + 1) + lit("\" customFormat=\"1\""),
                    None => emp,
                })));
                assert(out@ == mid + row_attrs(*p));
            }
        },
        Entry::Cell(_) => {},
    }
    push_lit(out, ">");
    proof {
        assert(out@ =~= base + row_open(k, e@));
    }
}

/// Emits `sheetData` content by walking the sorted grid once.
#[verifier::rlimit(100)]
#[verifier::spinoff_prover]
fn push_sheet_data(out: &mut Vec<u8>, grid: &crate::sortedmap::SortedMap<Entry>)
    requires
        grid.wf(),
        forall|i: int|
            0 <= i < grid@.len() ==> (#[trigger] grid@[i]).0 < crate::sheet::GRID_KEY_BOUND,
        forall|i: int|
            0 <= i < grid@.len() ==> (((#[trigger] grid@[i]).0 % 16385 == 0) <==> grid@[i].1
                is Props),
    ensures
        final(out)@ == old(out)@ + sheet_data_walk(grid@, None),
{
    let ghost base = out@;
    let ghost g = grid@;
    let n = grid.len();
    let mut cur: Option<u32> = None;
    let mut i: usize = 0;
    proof {
        assert(g.skip(0) =~= g);
    }
    while i < n
        invariant
            i <= n,
            n == g.len(),
            g == grid@,
            grid.wf(),
            forall|j: int| 0 <= j < g.len() ==> (#[trigger] g[j]).0 < crate::sheet::GRID_KEY_BOUND,
            forall|j: int|
                0 <= j < g.len() ==> (((#[trigger] g[j]).0 % 16385 == 0) <==> g[j].1 is Props),
            base + sheet_data_walk(g, None) == out@ + sheet_data_walk(
                g.skip(i as int),
                match cur {
                    Some(r) => Some(r as nat),
                    None => None,
                },
            ),
        decreases n - i,
    {
        let entry = grid.at(i);
        let k = entry.0;
        proof {
            assert(g[i as int].0 == k);
            assert(g.skip(i as int)[0] == g[i as int]);
            assert(g.skip(i as int).skip(1) =~= g.skip(i + 1));
        }
        let r: u32 = (k / 16385) as u32;
        let same = match cur {
            Some(c) => c == r,
            None => false,
        };
        if !same {
            match cur {
                Some(_) => {
                    push_lit(out, "</row>");
                },
                None => {},
            }
            push_row_open(out, k, &entry.1);
        }
        match &entry.1 {
            Entry::Cell(c) => {
                proof {
                    assert(g[i as int].1 is Cell);
                    assert(k % 16385 != 0);
                }
                push_cell(out, k, c);
            },
            Entry::Props(_) => {},
        }
        cur = Some(r);
        proof {
            assert(g[i as int].1 == entry.1@);
            assert(base + sheet_data_walk(g, None) =~= out@ + sheet_data_walk(
                g.skip(i + 1),
                Some(r as nat),
            ));
        }
        i = i + 1;
    }
    proof {
        assert(g.skip(n as int) =~= Seq::<(u64, EntryV)>::empty());
    }
    match cur {
        Some(_) => {
            push_lit(out, "</row>");
        },
        None => {},
    }
    proof {
        assert(final(out)@ =~= old(out)@ + sheet_data_walk(g, None));
    }
}

#[verifier::rlimit(100)]
#[verifier::spinoff_prover]
fn push_col_item(out: &mut Vec<u8>, key: u64, p: &ColProps)
    requires
        key < 16384,
    ensures
        final(out)@ == old(out)@ + col_item((key, *p)),
{
    let ghost base = out@;
    push_lit(out, "<col min=\"");
    push_dec(out, key + 1);
    push_lit(out, "\" max=\"");
    push_dec(out, p.last_col as u64 + 1);
    push_lit(out, "\"");
    let ghost ma = out@;
    match &p.width {
        Some(w) => {
            push_lit(out, " width=\"");
            push_dec(out, *w as u64);
            push_lit(out, "\" customWidth=\"1\"");
        },
        None => {},
    }
    proof {
        assert(out@ =~= ma + (match p.width {
            Some(w) => lit(" width=\"") + dec_of(w as nat) + lit("\" customWidth=\"1\""),
            None => Seq::<u8>::empty(),
        }));
    }
    let ghost mb = out@;
    if p.hidden {
        push_lit(out, " hidden=\"1\"");
    }
    proof {
        assert(out@ =~= mb + (if p.hidden {
            lit(" hidden=\"1\"")
        } else {
            Seq::<u8>::empty()
        }));
    }
    let ghost mc = out@;
    match &p.format {
        Some(f) => {
            push_lit(out, " style=\"");
            push_dec(out, *f as u64 + 1);
            push_lit(out, "\"");
        },
        None => {},
    }
    proof {
        assert(out@ =~= mc + (match p.format {
            Some(f) => lit(" style=\"") + dec_of(f as nat + 1) + lit("\""),
            None => Seq::<u8>::empty(),
        }));
    }
    push_lit(out, "/>");
    proof {
        assert(out@ =~= base + col_item((key, *p)));
    }
}

fn push_cols_block(out: &mut Vec<u8>, cols: &crate::sortedmap::SortedMap<ColProps>)
    requires
        cols.wf(),
        forall|i: int| 0 <= i < cols@.len() ==> (#[trigger] cols@[i]).0 < 16384,
    ensures
        final(out)@ == old(out)@ + cols_xml(cols@),
{
    let n = cols.len();
    if n == 0 {
        return ;
    }
    let ghost m3 = out@;
    push_lit(out, "<cols>");
    let ghost cbase = out@;
    let mut i: usize = 0;
    while i < n
        invariant
            i <= n,
            n == cols@.len(),
            cols.wf(),
            forall|j: int| 0 <= j < cols@.len() ==> (#[trigger] cols@[j]).0 < 16384,
            out@ == cbase + cols_cat(cols@.take(i as int)),
        decreases n - i,
    {
        let entry = cols.at(i);
        let ghost pre = out@;
        push_col_item(out, entry.0, &entry.1);
        proof {
            assert((entry.0, entry.1@) == cols@[i as int]);
            assert(out@ =~= pre + col_item(cols@[i as int]));
            assert(cols@.take(i + 1).drop_last() =~= cols@.take(i as int));
            assert(cols@.take(i + 1).last() == cols@[i as int]);
            assert(out@ =~= cbase + cols_cat(cols@.take(i + 1)));
        }
        i = i + 1;
    }
    push_lit(out, "</cols>");
    proof {
        assert(cols@.take(n as int) =~= cols@);
        assert(final(out)@ =~= old(out)@ + cols_xml(cols@));
    }
}

fn push_merge_item(out: &mut Vec<u8>, m: Merge)
    ensures
        final(out)@ == old(out)@ + merge_item(m),
{
    push_lit(out, "<mergeCell ref=\"");
    push_cell_ref(out, m.r1, m.c1);
    push_lit(out, ":");
    push_cell_ref(out, m.r2, m.c2);
    push_lit(out, "\"/>");
    proof {
        assert(final(out)@ =~= old(out)@ + merge_item(m));
    }
}

fn push_merges_block(out: &mut Vec<u8>, merges: &Vec<Merge>)
    ensures
        final(out)@ == old(out)@ + merges_xml(merges@),
{
    let n = merges.len();
    if n == 0 {
        return ;
    }
    push_lit(out, "<mergeCells count=\"");
    push_dec(out, n as u64);
    push_lit(out, "\">");
    let ghost mbase = out@;
    let mut i: usize = 0;
    while i < n
        invariant
            i <= n,
            n == merges@.len(),
            out@ == mbase + merges_cat(merges@.take(i as int)),
        decreases n - i,
    {
        let ghost pre = out@;
        push_merge_item(out, merges[i]);
        proof {
            assert(merges@.take(i + 1).drop_last() =~= merges@.take(i as int));
            assert(merges@.take(i + 1).last() == merges@[i as int]);
            assert(out@ =~= mbase + merges_cat(merges@.take(i + 1)));
        }
        i = i + 1;
    }
    push_lit(out, "</mergeCells>");
    proof {
        assert(merges@.take(n as int) =~= merges@);
        assert(final(out)@ =~= old(out)@ + merges_xml(merges@));
    }
}

fn push_validation_item(out: &mut Vec<u8>, v: &crate::sheet::Validation)
    ensures
        final(out)@ == old(out)@ + validation_item(v@),
{
    let ghost base = out@;
    push_lit(out, "<dataValidation type=\"");
    push_lit(out, if v.kind == 1 {
        "whole"
    } else if v.kind == 2 {
        "decimal"
    } else if v.kind == 3 {
        "list"
    } else if v.kind == 4 {
        "date"
    } else if v.kind == 5 {
        "time"
    } else if v.kind == 6 {
        "textLength"
    } else {
        "custom"
    });
    proof {
        assert(lit(if v.kind == 1 {
            "whole"
        } else if v.kind == 2 {
            "decimal"
        } else if v.kind == 3 {
            "list"
        } else if v.kind == 4 {
            "date"
        } else if v.kind == 5 {
            "time"
        } else if v.kind == 6 {
            "textLength"
        } else {
            "custom"
        }) == validation_kind_name(v@.kind));
    }
    push_lit(out, "\" sqref=\"");
    push_cell_ref(out, v.r1, v.c1);
    push_lit(out, ":");
    push_cell_ref(out, v.r2, v.c2);
    push_lit(out, "\"><formula1>");
    push_esc(out, v.formula1.as_slice());
    push_lit(out, "</formula1>");
    let ghost mf = out@;
    match &v.formula2 {
        Some(f2) => {
            push_lit(out, "<formula2>");
            push_esc(out, f2.as_slice());
            push_lit(out, "</formula2>");
        },
        None => {},
    }
    proof {
        assert(out@ =~= mf + (match v@.formula2 {
            Some(f2) => lit("<formula2>") + esc_bytes(f2) + lit("</formula2>"),
            None => Seq::<u8>::empty(),
        }));
    }
    push_lit(out, "</dataValidation>");
    proof {
        assert(out@ =~= base + validation_item(v@));
    }
}

fn push_validations_block(out: &mut Vec<u8>, validations: &Vec<crate::sheet::Validation>)
    ensures
        final(out)@ == old(out)@ + validations_xml(validations_view(validations@)),
{
    let ghost vs = validations_view(validations@);
    let n = validations.len();
    if n == 0 {
        return ;
    }
    push_lit(out, "<dataValidations count=\"");
    push_dec(out, n as u64);
    push_lit(out, "\">");
    let ghost vbase = out@;
    let mut i: usize = 0;
    while i < n
        invariant
            i <= n,
            n == validations@.len(),
            vs == validations_view(validations@),
            out@ == vbase + validations_cat(vs.take(i as int)),
        decreases n - i,
    {
        let ghost pre = out@;
        push_validation_item(out, &validations[i]);
        proof {
            assert(vs[i as int] == validations@[i as int]@);
            assert(out@ =~= pre + validation_item(vs[i as int]));
            assert(vs.take(i + 1).drop_last() =~= vs.take(i as int));
            assert(vs.take(i + 1).last() == vs[i as int]);
            assert(out@ =~= vbase + validations_cat(vs.take(i + 1)));
        }
        i = i + 1;
    }
    push_lit(out, "</dataValidations>");
    proof {
        assert(vs.take(n as int) =~= vs);
        assert(final(out)@ =~= old(out)@ + validations_xml(vs));
    }
}

/// Builds one worksheet part from the worksheet's model.
pub fn build_sheet(ws: &Worksheet) -> (r: Vec<u8>)
    requires
        ws.wf(),
    ensures
        r@ == sheet_xml(
            ws.grid@,
            ws.merges@,
            ws.cols@,
            validations_view(ws.validations@),
            ws.freeze,
            ws.selection,
        ),
{
    let mut out: Vec<u8> = Vec::new();
    push_lit(&mut out, "<?xml version=\"1.0\" encoding=\"UTF-8\" standalone=\"yes\"?>\n");
    push_lit(
        &mut out,
        "<worksheet xmlns=\"http://schemas.openxmlformats.org/spreadsheetml/2006/main\" xmlns:r=\"http://schemas.openxmlformats.org/officeDocument/2006/relationships\"><sheetViews><sheetView workbookViewId=\"0\">",
    );
    let ghost m1 = out@;
    match &ws.freeze {
        Some(p) => {
            if !(p.0 == 0 && p.1 == 0) {
                push_lit(&mut out, "<pane xSplit=\"");
                push_dec(&mut out, p.1 as u64);
                push_lit(&mut out, "\" ySplit=\"");
                push_dec(&mut out, p.0 as u64);
                push_lit(&mut out, "\" topLeftCell=\"");
                push_cell_ref(&mut out, p.0, p.1);
                push_lit(&mut out, "\" activePane=\"bottomRight\" state=\"frozen\"/>");
            }
        },
        None => {},
    }
    proof {
        assert(out@ =~= m1 + pane_xml(ws.freeze));
    }
    let ghost m2 = out@;
    match &ws.selection {
        Some(sel) => {
            push_lit(&mut out, "<selection activeCell=\"");
            push_cell_ref(&mut out, sel.0, sel.1);
            push_lit(&mut out, "\" sqref=\"");
            push_cell_ref(&mut out, sel.0, sel.1);
            push_lit(&mut out, ":");
            push_cell_ref(&mut out, sel.2, sel.3);
            push_lit(&mut out, "\"/>");
        },
        None => {},
    }
    proof {
        assert(out@ =~= m2 + selection_xml(ws.selection));
    }
    push_lit(&mut out, "</sheetView></sheetViews>");
    push_cols_block(&mut out, &ws.cols);
    push_lit(&mut out, "<sheetData>");
    push_sheet_data(&mut out, &ws.grid);
    push_lit(&mut out, "</sheetData>");
    push_merges_block(&mut out, &ws.merges);
    push_validations_block(&mut out, &ws.validations);
    push_lit(&mut out, "</worksheet>");
    proof {
        assert(out@ =~= sheet_xml(
            ws.grid@,
            ws.merges@,
            ws.cols@,
            validations_view(ws.validations@),
            ws.freeze,
            ws.selection,
        ));
    }
    out
}

} // verus!
