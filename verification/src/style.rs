//! Cell formats and the format registry. A format is a value object; the
//! registry collapses structurally equal formats to one stable index by
//! interning a canonical byte encoding of the descriptor.

use vstd::prelude::*;
use crate::intern::ByteInterner;
use crate::XlsxError;

verus! {

/// The registry refuses more distinct formats than the output format's
/// practical ceiling of cell-format records.
pub const MAX_FORMATS: usize = 65490;

/// Horizontal alignment: 0 none, 1 left, 2 center, 3 right.
/// Vertical alignment: 0 bottom, 1 top, 2 center.
/// `border` is the style applied to all four sides: 0 none, 1 thin,
/// 2 medium, 3 dashed, 4 dotted, 5 thick.
/// `num_fmt` is a built-in number format id of the output schema.
/// Colors are `0x00RRGGBB`; the fill color applies only when `fill_set`.
#[derive(Debug, Clone, Copy, PartialEq, Eq, Structural)]
pub struct Format {
    pub bold: bool,
    pub italic: bool,
    pub underline: bool,
    pub locked: bool,
    pub font_size: u16,
    pub font_color: u32,
    pub fill_set: bool,
    pub fill_color: u32,
    pub border: u8,
    pub num_fmt: u8,
    pub align: u8,
    pub valign: u8,
}

impl Format {
    /// The default cell format: 11pt black text, no fill, no border.
    pub fn new() -> (r: Format)
        ensures
            r == Format::default_format(),
    {
        Format {
            bold: false,
            italic: false,
            underline: false,
            locked: true,
            font_size: 11,
            font_color: 0,
            fill_set: false,
            fill_color: 0,
            border: 0,
            num_fmt: 0,
            align: 0,
            valign: 0,
        }
    }

    pub open spec fn default_format() -> Format {
        Format {
            bold: false,
            italic: false,
            underline: false,
            locked: true,
            font_size: 11,
            font_color: 0,
            fill_set: false,
            fill_color: 0,
            border: 0,
            num_fmt: 0,
            align: 0,
            valign: 0,
        }
    }
}

/// A boolean as one canonical byte.
pub open spec fn canon_bool(b: bool) -> u8 {
    if b {
        1u8
    } else {
        0u8
    }
}

/// A 32-bit value as four little-endian bytes.
pub open spec fn le32(x: u32) -> Seq<u8> {
    seq![
        (x & 0xFF) as u8,
        ((x >> 8) & 0xFF) as u8,
        ((x >> 16) & 0xFF) as u8,
        ((x >> 24) & 0xFF) as u8,
    ]
}

/// A 16-bit value as two little-endian bytes.
pub open spec fn le16(x: u16) -> Seq<u8> {
    seq![(x & 0xFF) as u8, ((x >> 8) & 0xFF) as u8]
}

/// The canonical encoding of a format descriptor: a fixed-width snapshot of
/// every attribute, so equal encodings mean equal descriptors.
pub open spec fn canon(f: Format) -> Seq<u8> {
    seq![
        canon_bool(f.bold),
        canon_bool(f.italic),
        canon_bool(f.underline),
        canon_bool(f.locked),
        canon_bool(f.fill_set),
        f.border,
        f.num_fmt,
        f.align,
        f.valign,
    ] + le16(f.font_size) + le32(f.font_color) + le32(f.fill_color)
}

pub proof fn lemma_le32_inj(x: u32, y: u32)
    requires
        le32(x) == le32(y),
    ensures
        x == y,
{
    assert((x & 0xFF) as u8 == (y & 0xFF) as u8);
    assert(((x >> 8) & 0xFF) as u8 == ((y >> 8) & 0xFF) as u8);
    assert(((x >> 16) & 0xFF) as u8 == ((y >> 16) & 0xFF) as u8);
    assert(((x >> 24) & 0xFF) as u8 == ((y >> 24) & 0xFF) as u8);
    assert(x & 0xFF < 256 && y & 0xFF < 256 && (x >> 8) & 0xFF < 256 && (y >> 8) & 0xFF < 256 && (x
        >> 16) & 0xFF < 256 && (y >> 16) & 0xFF < 256 && (x >> 24) & 0xFF < 256 && (y >> 24) & 0xFF
        < 256) by (bit_vector);
    assert(x == y) by (bit_vector)
        requires
            x & 0xFF == y & 0xFF,
            (x >> 8) & 0xFF == (y >> 8) & 0xFF,
            (x >> 16) & 0xFF == (y >> 16) & 0xFF,
            (x >> 24) & 0xFF == (y >> 24) & 0xFF,
    ;
}

pub proof fn lemma_le16_inj(x: u16, y: u16)
    requires
        le16(x) == le16(y),
    ensures
        x == y,
{
    assert((x & 0xFF) as u8 == (y & 0xFF) as u8);
    assert(((x >> 8) & 0xFF) as u8 == ((y >> 8) & 0xFF) as u8);
    assert(x & 0xFF < 256 && y & 0xFF < 256 && (x >> 8) & 0xFF < 256 && (y >> 8) & 0xFF
        < 256) by (bit_vector);
    assert(x == y) by (bit_vector)
        requires
            x & 0xFF == y & 0xFF,
            (x >> 8) & 0xFF == (y >> 8) & 0xFF,
    ;
}

/// Two formats with the same canonical encoding are structurally equal.
pub proof fn lemma_canon_injective(a: Format, b: Format)
    requires
        canon(a) == canon(b),
    ensures
        a == b,
{
    assert(canon(a)[0] == canon(b)[0]);
    assert(canon(a)[1] == canon(b)[1]);
    assert(canon(a)[2] == canon(b)[2]);
    assert(canon(a)[3] == canon(b)[3]);
    assert(canon(a)[4] == canon(b)[4]);
    assert(canon(a)[5] == canon(b)[5]);
    assert(canon(a)[6] == canon(b)[6]);
    assert(canon(a)[7] == canon(b)[7]);
    assert(canon(a)[8] == canon(b)[8]);
    assert(le16(a.font_size) =~= canon(a).subrange(9, 11));
    assert(le16(b.font_size) =~= canon(b).subrange(9, 11));
    lemma_le16_inj(a.font_size, b.font_size);
    assert(le32(a.font_color) =~= canon(a).subrange(11, 15));
    assert(le32(b.font_color) =~= canon(b).subrange(11, 15));
    lemma_le32_inj(a.font_color, b.font_color);
    assert(le32(a.fill_color) =~= canon(a).subrange(15, 19));
    assert(le32(b.fill_color) =~= canon(b).subrange(15, 19));
    lemma_le32_inj(a.fill_color, b.fill_color);
    assert(canon(a)[0] == canon_bool(a.bold) && canon(a)[1] == canon_bool(a.italic) && canon(a)[2]
        == canon_bool(a.underline) && canon(a)[3] == canon_bool(a.locked) && canon(a)[4]
        == canon_bool(a.fill_set) && canon(a)[5] == a.border && canon(a)[6] == a.num_fmt && canon(
        a,
    )[7] == a.align && canon(a)[8] == a.valign);
    assert(canon(b)[0] == canon_bool(b.bold) && canon(b)[1] == canon_bool(b.italic) && canon(b)[2]
        == canon_bool(b.underline) && canon(b)[3] == canon_bool(b.locked) && canon(b)[4]
        == canon_bool(b.fill_set) && canon(b)[5] == b.border && canon(b)[6] == b.num_fmt && canon(
        b,
    )[8] == b.valign && canon(b)[7] == b.align);
}

fn canon_bytes(f: &Format) -> (r: Vec<u8>)
    ensures
        r@ == canon(*f),
{
    let mut r: Vec<u8> = Vec::new();
    r.push(if f.bold { 1 } else { 0 });
    r.push(if f.italic { 1 } else { 0 });
    r.push(if f.underline { 1 } else { 0 });
    r.push(if f.locked { 1 } else { 0 });
    r.push(if f.fill_set { 1 } else { 0 });
    r.push(f.border);
    r.push(f.num_fmt);
    r.push(f.align);
    r.push(f.valign);
    r.push((f.font_size & 0xFF) as u8);
    r.push(((f.font_size >> 8) & 0xFF) as u8);
    r.push((f.font_color & 0xFF) as u8);
    r.push(((f.font_color >> 8) & 0xFF) as u8);
    r.push(((f.font_color >> 16) & 0xFF) as u8);
    r.push(((f.font_color >> 24) & 0xFF) as u8);
    r.push((f.fill_color & 0xFF) as u8);
    r.push(((f.fill_color >> 8) & 0xFF) as u8);
    r.push(((f.fill_color >> 16) & 0xFF) as u8);
    r.push(((f.fill_color >> 24) & 0xFF) as u8);
    proof {
        assert(r@ =~= canon(*f));
    }
    r
}

/// The format registry: the distinct formats in first-registration order,
/// with a hash index from canonical encodings to indices.
pub struct FormatRegistry {
    formats: Vec<Format>,
    ids: ByteInterner,
}

impl View for FormatRegistry {
    type V = Seq<Format>;

    closed spec fn view(&self) -> Seq<Format> {
        self.formats@
    }
}

impl FormatRegistry {
    pub closed spec fn wf(&self) -> bool {
        &&& self.ids.wf()
        &&& self.formats@.len() <= MAX_FORMATS
        &&& self.ids@.len() == self.formats@.len()
        &&& forall|i: int|
            0 <= i < self.formats@.len() ==> self.ids@[i] == canon(#[trigger] self.formats@[i])
    }

    /// A well-formed registry holds no format twice: with `register`'s
    /// contract this gives, for all descriptors, equal descriptors if and
    /// only if equal indices.
    pub proof fn lemma_registry_distinct(&self)
        requires
            self.wf(),
        ensures
            forall|i: int, j: int|
                #![trigger self@[i], self@[j]]
                0 <= i < j < self@.len() ==> self@[i] != self@[j],
    {
        self.ids.lemma_distinct();
        assert forall|i: int, j: int|
            #![trigger self@[i], self@[j]]
            0 <= i < j < self@.len() implies self@[i] != self@[j] by {
            if self@[i] == self@[j] {
                assert(self.ids@[i] == canon(self@[i]));
                assert(self.ids@[j] == canon(self@[j]));
            }
        }
    }

    /// The registry never outgrows its cap.
    pub proof fn lemma_len_bound(&self)
        requires
            self.wf(),
        ensures
            self@.len() <= MAX_FORMATS,
    {
    }

    pub fn new() -> (r: FormatRegistry)
        ensures
            r.wf(),
            r@ == Seq::<Format>::empty(),
    {
        FormatRegistry { formats: Vec::new(), ids: ByteInterner::new() }
    }

    pub fn len(&self) -> (r: usize)
        ensures
            r == self@.len(),
    {
        self.formats.len()
    }

    pub fn get(&self, id: u32) -> (r: &Format)
        requires
            id < self@.len(),
        ensures
            *r == self@[id as int],
    {
        &self.formats[id as usize]
    }

    /// Registers a format snapshot: structurally equal snapshots get the
    /// same index, a new snapshot gets the next index, and a full registry
    /// refuses a new snapshot with `TooManyFormats`.
    pub fn register(&mut self, f: Format) -> (r: Result<u32, XlsxError>)
        requires
            old(self).wf(),
        ensures
            final(self).wf(),
            match r {
                Ok(id) => {
                    &&& id < final(self)@.len()
                    &&& final(self)@[id as int] == f
                    &&& (forall|i: int|
                        0 <= i < old(self)@.len() && old(self)@[i] == f ==> final(self)@ == old(
                            self,
                        )@ && id == i)
                    &&& ((forall|i: int| 0 <= i < old(self)@.len() ==> old(self)@[i] != f)
                        ==> final(self)@ == old(self)@.push(f) && id == old(self)@.len() && old(
                        self,
                    )@.len() < MAX_FORMATS)
                },
                Err(e) => {
                    &&& e == XlsxError::TooManyFormats
                    &&& final(self)@ == old(self)@
                    &&& old(self)@.len() >= MAX_FORMATS
                    &&& forall|i: int| 0 <= i < old(self)@.len() ==> old(self)@[i] != f
                },
            },
    {
        let key = canon_bytes(&f);
        proof {
            self.ids.lemma_distinct();
            assert forall|i: int|
                0 <= i < self.formats@.len() && self.formats@[i] == f implies self.ids@[i]
                == key@ by {}
            assert forall|i: int|
                0 <= i < self.formats@.len() && self.ids@[i] == key@ implies self.formats@[i]
                == f by {
                lemma_canon_injective(self.formats@[i], f);
            }
        }
        match self.ids.lookup(key.as_slice()) {
            Some(id) => {
                proof {
                    assert(self.formats@[id as int] == f);
                }
                Ok(id as u32)
            },
            None => {
                if self.formats.len() >= MAX_FORMATS {
                    return Err(XlsxError::TooManyFormats);
                }
                let id = self.ids.intern(key);
                self.formats.push(f);
                Ok(id as u32)
            },
        }
    }
}

} // verus!
