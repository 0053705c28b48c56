//! The archive packager: assembles the generated parts into one ZIP
//! container with DEFLATE-compressed entries, a fixed timestamp and a fixed
//! entry order, so equal inputs give byte-identical archives.

use vstd::prelude::*;
use crate::XlsxError;
use crate::style::{le16, le32};
use crate::bytes::push_bytes;

verus! {

/// The CRC-32 (IEEE) checksum of a byte sequence: a function of the bytes
/// alone.
pub uninterp spec fn crc32_of(data: Seq<u8>) -> u32;

/// The DEFLATE compression of a byte sequence at this crate's fixed level:
/// a function of the bytes alone.
pub uninterp spec fn deflate_of(data: Seq<u8>) -> Seq<u8>;

/// Relies on crc32fast::hash: the CRC-32 (IEEE) checksum, computed from the
/// input bytes alone.
#[verifier::external_body]
fn crc32(data: &[u8]) -> (r: u32)
    ensures
        r == crc32_of(data@),
{
    crc32fast::hash(data)
}

/// Relies on miniz_oxide::deflate::compress_to_vec: a raw DEFLATE stream,
/// computed deterministically from the input bytes and the fixed level.
#[verifier::external_body]
fn deflate(data: &[u8]) -> (r: Vec<u8>)
    ensures
        r@ == deflate_of(data@),
{
    miniz_oxide::deflate::compress_to_vec(data, 6)
}

/// One archive member: its path inside the container and its payload.
pub struct Part {
    pub name: Vec<u8>,
    pub data: Vec<u8>,
}

pub struct PartV {
    pub name: Seq<u8>,
    pub data: Seq<u8>,
}

impl View for Part {
    type V = PartV;

    open spec fn view(&self) -> PartV {
        PartV { name: self.name@, data: self.data@ }
    }
}

/// A length or offset as four little-endian bytes; meaningful when the
/// value fits 32 bits, which packaging checks.
pub open spec fn le32n(n: nat) -> Seq<u8> {
    le32((n % 0x100000000) as u32)
}

/// The local file header and payload of one part: signature, version 20,
/// no flags, DEFLATE, a fixed timestamp, checksum, sizes, then the name and
/// the compressed bytes.
pub open spec fn local_entry(p: PartV) -> Seq<u8> {
    seq![80u8, 75u8, 3u8, 4u8] + le16(20) + le16(0) + le16(8) + le16(0) + le16(33) + le32(
        crc32_of(p.data),
    ) + le32n(deflate_of(p.data).len()) + le32n(p.data.len()) + le16((p.name.len() % 0x10000) as u16)
        + le16(0) + p.name + deflate_of(p.data)
}

pub open spec fn locals_cat(parts: Seq<PartV>) -> Seq<u8>
    decreases parts.len(),
{
    if parts.len() == 0 {
        Seq::empty()
    } else {
        locals_cat(parts.drop_last()) + local_entry(parts.last())
    }
}

/// The central directory record of one part, given the byte offset of its
/// local header.
pub open spec fn central_entry(p: PartV, offset: nat) -> Seq<u8> {
    seq![80u8, 75u8, 1u8, 2u8] + le16(20) + le16(20) + le16(0) + le16(8) + le16(0) + le16(33)
        + le32(crc32_of(p.data)) + le32n(deflate_of(p.data).len()) + le32n(p.data.len()) + le16(
        (p.name.len() % 0x10000) as u16,
    ) + le16(0) + le16(0) + le16(0) + le16(0) + le32(0) + le32n(offset) + p.name
}

pub open spec fn centrals_cat(parts: Seq<PartV>, i: int) -> Seq<u8>
    decreases parts.len() - i,
{
    if i < 0 || i >= parts.len() {
        Seq::empty()
    } else {
        central_entry(parts[i], locals_cat(parts.take(i)).len()) + centrals_cat(parts, i + 1)
    }
}

/// The end-of-central-directory record.
pub open spec fn eocd(parts: Seq<PartV>) -> Seq<u8> {
    seq![80u8, 75u8, 5u8, 6u8] + le16(0) + le16(0) + le16((parts.len() % 0x10000) as u16) + le16(
        (parts.len() % 0x10000) as u16,
    ) + le32n(centrals_cat(parts, 0).len()) + le32n(locals_cat(parts).len()) + le16(0)
}

/// The whole archive: every local entry in order, the central directory,
/// the end record.
pub open spec fn archive_of(parts: Seq<PartV>) -> Seq<u8> {
    locals_cat(parts) + centrals_cat(parts, 0) + eocd(parts)
}

/// When every size, offset and count fits its ZIP field, packaging is owed
/// success.
pub open spec fn archive_fits(parts: Seq<PartV>) -> bool {
    &&& parts.len() <= 0xFFFF
    &&& forall|i: int|
        0 <= i < parts.len() ==> (#[trigger] parts[i]).name.len() <= 0xFFFF && parts[i].data.len()
            <= 0xFFFFFFFF && deflate_of(parts[i].data).len() <= 0xFFFFFFFF
    &&& locals_cat(parts).len() <= 0xFFFFFFFF
    &&& centrals_cat(parts, 0).len() <= 0xFFFFFFFF
}

fn push_le16(out: &mut Vec<u8>, x: u16)
    ensures
        final(out)@ == old(out)@ + le16(x),
{
    out.push((x & 0xFF) as u8);
    out.push(((x >> 8) & 0xFF) as u8);
    proof {
        assert(final(out)@ =~= old(out)@ + le16(x));
    }
}

fn push_le32(out: &mut Vec<u8>, x: u32)
    ensures
        final(out)@ == old(out)@ + le32(x),
{
    out.push((x & 0xFF) as u8);
    out.push(((x >> 8) & 0xFF) as u8);
    out.push(((x >> 16) & 0xFF) as u8);
    out.push(((x >> 24) & 0xFF) as u8);
    proof {
        assert(final(out)@ =~= old(out)@ + le32(x));
    }
}

pub open spec fn parts_view(parts: Seq<Part>) -> Seq<PartV> {
    Seq::new(parts.len(), |i: int| parts[i]@)
}

/// `locals_cat` over a longer prefix is never shorter.
proof fn lemma_locals_mono(parts: Seq<PartV>, i: int)
    requires
        0 <= i <= parts.len(),
    ensures
        locals_cat(parts.take(i)).len() <= locals_cat(parts).len(),
    decreases parts.len() - i,
{
    if i == parts.len() {
        assert(parts.take(i) =~= parts);
    } else {
        assert(parts.take(i + 1).drop_last() =~= parts.take(i));
        lemma_locals_mono(parts, i + 1);
    }
}

#[verifier::rlimit(100)]
#[verifier::spinoff_prover]
fn push_local_entry(out: &mut Vec<u8>, name: &Vec<u8>, data: &Vec<u8>, crc: u32, dvec: &Vec<u8>)
    requires
        name@.len() <= 0xFFFF,
        crc == crc32_of(data@),
        dvec@ == deflate_of(data@),
        dvec@.len() <= 0xFFFFFFFF,
        data@.len() <= 0xFFFFFFFF,
    ensures
        final(out)@ == old(out)@ + local_entry(PartV { name: name@, data: data@ }),
{
    out.push(80);
    out.push(75);
    out.push(3);
    out.push(4);
    push_le16(out, 20);
    push_le16(out, 0);
    push_le16(out, 8);
    push_le16(out, 0);
    push_le16(out, 33);
    push_le32(out, crc);
    push_le32(out, dvec.len() as u32);
    push_le32(out, data.len() as u32);
    push_le16(out, name.len() as u16);
    push_le16(out, 0);
    push_bytes(out, name.as_slice());
    push_bytes(out, dvec.as_slice());
    proof {
        let p = PartV { name: name@, data: data@ };
        assert(le32n(deflate_of(p.data).len()) == le32(dvec.len() as u32));
        assert(le32n(p.data.len()) == le32(data.len() as u32));
        assert(le16((p.name.len() % 0x10000) as u16) == le16(name.len() as u16));
        assert(final(out)@ =~= old(out)@ + local_entry(p));
    }
}

#[verifier::rlimit(100)]
#[verifier::spinoff_prover]
fn push_central_entry(
    out: &mut Vec<u8>,
    name: &Vec<u8>,
    crc: u32,
    dlen: u32,
    ulen: u32,
    offset: u32,
    ghost_data: Ghost<Seq<u8>>,
)
    requires
        name@.len() <= 0xFFFF,
        crc == crc32_of(ghost_data@),
        dlen == deflate_of(ghost_data@).len(),
        ulen == ghost_data@.len(),
    ensures
        final(out)@ == old(out)@ + central_entry(
            PartV { name: name@, data: ghost_data@ },
            offset as nat,
        ),
{
    out.push(80);
    out.push(75);
    out.push(1);
    out.push(2);
    push_le16(out, 20);
    push_le16(out, 20);
    push_le16(out, 0);
    push_le16(out, 8);
    push_le16(out, 0);
    push_le16(out, 33);
    push_le32(out, crc);
    push_le32(out, dlen);
    push_le32(out, ulen);
    push_le16(out, name.len() as u16);
    push_le16(out, 0);
    push_le16(out, 0);
    push_le16(out, 0);
    push_le16(out, 0);
    push_le32(out, 0);
    push_le32(out, offset);
    push_bytes(out, name.as_slice());
    proof {
        let p = PartV { name: name@, data: ghost_data@ };
        assert(le32n(deflate_of(p.data).len()) == le32(dlen));
        assert(le32n(p.data.len()) == le32(ulen));
        assert(le32n(offset as nat) == le32(offset));
        assert(le16((p.name.len() % 0x10000) as u16) == le16(name.len() as u16));
        assert(final(out)@ =~= old(out)@ + central_entry(p, offset as nat));
    }
}

/// Packages the parts, in the order given, into one archive. Success is
/// owed whenever every field fits; a workbook of ordinary size always fits.
#[verifier::rlimit(100)]
#[verifier::spinoff_prover]
pub fn build_archive(parts: &Vec<Part>) -> (r: Result<Vec<u8>, XlsxError>)
    ensures
        match r {
            Ok(v) => v@ == archive_of(parts_view(parts@)),
            Err(e) => e == XlsxError::IoFailure && !archive_fits(parts_view(parts@)),
        },
        archive_fits(parts_view(parts@)) ==> r is Ok,
{
    let ghost views = parts_view(parts@);
    let n = parts.len();
    if n > 0xFFFF {
        return Err(XlsxError::IoFailure);
    }
    let mut locals: Vec<u8> = Vec::new();
    let mut crcs: Vec<u32> = Vec::new();
    let mut dlens: Vec<u32> = Vec::new();
    let mut offsets: Vec<u32> = Vec::new();
    let mut i: usize = 0;
    while i < n
        invariant
            i <= n,
            n == parts@.len(),
            views == parts_view(parts@),
            locals@ == locals_cat(views.take(i as int)),
            locals@.len() <= 0xFFFFFFFF,
            crcs@.len() == i && dlens@.len() == i && offsets@.len() == i,
            forall|j: int|
                0 <= j < i ==> {
                    &&& (#[trigger] crcs@[j]) == crc32_of(views[j].data)
                    &&& dlens@[j] == deflate_of(views[j].data).len()
                    &&& views[j].data.len() <= 0xFFFFFFFF
                    &&& views[j].name.len() <= 0xFFFF
                    &&& offsets@[j] == locals_cat(views.take(j)).len()
                },
        decreases n - i,
    {
        let part = &parts[i];
        proof {
            assert(views[i as int] == parts@[i as int]@);
        }
        if part.name.len() > 0xFFFF {
            return Err(XlsxError::IoFailure);
        }
        if part.data.len() > 0xFFFFFFFF {
            return Err(XlsxError::IoFailure);
        }
        let crc = crc32(part.data.as_slice());
        let dvec = deflate(part.data.as_slice());
        if dvec.len() > 0xFFFFFFFF {
            return Err(XlsxError::IoFailure);
        }
        let entry_len: u64 = 30 + part.name.len() as u64 + dvec.len() as u64;
        if locals.len() as u64 + entry_len > 0xFFFFFFFF {
            proof {
                assert(locals_cat(views.take(i + 1)).drop_last() == locals_cat(
                    views.take(i + 1),
                ).drop_last());
                assert(views.take(i + 1).drop_last() =~= views.take(i as int));
                assert(locals_cat(views.take(i + 1)) == locals_cat(views.take(i as int))
                    + local_entry(views[i as int]));
                assert(local_entry(views[i as int]).len() == entry_len);
                lemma_locals_mono(views, i + 1);
                assert(!archive_fits(views));
            }
            return Err(XlsxError::IoFailure);
        }
        let offset = locals.len() as u32;
        proof {
            assert(offset == locals_cat(views.take(i as int)).len());
        }
        push_local_entry(&mut locals, &part.name, &part.data, crc, &dvec);
        crcs.push(crc);
        dlens.push(dvec.len() as u32);
        offsets.push(offset);
        proof {
            assert(views.take(i + 1).drop_last() =~= views.take(i as int));
            assert(views.take(i + 1).last() == views[i as int]);
            assert(locals@ =~= locals_cat(views.take(i + 1)));
        }
        i = i + 1;
    }
    proof {
        assert(views.take(n as int) =~= views);
    }
    let mut centrals: Vec<u8> = Vec::new();
    let mut j: usize = 0;
    while j < n
        invariant
            j <= n,
            n == parts@.len(),
            n <= 0xFFFF,
            views == parts_view(parts@),
            crcs@.len() == n && dlens@.len() == n && offsets@.len() == n,
            forall|k: int|
                0 <= k < n ==> {
                    &&& (#[trigger] crcs@[k]) == crc32_of(views[k].data)
                    &&& dlens@[k] == deflate_of(views[k].data).len()
                    &&& views[k].data.len() <= 0xFFFFFFFF
                    &&& views[k].name.len() <= 0xFFFF
                    &&& offsets@[k] == locals_cat(views.take(k)).len()
                },
            centrals_cat(views, 0) == centrals@ + centrals_cat(views, j as int),
        decreases n - j,
    {
        let part = &parts[j];
        proof {
            assert(views[j as int] == parts@[j as int]@);
            assert(crcs@[j as int] == crc32_of(views[j as int].data));
            assert(views[j as int].data.len() <= 0xFFFFFFFF);
        }
        let ghost pre = centrals@;
        push_central_entry(
            &mut centrals,
            &part.name,
            crcs[j],
            dlens[j],
            part.data.len() as u32,
            offsets[j],
            Ghost(views[j as int].data),
        );
        proof {
            assert(centrals_cat(views, 0) =~= centrals@ + centrals_cat(views, j + 1));
        }
        j = j + 1;
    }
    proof {
        assert(centrals_cat(views, n as int) =~= Seq::<u8>::empty());
        assert(centrals@ =~= centrals_cat(views, 0));
    }
    if centrals.len() > 0xFFFFFFFF {
        return Err(XlsxError::IoFailure);
    }
    let mut out: Vec<u8> = Vec::new();
    push_bytes(&mut out, locals.as_slice());
    push_bytes(&mut out, centrals.as_slice());
    let ghost m = out@;
    out.push(80);
    out.push(75);
    out.push(5);
    out.push(6);
    push_le16(&mut out, 0);
    push_le16(&mut out, 0);
    push_le16(&mut out, n as u16);
    push_le16(&mut out, n as u16);
    push_le32(&mut out, centrals.len() as u32);
    push_le32(&mut out, locals.len() as u32);
    push_le16(&mut out, 0);
    proof {
        assert(le16((views.len() % 0x10000) as u16) == le16(n as u16));
        assert(le32n(centrals_cat(views, 0).len()) == le32(centrals.len() as u32));
        assert(le32n(locals_cat(views).len()) == le32(locals.len() as u32));
        assert(out@ =~= m + eocd(views));
        assert(out@ =~= archive_of(views));
    }
    Ok(out)
}

} // verus!
