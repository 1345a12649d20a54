//! The saved form of an archive. All integers are eight bytes, little-endian:
//!
//! - the magic number, the length of the version tag, the version tag;
//! - the number of entries;
//! - for each entry: the length of its path, the path in UTF-8, the length
//!   of its content, the offset of its content from the start of the archive,
//!   its creation and modification times (0 when unknown), and the time of
//!   the save that wrote it;
//! - the contents of all entries, in table order.
//!
//! The spec functions here describe that layout; `Archive::save` writes it
//! and `Archive::load` reads it.

use vstd::prelude::*;
use vstd::bytes::*;
use vstd::utf8::*;

use crate::archive::FileView;
use crate::filter::after_prefix;

verus! {

/// The first eight bytes of every archive.
pub const ARCHIVE_MAGIC_NUMBER: u64 = 0xdeadbeef;

/// The version tag that this library writes into the archives it saves.
pub const ARCHIVE_VERSION: &'static str = "0.1.0";

/// An unsigned 64-bit integer in eight little-endian bytes.
pub open spec fn le64(x: u64) -> Seq<u8> {
    spec_u64_to_le_bytes(x)
}

/// A timestamp as stored: seconds since the epoch, 0 when unknown.
pub open spec fn time_field(t: Option<u64>) -> u64 {
    match t {
        Some(v) => v,
        None => 0,
    }
}

/// A stored timestamp as read back: 0 means unknown.
pub open spec fn time_of(v: u64) -> Option<u64> {
    if v == 0 {
        None
    } else {
        Some(v)
    }
}

/// The version tag as stored.
pub open spec fn version_bytes() -> Seq<u8> {
    encode_utf8(ARCHIVE_VERSION@)
}

/// The stored version tag is five bytes long.
pub proof fn lemma_version_len()
    ensures
        version_bytes().len() == 5,
{
    reveal_strlit("0.1.0");
    assert(ARCHIVE_VERSION@ =~= seq!['0', '.', '1', '.', '0']);
    is_ascii_chars_encode_utf8(ARCHIVE_VERSION@);
}

/// The path of an entry as stored.
pub open spec fn path_bytes(f: FileView) -> Seq<u8> {
    encode_utf8(f.path)
}

/// The size of one entry of the file table.
pub open spec fn entry_len(f: FileView) -> nat {
    48 + path_bytes(f).len()
}

/// The size of the file table.
pub open spec fn table_len(fs: Seq<FileView>) -> nat
    decreases fs.len(),
{
    if fs.len() == 0 {
        0
    } else {
        table_len(fs.drop_last()) + entry_len(fs.last())
    }
}

/// The total size of the contents.
pub open spec fn contents_len(fs: Seq<FileView>) -> nat
    decreases fs.len(),
{
    if fs.len() == 0 {
        0
    } else {
        contents_len(fs.drop_last()) + fs.last().content.len()
    }
}

/// The size of everything before the first content byte: magic number,
/// version, file count and file table.
pub open spec fn header_len(fs: Seq<FileView>) -> nat {
    24 + version_bytes().len() + table_len(fs)
}

/// Where the content of entry `i` starts in the saved archive.
pub open spec fn offset_of(fs: Seq<FileView>, i: int) -> nat {
    header_len(fs) + contents_len(fs.take(i))
}

/// The size of the saved archive.
pub open spec fn image_len(fs: Seq<FileView>) -> nat {
    header_len(fs) + contents_len(fs)
}

/// One entry of the file table: path, content length, offset and the
/// three timestamps.
pub open spec fn entry_bytes(f: FileView, offset: u64, archived_at: u64) -> Seq<u8> {
    le64(path_bytes(f).len() as u64) + path_bytes(f) + le64(f.content.len() as u64) + le64(offset)
        + le64(time_field(f.created_at)) + le64(time_field(f.modified_at)) + le64(archived_at)
}

/// The file table, the first content starting at `base`.
pub open spec fn table_bytes(fs: Seq<FileView>, base: nat, now: u64) -> Seq<u8>
    decreases fs.len(),
{
    if fs.len() == 0 {
        Seq::empty()
    } else {
        table_bytes(fs.drop_last(), base, now) + entry_bytes(
            fs.last(),
            (base + contents_len(fs.drop_last())) as u64,
            now,
        )
    }
}

/// The contents of all entries, one after the other.
pub open spec fn contents_bytes(fs: Seq<FileView>) -> Seq<u8>
    decreases fs.len(),
{
    if fs.len() == 0 {
        Seq::empty()
    } else {
        contents_bytes(fs.drop_last()) + fs.last().content
    }
}

/// The bytes of the first part of an archive: magic number and version.
pub open spec fn prelude_bytes() -> Seq<u8> {
    le64(ARCHIVE_MAGIC_NUMBER) + le64(version_bytes().len() as u64) + version_bytes()
}

/// The saved form of an archive holding `fs`, saved at time `now`.
pub open spec fn image(fs: Seq<FileView>, now: u64) -> Seq<u8> {
    prelude_bytes() + le64(fs.len() as u64) + table_bytes(fs, header_len(fs), now) + contents_bytes(fs)
}

/// An entry as it stands after a save at time `now` that put its content at
/// `offset`.
pub open spec fn saved_file(f: FileView, offset: nat, now: u64) -> FileView {
    FileView { offset: offset as u64, archived_at: Some(now), ..f }
}

/// The integer stored in eight little-endian bytes of `b` at `p`, when they
/// are there.
pub open spec fn read_le64(b: Seq<u8>, p: int) -> Option<u64> {
    if 0 <= p && p + 8 <= b.len() {
        Some(spec_u64_from_le_bytes(b.subrange(p, p + 8)))
    } else {
        None
    }
}

/// The text that `String::from_utf8_lossy` makes of bytes that are not
/// valid UTF-8.
pub uninterp spec fn utf8_lossy(b: Seq<u8>) -> Seq<char>;

/// The text that `String::from_utf8_lossy` makes of `b`: the text that `b`
/// encodes when it is valid UTF-8.
pub open spec fn lossy_text(b: Seq<u8>) -> Seq<char> {
    if valid_utf8(b) {
        decode_utf8(b)
    } else {
        utf8_lossy(b)
    }
}

/// The `k` table entries of `b` from position `p` on, with the contents they
/// point at, when all of them are there.
pub open spec fn parse_entries(b: Seq<u8>, p: int, k: nat) -> Option<Seq<FileView>>
    decreases k,
{
    if k == 0 {
        Some(Seq::empty())
    } else {
        match read_le64(b, p) {
            None => None,
            Some(plen) => {
                let q = p + 8 + plen;
                if q + 40 > b.len() {
                    None
                } else {
                    let clen = spec_u64_from_le_bytes(b.subrange(q, q + 8));
                    let off = spec_u64_from_le_bytes(b.subrange(q + 8, q + 16));
                    let created = spec_u64_from_le_bytes(b.subrange(q + 16, q + 24));
                    let modified = spec_u64_from_le_bytes(b.subrange(q + 24, q + 32));
                    let archived = spec_u64_from_le_bytes(b.subrange(q + 32, q + 40));
                    if off + clen > b.len() {
                        None
                    } else {
                        let f = FileView {
                            path: lossy_text(b.subrange(p + 8, q)),
                            content: b.subrange(off as int, off + clen),
                            offset: off,
                            created_at: time_of(created),
                            modified_at: time_of(modified),
                            archived_at: Some(archived),
                        };
                        after_prefix(seq![f], parse_entries(b, q + 40, (k - 1) as nat))
                    }
                }
            },
        }
    }
}

/// The entries that the saved archive `b` holds, or `None` when `b` is not
/// one: a wrong magic number, or a field or a content that is cut short.
/// The version tag is skipped: archives of any version load.
pub open spec fn parse_image(b: Seq<u8>) -> Option<Seq<FileView>> {
    match (read_le64(b, 0), read_le64(b, 8)) {
        (Some(magic), Some(vlen)) => if magic != ARCHIVE_MAGIC_NUMBER || 24 + vlen > b.len() {
            None
        } else {
            parse_entries(b, 24 + vlen, spec_u64_from_le_bytes(b.subrange(16 + vlen, 24 + vlen)) as nat)
        },
        _ => None,
    }
}

proof fn lemma_le64(x: u64)
    ensures
        le64(x).len() == 8,
        spec_u64_from_le_bytes(le64(x)) == x,
{
    lemma_auto_spec_u64_to_from_le_bytes();
}

proof fn lemma_table_bytes_len(fs: Seq<FileView>, base: nat, now: u64)
    ensures
        table_bytes(fs, base, now).len() == table_len(fs),
    decreases fs.len(),
{
    lemma_auto_spec_u64_to_from_le_bytes();
    if fs.len() > 0 {
        lemma_table_bytes_len(fs.drop_last(), base, now);
    }
}

proof fn lemma_contents_bytes_len(fs: Seq<FileView>)
    ensures
        contents_bytes(fs).len() == contents_len(fs),
    decreases fs.len(),
{
    if fs.len() > 0 {
        lemma_contents_bytes_len(fs.drop_last());
    }
}

/// The saved form of an archive is `image_len` bytes long.
pub proof fn lemma_image_len(fs: Seq<FileView>, now: u64)
    ensures
        image(fs, now).len() == image_len(fs),
{
    lemma_auto_spec_u64_to_from_le_bytes();
    lemma_table_bytes_len(fs, header_len(fs), now);
    lemma_contents_bytes_len(fs);
}

proof fn lemma_contents_prefix(fs: Seq<FileView>, i: int, j: int)
    requires
        0 <= i <= j <= fs.len(),
    ensures
        contents_len(fs.take(i)) <= contents_len(fs.take(j)),
        i < fs.len() ==> contents_len(fs.take(i + 1)) == contents_len(fs.take(i)) + fs[i].content.len(),
{
    lemma_lens_monotone(fs.take(j), i);
    assert(fs.take(j).take(i) =~= fs.take(i));
    if i < fs.len() {
        assert(fs.take(i + 1).drop_last() =~= fs.take(i));
    }
}

/// Offset integrity of a save: the content of each entry lies within the
/// saved bytes, and the contents of two entries never overlap.
pub proof fn lemma_offsets_disjoint(fs: Seq<FileView>, now: u64)
    ensures
        forall|i: int|
            0 <= i < fs.len() ==> #[trigger] offset_of(fs, i) + fs[i].content.len() <= image(
                fs,
                now,
            ).len(),
        forall|i: int, j: int|
            0 <= i < j < fs.len() ==> #[trigger] offset_of(fs, i) + fs[i].content.len()
                <= #[trigger] offset_of(fs, j),
{
    lemma_image_len(fs, now);
    assert forall|i: int| 0 <= i < fs.len() implies #[trigger] offset_of(fs, i)
        + fs[i].content.len() <= image(fs, now).len() by {
        lemma_contents_prefix(fs, i, fs.len() as int);
        lemma_contents_prefix(fs, i + 1, fs.len() as int);
        assert(fs.take(fs.len() as int) =~= fs);
    }
    assert forall|i: int, j: int| 0 <= i < j < fs.len() implies #[trigger] offset_of(fs, i)
        + fs[i].content.len() <= #[trigger] offset_of(fs, j) by {
        lemma_contents_prefix(fs, i, j);
        lemma_contents_prefix(fs, i + 1, j);
    }
}

/// What loading gives back of an archive holding `fs` saved at time `now`:
/// each entry's path and content, its creation and modification times as
/// stored (an epoch time reads back as unknown), its offset in the saved
/// bytes and the save time.
pub open spec fn reloaded(fs: Seq<FileView>, now: u64) -> Seq<FileView> {
    Seq::new(
        fs.len(),
        |i: int|
            FileView {
                offset: offset_of(fs, i) as u64,
                created_at: time_of(time_field(fs[i].created_at)),
                modified_at: time_of(time_field(fs[i].modified_at)),
                archived_at: Some(now),
                ..fs[i]
            },
    )
}

proof fn lemma_sub_concat(a: Seq<u8>, m: Seq<u8>, z: Seq<u8>, x: int, y: int)
    requires
        0 <= x <= y <= m.len(),
    ensures
        (a + m + z).subrange(a.len() + x, a.len() + y) == m.subrange(x, y),
{
    assert((a + m + z).subrange(a.len() + x, a.len() + y) =~= m.subrange(x, y));
}

proof fn lemma_table_entry(fs: Seq<FileView>, base: nat, now: u64, k: int)
    requires
        0 <= k < fs.len(),
    ensures
        table_len(fs.take(k + 1)) == table_len(fs.take(k)) + entry_len(fs[k]),
        table_len(fs.take(k + 1)) <= table_len(fs),
        table_bytes(fs, base, now).subrange(
            table_len(fs.take(k)) as int,
            (table_len(fs.take(k)) + entry_len(fs[k])) as int,
        ) == entry_bytes(fs[k], (base + contents_len(fs.take(k))) as u64, now),
    decreases fs.len(),
{
    lemma_auto_spec_u64_to_from_le_bytes();
    let e = entry_bytes(fs[k], (base + contents_len(fs.take(k))) as u64, now);
    assert(fs.take(k + 1).drop_last() =~= fs.take(k));
    lemma_lens_monotone(fs, k + 1);
    lemma_table_bytes_len(fs.take(k), base, now);
    if k == fs.len() - 1 {
        assert(fs.drop_last() =~= fs.take(k));
        lemma_table_bytes_len(fs.drop_last(), base, now);
        lemma_sub_concat(table_bytes(fs.drop_last(), base, now), e, Seq::empty(), 0, e.len() as int);
        assert(table_bytes(fs, base, now) =~= table_bytes(fs.drop_last(), base, now) + e + Seq::empty());
        assert(e.subrange(0, e.len() as int) =~= e);
    } else {
        let d = fs.drop_last();
        lemma_table_entry(d, base, now, k);
        assert(d.take(k) =~= fs.take(k));
        assert(d.take(k + 1) =~= fs.take(k + 1));
        lemma_table_bytes_len(d, base, now);
        let t = table_bytes(d, base, now);
        let last = entry_bytes(fs.last(), (base + contents_len(d)) as u64, now);
        assert(table_bytes(fs, base, now) == t + last);
        let lo = table_len(fs.take(k)) as int;
        let hi = lo + entry_len(fs[k]);
        assert((t + last).subrange(lo, hi) =~= t.subrange(lo, hi));
    }
}

proof fn lemma_contents_entry(fs: Seq<FileView>, k: int)
    requires
        0 <= k < fs.len(),
    ensures
        contents_bytes(fs).subrange(
            contents_len(fs.take(k)) as int,
            (contents_len(fs.take(k)) + fs[k].content.len()) as int,
        ) == fs[k].content,
    decreases fs.len(),
{
    lemma_contents_prefix(fs, k, fs.len() as int);
    lemma_contents_bytes_len(fs.take(k));
    if k == fs.len() - 1 {
        assert(fs.drop_last() =~= fs.take(k));
        assert(contents_bytes(fs).subrange(
            contents_len(fs.take(k)) as int,
            (contents_len(fs.take(k)) + fs[k].content.len()) as int,
        ) =~= fs[k].content);
    } else {
        let d = fs.drop_last();
        lemma_contents_entry(d, k);
        assert(d.take(k) =~= fs.take(k));
        assert(d.take(k + 1) =~= fs.take(k + 1));
        lemma_contents_prefix(d, k + 1, d.len() as int);
        assert(d.take(d.len() as int) =~= d);
        lemma_contents_bytes_len(d);
        let lo = contents_len(fs.take(k)) as int;
        let hi = lo + fs[k].content.len();
        assert((contents_bytes(d) + fs.last().content).subrange(lo, hi) =~= contents_bytes(d).subrange(lo, hi));
    }
}

/// Where the fields of a table entry sit, when the entry is found at `p`.
proof fn lemma_entry_fields(b: Seq<u8>, p: int, f: FileView, off: u64, now: u64)
    requires
        0 <= p,
        p + entry_len(f) <= b.len(),
        b.subrange(p, p + entry_len(f)) == entry_bytes(f, off, now),
    ensures
        ({
            let pl = path_bytes(f).len() as int;
            let q = p + 8 + pl;
            &&& b.subrange(p, p + 8) == le64(pl as u64)
            &&& b.subrange(p + 8, q) == path_bytes(f)
            &&& b.subrange(q, q + 8) == le64(f.content.len() as u64)
            &&& b.subrange(q + 8, q + 16) == le64(off)
            &&& b.subrange(q + 16, q + 24) == le64(time_field(f.created_at))
            &&& b.subrange(q + 24, q + 32) == le64(time_field(f.modified_at))
            &&& b.subrange(q + 32, q + 40) == le64(now)
        }),
{
    lemma_auto_spec_u64_to_from_le_bytes();
    let e = entry_bytes(f, off, now);
    let pb = path_bytes(f);
    let pl = pb.len() as int;
    assert(e.subrange(0, 8) =~= le64(pb.len() as u64));
    assert(e.subrange(8, 8 + pl) =~= pb);
    assert(e.subrange(8 + pl, 16 + pl) =~= le64(f.content.len() as u64));
    assert(e.subrange(16 + pl, 24 + pl) =~= le64(off));
    assert(e.subrange(24 + pl, 32 + pl) =~= le64(time_field(f.created_at)));
    assert(e.subrange(32 + pl, 40 + pl) =~= le64(time_field(f.modified_at)));
    assert(e.subrange(40 + pl, 48 + pl) =~= le64(now));
    assert forall|x: int, y: int| 0 <= x <= y <= entry_len(f) implies #[trigger] b.subrange(p + x, p + y)
        == e.subrange(x, y) by {
        assert(b.subrange(p + x, p + y) =~= b.subrange(p, p + entry_len(f)).subrange(x, y));
    }
    assert(b.subrange(p + 0, p + 8) == e.subrange(0, 8));
}

proof fn lemma_parse_entries(fs: Seq<FileView>, now: u64, k: int)
    requires
        image_len(fs) <= u64::MAX,
        0 <= k <= fs.len(),
    ensures
        parse_entries(
            image(fs, now),
            (24 + version_bytes().len() + table_len(fs.take(k))) as int,
            (fs.len() - k) as nat,
        ) == Some(reloaded(fs, now).subrange(k, fs.len() as int)),
    decreases fs.len() - k,
{
    let rs = reloaded(fs, now);
    if k == fs.len() {
        assert(rs.subrange(k, fs.len() as int) =~= Seq::<FileView>::empty());
    } else {
        lemma_parse_entries(fs, now, k + 1);
        lemma_auto_spec_u64_to_from_le_bytes();
        lemma_image_len(fs, now);
        lemma_offsets_disjoint(fs, now);
        let b = image(fs, now);
        let f = fs[k];
        let h0 = 24 + version_bytes().len();
        let h = header_len(fs);
        let lead = prelude_bytes() + le64(fs.len() as u64);
        let t = table_bytes(fs, h, now);
        let c = contents_bytes(fs);
        assert(lead.len() == h0);
        lemma_table_bytes_len(fs, h, now);
        lemma_table_entry(fs, h, now, k);
        let tk = table_len(fs.take(k)) as int;
        let p = h0 + tk;
        let off = offset_of(fs, k);
        let pb = path_bytes(f);
        let e = entry_bytes(f, off as u64, now);
        assert(e.len() == entry_len(f));
        lemma_sub_concat(lead, t, c, tk, tk + entry_len(f));
        assert(b.subrange(p, p + entry_len(f)) == e);
        let pl = pb.len() as int;
        let q = p + 8 + pl;
        lemma_entry_fields(b, p, f, off as u64, now);
        encode_utf8_valid_utf8(f.path);
        encode_utf8_decode_utf8(f.path);
        assert(lossy_text(pb) == f.path);
        lemma_contents_entry(fs, k);
        lemma_contents_bytes_len(fs);
        let ck = contents_len(fs.take(k)) as int;
        lemma_sub_concat(lead + t, c, Seq::empty(), ck, ck + f.content.len());
        assert(b =~= lead + t + c + Seq::empty());
        assert(b.subrange(off as int, off + f.content.len() as int) == f.content);
        assert(q + 40 == h0 + table_len(fs.take(k + 1)));
        assert(rs[k] == (FileView {
            offset: off as u64,
            created_at: time_of(time_field(f.created_at)),
            modified_at: time_of(time_field(f.modified_at)),
            archived_at: Some(now),
            ..f
        }));
        assert(seq![rs[k]] + rs.subrange(k + 1, fs.len() as int) =~= rs.subrange(k, fs.len() as int));
    }
}

proof fn lemma_table_len_bound(fs: Seq<FileView>)
    ensures
        table_len(fs) >= 48 * fs.len(),
    decreases fs.len(),
{
    if fs.len() > 0 {
        lemma_table_len_bound(fs.drop_last());
    }
}

/// Round trip: loading what a save of entries `fs` at time `now` wrote
/// gives back every entry, in order, with the same path and content, the
/// same creation and modification times up to an epoch time reading back as
/// unknown, its offset in the saved bytes, and the save time.
pub proof fn lemma_round_trip(fs: Seq<FileView>, now: u64)
    requires
        image_len(fs) <= u64::MAX,
    ensures
        parse_image(image(fs, now)) == Some(reloaded(fs, now)),
{
    lemma_auto_spec_u64_to_from_le_bytes();
    lemma_image_len(fs, now);
    lemma_parse_entries(fs, now, 0);
    lemma_table_len_bound(fs);
    let b = image(fs, now);
    let v = version_bytes();
    assert(fs.take(0) =~= Seq::<FileView>::empty());
    assert(b.subrange(0, 8) =~= le64(ARCHIVE_MAGIC_NUMBER));
    assert(b.subrange(8, 16) =~= le64(v.len() as u64));
    assert(b.subrange(16 + v.len() as int, 24 + v.len() as int) =~= le64(fs.len() as u64));
    assert(reloaded(fs, now).subrange(0, fs.len() as int) =~= reloaded(fs, now));
}

/// Round trip, timestamps included: when no creation or modification time
/// is exactly the epoch (which a stored 0, meaning unknown, cannot tell
/// apart), each reloaded entry differs from the saved one only in its offset
/// and archiving time.
pub proof fn lemma_round_trip_with_times(fs: Seq<FileView>, now: u64)
    requires
        image_len(fs) <= u64::MAX,
        forall|i: int|
            0 <= i < fs.len() ==> (#[trigger] fs[i]).created_at != Some(0u64) && fs[i].modified_at
                != Some(0u64),
    ensures
        parse_image(image(fs, now)) == Some(
            Seq::new(
                fs.len(),
                |i: int| FileView { offset: offset_of(fs, i) as u64, archived_at: Some(now), ..fs[i] },
            ),
        ),
{
    lemma_round_trip(fs, now);
    assert(reloaded(fs, now) =~= Seq::new(
        fs.len(),
        |i: int| FileView { offset: offset_of(fs, i) as u64, archived_at: Some(now), ..fs[i] },
    ));
}

/// Whether `gs` holds the same entries as `fs` as far as the saved form
/// goes: same paths, contents and source timestamps, in the same order.
pub open spec fn same_layout(fs: Seq<FileView>, gs: Seq<FileView>) -> bool {
    &&& fs.len() == gs.len()
    &&& forall|i: int|
        0 <= i < fs.len() ==> {
            &&& (#[trigger] gs[i]).path == fs[i].path
            &&& gs[i].content == fs[i].content
            &&& gs[i].created_at == fs[i].created_at
            &&& gs[i].modified_at == fs[i].modified_at
        }
}

proof fn lemma_same_layout_parts(fs: Seq<FileView>, gs: Seq<FileView>, base: nat, now: u64)
    requires
        same_layout(fs, gs),
    ensures
        table_len(gs) == table_len(fs),
        contents_len(gs) == contents_len(fs),
        table_bytes(gs, base, now) == table_bytes(fs, base, now),
        contents_bytes(gs) == contents_bytes(fs),
    decreases fs.len(),
{
    if fs.len() > 0 {
        let n = fs.len() - 1;
        assert(gs.last() == gs[n] && fs.last() == fs[n]);
        assert(same_layout(fs.drop_last(), gs.drop_last())) by {
            assert forall|i: int| 0 <= i < n implies gs.drop_last()[i] == gs[i] && fs.drop_last()[i] == fs[i] by {}
        }
        lemma_same_layout_parts(fs.drop_last(), gs.drop_last(), base, now);
    }
}

/// Saving is repeatable: entries as a save left them (with their offsets and
/// archiving time `then`) save at time `now` to the same bytes as the entries
/// did before, so the offsets come out the same.
pub proof fn lemma_save_repeatable(fs: Seq<FileView>, then: u64, now: u64)
    ensures
        ({
            let gs = Seq::new(fs.len(), |i: int| saved_file(fs[i], offset_of(fs, i), then));
            &&& image(gs, now) == image(fs, now)
            &&& forall|i: int| 0 <= i < fs.len() ==> #[trigger] offset_of(gs, i) == offset_of(fs, i)
        }),
{
    let gs = Seq::new(fs.len(), |i: int| saved_file(fs[i], offset_of(fs, i), then));
    assert(same_layout(fs, gs));
    lemma_same_layout_parts(fs, gs, header_len(fs), now);
    assert forall|i: int| 0 <= i < fs.len() implies #[trigger] offset_of(gs, i) == offset_of(fs, i) by {
        assert(same_layout(fs.take(i), gs.take(i))) by {
            assert forall|j: int| 0 <= j < i implies gs.take(i)[j] == gs[j] && fs.take(i)[j] == fs[j] by {}
        }
        lemma_same_layout_parts(fs.take(i), gs.take(i), 0, now);
    }
}

pub(crate) proof fn lemma_lens_monotone(fs: Seq<FileView>, i: int)
    requires
        0 <= i <= fs.len(),
    ensures
        table_len(fs.take(i)) <= table_len(fs),
        contents_len(fs.take(i)) <= contents_len(fs),
    decreases fs.len() - i,
{
    if i < fs.len() {
        lemma_lens_monotone(fs, i + 1);
        assert(fs.take(i + 1).drop_last() =~= fs.take(i));
    } else {
        assert(fs.take(i) =~= fs);
    }
}

/// Relies on `String::from_utf8_lossy`: its result depends on the bytes
/// alone, and valid UTF-8 comes back as the text it encodes.
#[verifier::external_body]
pub(crate) fn decode_lossy(b: &[u8]) -> (r: String)
    ensures
        valid_utf8(b@) ==> r@ == decode_utf8(b@),
        !valid_utf8(b@) ==> r@ == utf8_lossy(b@),
{
    String::from_utf8_lossy(b).into_owned()
}

/// A copy of `b[from..to]`.
pub(crate) fn copy_range(b: &[u8], from: usize, to: usize) -> (r: Vec<u8>)
    requires
        from <= to <= b@.len(),
    ensures
        r@ == b@.subrange(from as int, to as int),
{
    let mut v: Vec<u8> = Vec::new();
    let mut i: usize = from;
    while i < to
        invariant
            from <= i <= to,
            to <= b@.len(),
            v@ == b@.subrange(from as int, i as int),
        decreases to - i,
    {
        v.push(b[i]);
        i = i + 1;
        proof {
            assert(v@ =~= b@.subrange(from as int, i as int));
        }
    }
    v
}

/// The integer stored in eight little-endian bytes of `b` at `p`.
pub(crate) fn get_le64(b: &[u8], p: usize) -> (r: u64)
    requires
        p + 8 <= b@.len(),
    ensures
        Some(r) == read_le64(b@, p as int),
{
    let len = b.len();
    proof {
        assert(p + 8 <= len);
    }
    let v = copy_range(b, p, p + 8);
    u64_from_le_bytes(v.as_slice())
}

/// A stored timestamp as read back; see `time_of`.
pub(crate) fn time_from(v: u64) -> (r: Option<u64>)
    ensures
        r == time_of(v),
{
    if v == 0 {
        None
    } else {
        Some(v)
    }
}

/// A timestamp as stored; see `time_field`.
pub(crate) fn time_or_zero(t: Option<u64>) -> (r: u64)
    ensures
        r == time_field(t),
{
    match t {
        Some(v) => v,
        None => 0,
    }
}

/// Appends `b` to `out`.
pub(crate) fn push_bytes(out: &mut Vec<u8>, b: &[u8])
    ensures
        final(out)@ == old(out)@ + b@,
{
    let mut i: usize = 0;
    while i < b.len()
        invariant
            i <= b@.len(),
            out@ == old(out)@ + b@.subrange(0, i as int),
        decreases b@.len() - i,
    {
        out.push(b[i]);
        i = i + 1;
        proof {
            assert(out@ =~= old(out)@ + b@.subrange(0, i as int));
        }
    }
    proof {
        assert(b@.subrange(0, i as int) =~= b@);
    }
}

/// Appends `x` to `out` in eight little-endian bytes.
pub(crate) fn push_u64(out: &mut Vec<u8>, x: u64)
    ensures
        final(out)@ == old(out)@ + le64(x),
{
    let b = u64_to_le_bytes(x);
    push_bytes(out, b.as_slice());
}

} // verus!
