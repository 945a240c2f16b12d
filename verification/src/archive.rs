//! Packing a beatmapset's files into a `.osz` (zip) archive and unpacking
//! one. The zip format is the `zip` crate's work; each of its calls stands
//! behind a small trusted function. What a writer holds, what an archive and
//! its entries hold, and the bytes of a finished archive are named, and the
//! two functions here are exact over those names.
use vstd::prelude::*;
use vstd::utf8::encode_utf8;

verus! {

#[verifier::external_type_specification]
#[verifier::external_body]
#[verifier::reject_recursive_types(T)]
pub struct ExCursor<T>(std::io::Cursor<T>);

/// A zip writer over an in-memory buffer (`zip::ZipWriter`, whose type Verus
/// cannot declare: its parameter is bound by `std::io` traits).
#[verifier::external_body]
pub struct ZipOut {
    writer: zip::ZipWriter<std::io::Cursor<Vec<u8>>>,
}

#[verifier::external_type_specification]
#[verifier::external_body]
#[verifier::reject_recursive_types(R)]
pub struct ExZipArchive<R>(zip::ZipArchive<R>);

/// An entry of an archive being read (`zip::read::ZipFile`, whose type Verus
/// cannot declare: its parameter is bound by `std::io::Read`).
#[verifier::external_body]
pub struct ZipEntry<'a> {
    file: zip::read::ZipFile<'a, std::io::Cursor<Vec<u8>>>,
}

/// The entries that a zip writer holds so far: each name with the bytes
/// written under it.
pub uninterp spec fn zip_written(out: ZipOut) -> Seq<(Seq<char>, Seq<u8>)>;

/// Whether a zip writer is as a run of accepted calls leaves it: every
/// `start_file` and every write on it succeeded, so its last entry (if any) is
/// open for writing and its buffer holds nothing but its entries. A refused
/// name closes the entry that was open, and a refused write leaves the bytes
/// of the undone entry in the buffer; of such a writer nothing is stated.
pub uninterp spec fn zip_unbroken(out: ZipOut) -> bool;

/// The bytes of the archive that an unbroken zip writer finishes with these
/// entries, each stored uncompressed, written into an empty buffer.
pub uninterp spec fn zip_bytes(entries: Seq<(Seq<char>, Seq<u8>)>) -> Seq<u8>;

/// What the zip crate reads from these bytes: `None` where it reads no
/// archive, else per entry `None` where the entry cannot be opened, or its
/// name, whether it is a directory, and its contents (`None` where reading
/// them fails).
pub uninterp spec fn zip_parse(bytes: Seq<u8>) -> Option<
    Seq<Option<(Seq<char>, bool, Option<Seq<u8>>)>>,
>;

/// The entries of an open archive, as `zip_parse` gives them.
pub uninterp spec fn archive_entries(archive: zip::ZipArchive<std::io::Cursor<Vec<u8>>>) -> Seq<
    Option<(Seq<char>, bool, Option<Seq<u8>>)>,
>;

/// An opened entry: its name, whether it is a directory, and what reading it
/// to its end gives from where it stands (`None` where that fails); for an
/// entry just opened, its contents.
pub uninterp spec fn zip_entry(entry: ZipEntry<'_>) -> (Seq<char>, bool, Option<Seq<u8>>);

/// The largest entry, in bytes, that the zip writer takes without its
/// large-file option (`u32::MAX`).
pub open spec fn zip_entry_limit() -> int {
    0xFFFF_FFFF
}

/// Entries that the zip writer takes, one after the other: no name twice,
/// and no entry over the size limit.
pub open spec fn zip_writable(entries: Seq<(Seq<char>, Seq<u8>)>) -> bool {
    &&& forall|i: int, j: int| 0 <= i < j < entries.len() ==> entries[i].0 != entries[j].0
    &&& forall|i: int| 0 <= i < entries.len() ==> entries[i].1.len() <= zip_entry_limit()
}

/// Whether the writer holds an entry of this name.
pub open spec fn holds_name(entries: Seq<(Seq<char>, Seq<u8>)>, name: Seq<char>) -> bool {
    exists|i: int| 0 <= i < entries.len() && entries[i].0 == name
}

/// Entries that the zip crate is shown to read back as written: each under
/// `u32::MAX` bytes. The writer records an entry's offset past the first
/// 4 GiB in a ZIP64 field; an entry of exactly `u32::MAX` bytes there would
/// also have size fields that read as the ZIP64 marker, which that field does
/// not answer.
pub open spec fn zip_read_back_fits(entries: Seq<(Seq<char>, Seq<u8>)>) -> bool {
    forall|i: int| 0 <= i < entries.len() ==> entries[i].1.len() < zip_entry_limit()
}

/// A name that the zip crate reads as a directory: it ends in `/` or `\`.
pub open spec fn zip_dir_name(name: Seq<char>) -> bool {
    name.len() > 0 && (name.last() == '/' || name.last() == '\\')
}

/// What reading an archive gives of the entries it was written with: each
/// entry opens, under its name, as a directory where its name says so, and
/// reads as its contents.
pub open spec fn zip_read_back(entries: Seq<(Seq<char>, Seq<u8>)>) -> Seq<
    Option<(Seq<char>, bool, Option<Seq<u8>>)>,
> {
    entries.map_values(
        |e: (Seq<char>, Seq<u8>)| Some((e.0, zip_dir_name(e.0), Some(e.1))),
    )
}

/// `ZipWriter::new` over a new `Cursor` of an empty buffer: an unbroken
/// writer that holds no entry yet.
#[verifier::external_body]
fn zip_writer_new() -> (r: ZipOut)
    ensures
        zip_written(r) == Seq::<(Seq<char>, Seq<u8>)>::empty(),
        zip_unbroken(r),
{
    ZipOut { writer: zip::ZipWriter::new(std::io::Cursor::new(Vec::new())) }
}

/// `ZipWriter::start_file` with stored (uncompressed) entries: starts the
/// entry `name`, which then holds no bytes and is open for writing. On an
/// unbroken writer over writable entries it succeeds exactly where no entry
/// of that name is there yet (the crate refuses a duplicate name); of the
/// writer after a refusal nothing is stated. The crate panics on a name
/// longer than `u16::MAX` bytes, which `requires` leaves out.
#[verifier::external_body]
fn zip_start_file(out: &mut ZipOut, name: String) -> (r: bool)
    requires
        zip_unbroken(*old(out)),
        encode_utf8(name@).len() <= 0xFFFF,
    ensures
        r ==> zip_unbroken(*final(out)),
        r ==> zip_written(*final(out)) == zip_written(*old(out)).push((name@, Seq::<u8>::empty())),
        zip_writable(zip_written(*old(out))) ==> (r <==> !holds_name(
            zip_written(*old(out)),
            name@,
        )),
{
    let options = zip::write::SimpleFileOptions::default().compression_method(
        zip::CompressionMethod::Stored,
    );
    out.writer.start_file(name, options).is_ok()
}

/// `Write::write_all` on a `ZipWriter`: appends `bytes` to the entry last
/// started, which on an unbroken writer is open. Over writable entries it
/// fails exactly where the entry would
/// grow past the size limit (the crate refuses an entry over `u32::MAX`
/// bytes without its large-file option; the in-memory buffer takes any
/// write); of the writer after a failure nothing is stated.
#[verifier::external_body]
fn zip_write_all(out: &mut ZipOut, bytes: &Vec<u8>) -> (r: bool)
    requires
        zip_unbroken(*old(out)),
        zip_written(*old(out)).len() > 0,
    ensures
        r ==> zip_unbroken(*final(out)),
        r ==> zip_written(*final(out)) == zip_written(*old(out)).update(
            zip_written(*old(out)).len() - 1,
            (zip_written(*old(out)).last().0, zip_written(*old(out)).last().1 + bytes@),
        ),
        zip_writable(zip_written(*old(out))) ==> (r <==> zip_written(*old(out)).last().1.len()
            + bytes@.len() <= zip_entry_limit()),
{
    std::io::Write::write_all(&mut out.writer, bytes.as_slice()).is_ok()
}

/// `ZipWriter::finish`, then `Cursor::into_inner`, on an unbroken writer: the
/// archive's bytes, which are those of the writer's entries (the crate is
/// built without its `time` feature, so every entry carries the same fixed
/// date). Over writable entries finishing succeeds: it writes the central
/// directory and end record (with ZIP64 records where the entries or offsets
/// need them) into the in-memory buffer, which takes any write. The zip crate
/// reads those bytes back as the entries written, each in order, under its
/// name and with its contents, where each entry is under `u32::MAX` bytes.
#[verifier::external_body]
fn zip_finish(out: ZipOut) -> (r: Option<Vec<u8>>)
    requires
        zip_unbroken(out),
    ensures
        r matches Some(b) ==> b@ == zip_bytes(zip_written(out)),
        zip_writable(zip_written(out)) ==> r is Some,
        r matches Some(b) ==> (zip_writable(zip_written(out)) && zip_read_back_fits(
            zip_written(out),
        ) ==> zip_parse(b@) == Some(zip_read_back(zip_written(out)))),
{
    match out.writer.finish() {
        Ok(cursor) => Some(cursor.into_inner()),
        Err(_) => None,
    }
}

/// Files as names and contents.
pub open spec fn file_views(files: Seq<(String, Vec<u8>)>) -> Seq<(Seq<char>, Seq<u8>)> {
    files.map_values(|f: (String, Vec<u8>)| (f.0@, f.1@))
}

/// Packs the files, each under its name and uncompressed, in order, into a
/// zip archive: the bytes that the `zip` crate writes for them. `None`
/// exactly where the zip writer refuses them: a name given twice, or a file
/// over `u32::MAX` bytes. Where each file is under `u32::MAX` bytes, the zip
/// crate reads the archive back as the files packed. A name longer than `u16::MAX`
/// bytes makes the zip crate panic, so `requires` leaves it out.
pub fn create_zip(files: Vec<(String, Vec<u8>)>) -> (r: Option<Vec<u8>>)
    requires
        forall|i: int| 0 <= i < files.len() ==> encode_utf8((#[trigger] files@[i]).0@).len() <= 0xFFFF,
    ensures
        r is Some <==> zip_writable(file_views(files@)),
        r matches Some(b) ==> b@ == zip_bytes(file_views(files@)),
        r matches Some(b) ==> (zip_read_back_fits(file_views(files@)) ==> zip_parse(b@) == Some(
            zip_read_back(file_views(files@)),
        )),
{
    let mut writer = zip_writer_new();
    let mut i: usize = 0;
    while i < files.len()
        invariant
            i <= files.len(),
            zip_written(writer) == file_views(files@.take(i as int)),
            zip_unbroken(writer),
            zip_writable(file_views(files@.take(i as int))),
            forall|k: int| 0 <= k < files.len() ==> encode_utf8((#[trigger] files@[k]).0@).len() <= 0xFFFF,
        decreases files.len() - i,
    {
        let ghost before = file_views(files@.take(i as int));
        let ghost all = file_views(files@);
        assert(before =~= all.take(i as int));
        let name = files[i].0.clone();
        if !zip_start_file(&mut writer, name) {
            proof {
                let j = choose|j: int| 0 <= j < before.len() && before[j].0 == all[i as int].0;
                assert(all[j].0 == all[i as int].0);
            }
            return None;
        }
        if !zip_write_all(&mut writer, &files[i].1) {
            assert(all[i as int].1.len() > zip_entry_limit());
            return None;
        }
        assert(file_views(files@.take(i + 1)) =~= file_views(files@.take(i as int)).push(
            (files@[i as int].0@, files@[i as int].1@),
        ));
        assert(Seq::<u8>::empty() + files@[i as int].1@ =~= files@[i as int].1@);
        i += 1;
    }
    assert(files@.take(i as int) =~= files@);
    zip_finish(writer)
}

/// `ZipArchive::new` over a `Cursor` of `bytes`: the archive that the crate
/// reads from them, with the entries that `zip_parse` names; `None` exactly
/// where it reads none.
#[verifier::external_body]
fn zip_archive_new(bytes: Vec<u8>) -> (r: Option<zip::ZipArchive<std::io::Cursor<Vec<u8>>>>)
    ensures
        r is Some <==> zip_parse(bytes@) is Some,
        r matches Some(a) ==> zip_parse(bytes@) == Some(archive_entries(a)),
{
    zip::ZipArchive::new(std::io::Cursor::new(bytes)).ok()
}

/// `ZipArchive::len`: the number of entries.
#[verifier::external_body]
fn zip_archive_len(archive: &zip::ZipArchive<std::io::Cursor<Vec<u8>>>) -> (r: usize)
    ensures
        r == archive_entries(*archive).len(),
{
    archive.len()
}

/// `ZipArchive::by_index`: opens entry `index`; `None` exactly where it cannot
/// be opened. Opening an entry leaves the archive's entries as they were.
#[verifier::external_body]
fn zip_by_index<'a>(archive: &'a mut zip::ZipArchive<std::io::Cursor<Vec<u8>>>, index: usize) -> (r:
    Option<ZipEntry<'a>>)
    requires
        index < archive_entries(*old(archive)).len(),
    ensures
        archive_entries(*final(archive)) == archive_entries(*old(archive)),
        r is Some <==> archive_entries(*old(archive))[index as int] is Some,
        r matches Some(e) ==> archive_entries(*old(archive))[index as int] == Some(zip_entry(e)),
{
    match archive.by_index(index) {
        Ok(file) => Some(ZipEntry { file }),
        Err(_) => None,
    }
}

/// `ZipFile::is_dir`: whether the entry is a directory.
#[verifier::external_body]
fn zip_file_is_dir(entry: &ZipEntry<'_>) -> (r: bool)
    ensures
        r == zip_entry(*entry).1,
{
    entry.file.is_dir()
}

/// `ZipFile::name`: the entry's name, as a `String`.
#[verifier::external_body]
fn zip_file_name(entry: &ZipEntry<'_>) -> (r: String)
    ensures
        r@ == zip_entry(*entry).0,
{
    entry.file.name().to_string()
}

/// `Read::read_to_end` on an entry: what is left of its contents (all of
/// them, for an entry just opened), or `None` exactly where reading fails.
#[verifier::external_body]
fn zip_file_read(entry: &mut ZipEntry<'_>) -> (r: Option<Vec<u8>>)
    ensures
        r is Some <==> zip_entry(*old(entry)).2 is Some,
        r matches Some(b) ==> zip_entry(*old(entry)).2 == Some(b@),
{
    let mut bytes: Vec<u8> = Vec::new();
    match std::io::Read::read_to_end(&mut entry.file, &mut bytes) {
        Ok(_) => Some(bytes),
        Err(_) => None,
    }
}

/// The files that unpacking gives of these entries: in order, the name and
/// contents of each entry that opens, is no directory and reads.
pub open spec fn readable_files(entries: Seq<Option<(Seq<char>, bool, Option<Seq<u8>>)>>) -> Seq<
    (Seq<char>, Seq<u8>),
>
    decreases entries.len(),
{
    if entries.len() == 0 {
        seq![]
    } else {
        let prev = readable_files(entries.drop_last());
        match entries.last() {
            Some((name, false, Some(contents))) => prev.push((name, contents)),
            _ => prev,
        }
    }
}

/// Packing, then unpacking, gives back the files: where no name is a
/// directory's, unpacking the entries that reading a packed archive gives
/// (`zip_read_back`, as `create_zip` states of files each under
/// `u32::MAX` bytes) yields exactly the files packed, in order.
pub proof fn lemma_pack_unpack(files: Seq<(Seq<char>, Seq<u8>)>)
    requires
        forall|i: int| 0 <= i < files.len() ==> !zip_dir_name(#[trigger] files[i].0),
    ensures
        readable_files(zip_read_back(files)) == files,
    decreases files.len(),
{
    if files.len() > 0 {
        let init = files.drop_last();
        assert forall|i: int| 0 <= i < init.len() implies !zip_dir_name(#[trigger] init[i].0) by {
            assert(init[i] == files[i]);
        }
        lemma_pack_unpack(init);
        assert(zip_read_back(files).drop_last() =~= zip_read_back(init));
        assert(!zip_dir_name(files[files.len() - 1].0));
        assert(files =~= init.push(files.last()));
    }
}

/// Unpacks a zip archive into its files, each with its name and contents, in
/// the archive's order; directories and entries that cannot be opened or read
/// are left out. `None` exactly where the bytes are no archive that the `zip`
/// crate reads.
pub fn extract_zip(bytes: Vec<u8>) -> (r: Option<Vec<(String, Vec<u8>)>>)
    ensures
        r is Some <==> zip_parse(bytes@) is Some,
        r matches Some(files) ==> file_views(files@) == readable_files(zip_parse(bytes@).unwrap()),
{
    let ghost parsed = zip_parse(bytes@);
    let mut archive = match zip_archive_new(bytes) {
        Some(a) => a,
        None => return None,
    };
    let ghost entries = archive_entries(archive);
    let n = zip_archive_len(&archive);
    let mut extracted: Vec<(String, Vec<u8>)> = Vec::new();
    let mut i: usize = 0;
    while i < n
        invariant
            i <= n,
            n == entries.len(),
            parsed == Some(entries),
            archive_entries(archive) == entries,
            file_views(extracted@) == readable_files(entries.take(i as int)),
        decreases n - i,
    {
        assert(entries.take(i + 1).drop_last() =~= entries.take(i as int));
        assert(entries.take(i + 1).last() == entries[i as int]);
        match zip_by_index(&mut archive, i) {
            Some(mut file) => {
                if !zip_file_is_dir(&file) {
                    let name = zip_file_name(&file);
                    match zip_file_read(&mut file) {
                        Some(contents) => {
                            let ghost before = extracted@;
                            extracted.push((name, contents));
                            assert(file_views(extracted@) =~= file_views(before).push(
                                (name@, contents@),
                            ));
                        },
                        None => {},
                    }
                }
            },
            None => {},
        }
        i += 1;
    }
    assert(entries.take(n as int) =~= entries);
    Some(extracted)
}

} // verus!
