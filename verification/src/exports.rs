//! The files of an exported beatmapset: its assets, and each difficulty's
//! `.osu` text under a file name made from its version and beatmap id.
use vstd::prelude::*;
use vstd::utf8::encode_utf8;
use crate::dotosu::events::event_nesting_fits;
use crate::dotosu::osu_file::{OsuFile, osu_file_text};
use crate::files::{AssetsFolder, exact_asset, sanitize_name, sanitized};
use crate::text::{int_text, push_int, push_str, string_of};

verus! {

/// The file name of a difficulty: `{version} ({beatmap id}).osu`, made safe
/// for Windows.
pub open spec fn osu_file_name(version: Seq<char>, beatmap_id: int) -> Seq<char> {
    sanitized(version + " ("@ + int_text(beatmap_id) + ").osu"@)
}

/// The file name under which a difficulty is exported.
pub fn export_file_name(version: &str, beatmap_id: i64) -> (r: String)
    ensures
        r@ == osu_file_name(version@, beatmap_id as int),
{
    let mut out: Vec<char> = Vec::new();
    push_str(&mut out, version);
    push_str(&mut out, " (");
    push_int(&mut out, beatmap_id as i128);
    push_str(&mut out, ").osu");
    let raw = string_of(&out);
    assert(raw@ =~= version@ + " ("@ + int_text(beatmap_id as int) + ").osu"@);
    sanitize_name(raw.as_str())
}

/// The UTF-8 bytes of a text (`String::into_bytes`).
pub fn utf8_bytes(s: &str) -> (r: Vec<u8>)
    ensures
        r@ == encode_utf8(s@),
{
    let b = s.as_bytes();
    let mut out: Vec<u8> = Vec::new();
    let mut i: usize = 0;
    while i < b.len()
        invariant
            i <= b.len(),
            b@ == encode_utf8(s@),
            out@ == b@.take(i as int),
        decreases b.len() - i,
    {
        out.push(b[i]);
        i += 1;
        assert(out@ =~= b@.take(i as int));
    }
    assert(b@.take(i as int) =~= b@);
    out
}

/// What an export holds under `path`: the last difficulty written under it,
/// else the asset stored under it.
pub open spec fn exported_asset(
    assets: Seq<(Seq<char>, Seq<u8>)>,
    files: Seq<OsuFile>,
    path: Seq<char>,
) -> Option<Seq<u8>>
    decreases files.len(),
{
    if files.len() == 0 {
        exact_asset(assets, path)
    } else if osu_file_name(files.last().metadata.version@, files.last().metadata.beatmap_id as int)
        == path {
        Some(encode_utf8(osu_file_text(files.last())))
    } else {
        exported_asset(assets, files.drop_last(), path)
    }
}

/// The difficulties can be written: their storyboard commands fit the
/// indentation of the writer.
pub open spec fn files_writable(files: Seq<OsuFile>) -> bool {
    forall|i: int| 0 <= i < files.len() ==> file_writable(#[trigger] files[i])
}

/// A difficulty's storyboard commands fit the indentation of the writer.
pub open spec fn file_writable(f: OsuFile) -> bool {
    forall|j: int| 0 <= j < f.events.events@.len() ==> event_nesting_fits(#[trigger] f.events.events@[j])
}

/// The files of an export: the assets, then each difficulty's text under its
/// file name (a later one replacing an earlier file of the same name).
pub fn export_files(assets: &AssetsFolder, osu_files: &Vec<OsuFile>) -> (r: AssetsFolder)
    requires
        files_writable(osu_files@),
    ensures
        forall|p: Seq<char>| #[trigger]
            exact_asset(r.entries(), p) == exported_asset(assets.entries(), osu_files@, p),
{
    let mut all_files = assets.clone();
    let mut i: usize = 0;
    while i < osu_files.len()
        invariant
            i <= osu_files.len(),
            files_writable(osu_files@),
            forall|p: Seq<char>| #[trigger]
                exact_asset(all_files.entries(), p) == exported_asset(
                    assets.entries(),
                    osu_files@.take(i as int),
                    p,
                ),
        decreases osu_files.len() - i,
    {
        let f = &osu_files[i];
        assert(file_writable(osu_files@[i as int]));
        let name = export_file_name(f.metadata.version.as_str(), f.metadata.beatmap_id);
        let text = f.to_osu_text();
        let bytes = utf8_bytes(text.as_str());
        let ghost name_view = name@;
        all_files.insert(name, bytes);
        proof {
            let pre = osu_files@.take(i as int);
            let post = osu_files@.take(i + 1);
            assert(post.drop_last() =~= pre);
            assert(post.last() == osu_files@[i as int]);
            assert forall|p: Seq<char>| #[trigger]
                exact_asset(all_files.entries(), p) == exported_asset(assets.entries(), post, p) by {
                if p != name_view {
                    assert(exported_asset(assets.entries(), post, p) == exported_asset(
                        assets.entries(),
                        pre,
                        p,
                    ));
                }
            }
        }
        i += 1;
    }
    assert(osu_files@.take(i as int) =~= osu_files@);
    all_files
}

} // verus!
