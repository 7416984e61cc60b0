//! The layout of downloaded components on disk: each dotted component name
//! becomes a directory path, with the code and the metadata beside each other.
use vstd::prelude::*;

use crate::error::DocError;
use crate::json::pretty_json;
use crate::key_path::{is_key_path, join_segments, parse_key_path, segments_view};

verus! {

/// One component as the store holds it.
pub struct ComponentRecord {
    /// The dotted name; the dots separate directories.
    pub name: String,
    /// The source text.
    pub code: String,
    /// Arbitrary JSON that describes the component, if any.
    pub metadata: Option<serde_json::Value>,
}

/// A file to write, below the root of the download.
pub struct FileEntry {
    /// The directories from the root, then the file name.
    pub path: Vec<String>,
    pub contents: String,
}

/// `segs` are the segments of the dotted name `name`.
pub open spec fn splits(name: Seq<char>, segs: Seq<Seq<char>>) -> bool {
    is_key_path(segs) && join_segments(segs) == name
}

/// The path of a file beside the directories of `segs`, named after the last
/// segment with `ext` appended.
pub open spec fn file_path(segs: Seq<Seq<char>>, ext: Seq<char>) -> Seq<Seq<char>> {
    segs.drop_last().push(segs.last() + ext)
}

/// What decoding `rec` gives: `InvalidKeyPath` for a name with an empty
/// segment; otherwise the code file `<stem>.jsx`, then, only when there is
/// metadata, the file `<stem>.metadata.json`.
pub open spec fn decoded(rec: ComponentRecord, r: Result<Vec<FileEntry>, DocError>) -> bool {
    match r {
        Err(e) => e == DocError::InvalidKeyPath && !crate::key_path::is_valid_key_text(rec.name@),
        Ok(files) => {
            &&& crate::key_path::is_valid_key_text(rec.name@)
            &&& files.len() == if rec.metadata is Some {
                2int
            } else {
                1int
            }
            &&& exists|segs: Seq<Seq<char>>|
                {
                    &&& #[trigger] splits(rec.name@, segs)
                    &&& segments_view(files@[0].path@) == file_path(segs, ".jsx"@)
                    &&& rec.metadata is Some ==> segments_view(files@[1].path@) == file_path(
                        segs,
                        ".metadata.json"@,
                    )
                }
            &&& files@[0].contents@ == rec.code@
        },
    }
}

/// The path of the file named after the last of `segs` with `ext` appended.
fn file_path_exec(segs: &Vec<String>, ext: &str) -> (r: Vec<String>)
    requires
        segs.len() > 0,
    ensures
        segments_view(r@) == file_path(segments_view(segs@), ext@),
{
    let mut out: Vec<String> = Vec::new();
    let last = segs.len() - 1;
    let mut i: usize = 0;
    while i < last
        invariant
            last == segs.len() - 1,
            i <= last,
            out.len() == i,
            segments_view(out@) == segments_view(segs@).take(i as int),
        decreases last - i,
    {
        let ghost before = out@;
        out.push(String::from_str(segs[i].as_str()));
        assert forall|k: int| 0 <= k <= i implies #[trigger] out@[k]@ == segs@[k]@ by {
            if k < i {
                assert(out@[k] == before[k]);
                assert(segments_view(before)[k] == segments_view(segs@).take(i as int)[k]);
            }
        }
        assert(segments_view(out@) =~= segments_view(segs@).take(i as int + 1));
        i = i + 1;
    }
    let mut name = String::from_str(segs[last].as_str());
    name.append(ext);
    out.push(name);
    assert(segments_view(out@) =~= file_path(segments_view(segs@), ext@));
    out
}

/// The files that hold one component.
pub fn decode_component(rec: &ComponentRecord) -> (r: Result<Vec<FileEntry>, DocError>)
    ensures
        decoded(*rec, r),
{
    let segs = parse_key_path(rec.name.as_str())?;
    let ghost sv = segments_view(segs@);
    let mut files: Vec<FileEntry> = Vec::new();
    let code_path = file_path_exec(&segs, ".jsx");
    files.push(FileEntry { path: code_path, contents: String::from_str(rec.code.as_str()) });
    match &rec.metadata {
        Some(m) => {
            let meta_path = file_path_exec(&segs, ".metadata.json");
            files.push(FileEntry { path: meta_path, contents: pretty_json(m) });
        },
        None => {},
    }
    assert(splits(rec.name@, sv));
    Ok(files)
}

/// What a download comes to: nothing to write, or the files of each
/// component in the order given.
pub enum DownloadPlan {
    NoComponents,
    Components(Vec<Result<Vec<FileEntry>, DocError>>),
}

/// Plans the download of an account's components. An account with no
/// document, or with a document that holds no component, gives
/// `NoComponents`; otherwise each component is decoded on its own, so that
/// one bad name does not stop the others.
pub fn plan_download(records: Option<Vec<ComponentRecord>>) -> (r: DownloadPlan)
    ensures
        match records {
            None => r is NoComponents,
            Some(recs) => if recs.len() == 0 {
                r is NoComponents
            } else {
                r matches DownloadPlan::Components(v) && v.len() == recs.len() && forall|i: int|
                    0 <= i < recs.len() ==> decoded(#[trigger] recs@[i], v@[i])
            },
        },
{
    match records {
        None => DownloadPlan::NoComponents,
        Some(recs) => {
            if recs.len() == 0 {
                return DownloadPlan::NoComponents;
            }
            let mut out: Vec<Result<Vec<FileEntry>, DocError>> = Vec::new();
            let mut i: usize = 0;
            while i < recs.len()
                invariant
                    i <= recs.len(),
                    out.len() == i,
                    forall|k: int| 0 <= k < i ==> decoded(#[trigger] recs@[k], out@[k]),
                decreases recs.len() - i,
            {
                out.push(decode_component(&recs[i]));
                i = i + 1;
            }
            DownloadPlan::Components(out)
        },
    }
}

} // verus!
