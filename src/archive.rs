//! The archive of the whole share: where it is cached, which files go in and in
//! what order, the steps that build and publish it, and the name it is
//! downloaded under.

use crate::fingerprint::{in_name_order, sort_by_name, views_of, FileStamp};
use crate::paths::{join_name, joined};
use vstd::prelude::*;
use vstd::utf8::encode_utf8;

verus! {

/// Names as stamps of time zero, so that they sort as the fingerprint sorts.
pub open spec fn name_keys(names: Seq<String>) -> Seq<(Seq<u8>, u64)> {
    names.map_values(|n: String| (encode_utf8(n@), 0u64))
}

/// `sorted` holds `names` in byte-wise order of their UTF-8 encodings.
pub open spec fn in_name_keys_order(sorted: Seq<String>, names: Seq<String>) -> bool {
    name_keys(sorted) == in_name_order(name_keys(names))
}

/// The names sorted byte-wise, the order of the listing and of the archive.
pub fn sort_names(names: &Vec<String>) -> (r: Vec<String>)
    ensures
        in_name_keys_order(r@, names@),
{
    let mut stamps: Vec<FileStamp> = Vec::new();
    let mut i: usize = 0;
    while i < names.len()
        invariant
            i <= names@.len(),
            stamps@.len() == i,
            views_of(stamps@) == name_keys(names@).take(i as int),
        decreases names@.len() - i,
    {
        let ghost before = stamps@;
        stamps.push(FileStamp { name: names[i].clone(), mtime: 0 });
        proof {
            assert(stamps@ == before.push(stamps@[i as int]));
            assert(stamps@[i as int]@ == name_keys(names@)[i as int]);
            assert forall|k: int| 0 <= k < i + 1 implies views_of(stamps@)[k] == name_keys(
                names@,
            ).take(i + 1)[k] by {
                if k < i {
                    assert(views_of(before)[k] == name_keys(names@).take(i as int)[k]);
                }
            }
            assert(views_of(stamps@) =~= name_keys(names@).take(i + 1));
        }
        i = i + 1;
    }
    proof {
        assert(name_keys(names@).take(names@.len() as int) =~= name_keys(names@));
    }
    let sorted = sort_by_name(&stamps);
    proof {
        crate::fingerprint::lemma_stamp_order_total();
        name_keys(names@).lemma_sort_by_ensures(crate::fingerprint::stamp_order());
        assert forall|k: int| 0 <= k < sorted@.len() implies #[trigger] sorted@[k].mtime == 0 by {
            let x = views_of(sorted@)[k];
            assert(in_name_order(name_keys(names@)).contains(x));
            assert(name_keys(names@).contains(x));
        }
    }
    let mut out: Vec<String> = Vec::new();
    let mut j: usize = 0;
    while j < sorted.len()
        invariant
            j <= sorted@.len(),
            out@.len() == j,
            name_keys(out@) == views_of(sorted@).take(j as int),
            forall|k: int| 0 <= k < sorted@.len() ==> #[trigger] sorted@[k].mtime == 0,
        decreases sorted@.len() - j,
    {
        let ghost before = out@;
        out.push(sorted[j].name.clone());
        proof {
            assert(out@ == before.push(out@[j as int]));
            assert(name_keys(out@)[j as int] == views_of(sorted@)[j as int]);
            assert forall|k: int| 0 <= k < j + 1 implies name_keys(out@)[k] == views_of(
                sorted@,
            ).take(j + 1)[k] by {
                if k < j {
                    assert(name_keys(before)[k] == views_of(sorted@).take(j as int)[k]);
                }
            }
            assert(name_keys(out@) =~= views_of(sorted@).take(j + 1));
        }
        j = j + 1;
    }
    proof {
        assert(views_of(sorted@).take(sorted@.len() as int) =~= views_of(sorted@));
    }
    out
}

/// The directory under the share root that holds built archives.
pub open spec fn cache_dir(share_dir: Seq<char>) -> Seq<char> {
    joined(share_dir, ".zipcache"@)
}

/// Where the archive for `fingerprint` is published.
pub open spec fn cache_file(share_dir: Seq<char>, fingerprint: Seq<char>) -> Seq<char> {
    joined(cache_dir(share_dir), fingerprint + ".zip"@)
}

/// Where the archive for `fingerprint` is written before it is published.
pub open spec fn temp_file(share_dir: Seq<char>, fingerprint: Seq<char>) -> Seq<char> {
    joined(cache_dir(share_dir), fingerprint + ".tmp"@)
}

/// Two builders that list the same files, in whatever order, add them to the
/// archive in the same order.
pub proof fn lemma_archive_order_independent(a: Seq<String>, b: Seq<String>)
    requires
        name_keys(a).to_multiset() == name_keys(b).to_multiset(),
    ensures
        in_name_order(name_keys(a)) == in_name_order(name_keys(b)),
{
    crate::fingerprint::lemma_name_order_independent(name_keys(a), name_keys(b));
}

/// The cache directory under the share root.
pub fn cache_directory(share_dir: &str) -> (r: String)
    ensures
        r@ == cache_dir(share_dir@),
{
    proof {
        reveal_strlit(".zipcache");
    }
    join_name(share_dir, ".zipcache")
}

/// The paths of one cached archive.
pub struct CachePaths {
    /// The directory to create if it is missing.
    pub dir: String,
    /// The published archive, `<fingerprint>.zip`.
    pub archive: String,
    /// The file the archive is written to first, `<fingerprint>.tmp`.
    pub temp: String,
}

/// The cache directory, the published archive and its temporary file for a
/// fingerprint.
pub fn cache_paths(share_dir: &str, fingerprint: &str) -> (r: CachePaths)
    requires
        !(fingerprint@.len() > 0 && fingerprint@[0] == '/'),
    ensures
        r.dir@ == cache_dir(share_dir@),
        r.archive@ == cache_file(share_dir@, fingerprint@),
        r.temp@ == temp_file(share_dir@, fingerprint@),
{
    proof {
        reveal_strlit(".zip");
        reveal_strlit(".tmp");
    }
    let dir = cache_directory(share_dir);
    let zip_name = fingerprint.to_owned().concat(".zip");
    let tmp_name = fingerprint.to_owned().concat(".tmp");
    proof {
        if fingerprint@.len() == 0 {
            assert(zip_name@[0] == '.');
            assert(tmp_name@[0] == '.');
        } else {
            assert(zip_name@[0] == fingerprint@[0]);
            assert(tmp_name@[0] == fingerprint@[0]);
        }
    }
    let archive = join_name(dir.as_str(), zip_name.as_str());
    let temp = join_name(dir.as_str(), tmp_name.as_str());
    CachePaths { dir, archive, temp }
}

/// The published archive and the temporary file never share a path, so a
/// reader that opens only the published path never sees a partial archive;
/// and every builder for one fingerprint publishes to the same path.
pub proof fn lemma_temp_never_published(share_dir: Seq<char>, fingerprint: Seq<char>)
    ensures
        cache_file(share_dir, fingerprint) != temp_file(share_dir, fingerprint),
{
    reveal_strlit(".zip");
    reveal_strlit(".tmp");
    let d = cache_dir(share_dir);
    let z = cache_file(share_dir, fingerprint);
    let t = temp_file(share_dir, fingerprint);
    assert(z.len() == t.len());
    assert(z[z.len() - 1] == 'p');
    assert(t[t.len() - 1] == 'p');
    assert(z[z.len() - 2] == 'i');
    assert(t[t.len() - 2] == 'm');
}

/// The steps of serving the archive, each one an outside operation.
#[derive(Clone, Copy, Debug, PartialEq, Eq)]
pub enum ZipStage {
    /// Create the cache directory (errors ignored) and fingerprint the share.
    Fingerprint,
    /// Open the published archive for the fingerprint, if it exists.
    OpenCached,
    /// List the eligible files of the share.
    ListFiles,
    /// Build the archive in memory: the files in name order, stored
    /// uncompressed, skipping any file that cannot be read.
    Build,
    /// Write the built archive to the temporary file.
    WriteTemp,
    /// Rename the temporary file to the published archive.
    Publish,
    /// Open the published archive.
    OpenPublished,
}

/// Why serving the archive failed.
#[derive(Clone, Copy, Debug, PartialEq, Eq)]
pub enum ZipFailure {
    Hashing,
    ReadDir,
    CreateZip,
    WriteZip,
    SaveCache,
    ReadZip,
}

/// The message shown for each failure.
pub open spec fn failure_text(f: ZipFailure) -> Seq<char> {
    match f {
        ZipFailure::Hashing => "Hashing failed"@,
        ZipFailure::ReadDir => "Failed to read dir"@,
        ZipFailure::CreateZip => "Failed to create ZIP"@,
        ZipFailure::WriteZip => "Failed to write ZIP"@,
        ZipFailure::SaveCache => "Failed to save ZIP cache"@,
        ZipFailure::ReadZip => "ZIP read error"@,
    }
}

/// The message of the server error for a failure.
pub fn failure_message(f: ZipFailure) -> (r: &'static str)
    ensures
        r@ == failure_text(f),
{
    match f {
        ZipFailure::Hashing => "Hashing failed",
        ZipFailure::ReadDir => "Failed to read dir",
        ZipFailure::CreateZip => "Failed to create ZIP",
        ZipFailure::WriteZip => "Failed to write ZIP",
        ZipFailure::SaveCache => "Failed to save ZIP cache",
        ZipFailure::ReadZip => "ZIP read error",
    }
}

/// What to do after a step.
#[derive(Clone, Copy, Debug, PartialEq, Eq)]
pub enum ZipStep {
    /// Perform this step next.
    Next(ZipStage),
    /// Stream the file that the last step opened.
    Serve,
    /// Answer with a server error.
    Fail(ZipFailure),
}

/// The step after `stage`, given whether it succeeded.
pub open spec fn next_step(stage: ZipStage, succeeded: bool) -> ZipStep {
    match stage {
        ZipStage::Fingerprint => if succeeded {
            ZipStep::Next(ZipStage::OpenCached)
        } else {
            ZipStep::Fail(ZipFailure::Hashing)
        },
        ZipStage::OpenCached => if succeeded {
            ZipStep::Serve
        } else {
            ZipStep::Next(ZipStage::ListFiles)
        },
        ZipStage::ListFiles => if succeeded {
            ZipStep::Next(ZipStage::Build)
        } else {
            ZipStep::Fail(ZipFailure::ReadDir)
        },
        ZipStage::Build => if succeeded {
            ZipStep::Next(ZipStage::WriteTemp)
        } else {
            ZipStep::Fail(ZipFailure::CreateZip)
        },
        ZipStage::WriteTemp => if succeeded {
            ZipStep::Next(ZipStage::Publish)
        } else {
            ZipStep::Fail(ZipFailure::WriteZip)
        },
        ZipStage::Publish => if succeeded {
            ZipStep::Next(ZipStage::OpenPublished)
        } else {
            ZipStep::Fail(ZipFailure::SaveCache)
        },
        ZipStage::OpenPublished => if succeeded {
            ZipStep::Serve
        } else {
            ZipStep::Fail(ZipFailure::ReadZip)
        },
    }
}

/// Decides the step after `stage`. A cached archive that opens is served as it
/// is; otherwise the archive is built, written aside and published before it
/// is served.
pub fn advance(stage: ZipStage, succeeded: bool) -> (r: ZipStep)
    ensures
        r == next_step(stage, succeeded),
{
    match stage {
        ZipStage::Fingerprint => if succeeded {
            ZipStep::Next(ZipStage::OpenCached)
        } else {
            ZipStep::Fail(ZipFailure::Hashing)
        },
        ZipStage::OpenCached => if succeeded {
            ZipStep::Serve
        } else {
            ZipStep::Next(ZipStage::ListFiles)
        },
        ZipStage::ListFiles => if succeeded {
            ZipStep::Next(ZipStage::Build)
        } else {
            ZipStep::Fail(ZipFailure::ReadDir)
        },
        ZipStage::Build => if succeeded {
            ZipStep::Next(ZipStage::WriteTemp)
        } else {
            ZipStep::Fail(ZipFailure::CreateZip)
        },
        ZipStage::WriteTemp => if succeeded {
            ZipStep::Next(ZipStage::Publish)
        } else {
            ZipStep::Fail(ZipFailure::WriteZip)
        },
        ZipStage::Publish => if succeeded {
            ZipStep::Next(ZipStage::OpenPublished)
        } else {
            ZipStep::Fail(ZipFailure::SaveCache)
        },
        ZipStage::OpenPublished => if succeeded {
            ZipStep::Serve
        } else {
            ZipStep::Fail(ZipFailure::ReadZip)
        },
    }
}

/// The stages visited from `stage` on, each one's outcome taken in turn from
/// `outcomes`, stopping at the first step that is not `Next` or when the
/// outcomes run out.
pub open spec fn run_from(stage: ZipStage, outcomes: Seq<bool>) -> Seq<ZipStage>
    decreases outcomes.len(),
{
    if outcomes.len() == 0 {
        seq![stage]
    } else {
        match next_step(stage, outcomes[0]) {
            ZipStep::Next(s) => seq![stage] + run_from(s, outcomes.drop_first()),
            _ => seq![stage],
        }
    }
}

/// When the published archive for the fingerprint opens, it is served at once:
/// nothing is listed, built, written or renamed.
pub proof fn lemma_cache_hit_builds_nothing(rest: Seq<bool>)
    ensures
        run_from(ZipStage::Fingerprint, seq![true, true] + rest) == seq![
            ZipStage::Fingerprint,
            ZipStage::OpenCached,
        ],
        next_step(ZipStage::OpenCached, true) == ZipStep::Serve,
{
    let o = seq![true, true] + rest;
    assert(o[0]);
    assert(o.drop_first()[0]);
    assert(run_from(ZipStage::OpenCached, o.drop_first()) == seq![ZipStage::OpenCached]);
    assert(run_from(ZipStage::Fingerprint, o) =~= seq![ZipStage::Fingerprint] + seq![
        ZipStage::OpenCached,
    ]);
}

/// A served archive that was built is published first: a run that reaches
/// `OpenPublished` passed through `WriteTemp` and then `Publish`.
pub proof fn lemma_served_build_was_published(outcomes: Seq<bool>)
    requires
        run_from(ZipStage::Fingerprint, outcomes).contains(ZipStage::OpenPublished),
    ensures
        outcomes.len() >= 6,
        run_from(ZipStage::Fingerprint, outcomes).take(7) == seq![
            ZipStage::Fingerprint,
            ZipStage::OpenCached,
            ZipStage::ListFiles,
            ZipStage::Build,
            ZipStage::WriteTemp,
            ZipStage::Publish,
            ZipStage::OpenPublished,
        ],
{
    reveal_with_fuel(run_from, 8);
    let r = run_from(ZipStage::Fingerprint, outcomes);
    let k = choose|k: int| 0 <= k < r.len() && r[k] == ZipStage::OpenPublished;
    assert(outcomes.len() >= 6) by {
        if outcomes.len() < 6 {
            assert(false);
        }
    }
    assert(r.take(7) =~= seq![
        ZipStage::Fingerprint,
        ZipStage::OpenCached,
        ZipStage::ListFiles,
        ZipStage::Build,
        ZipStage::WriteTemp,
        ZipStage::Publish,
        ZipStage::OpenPublished,
    ]);
}

/// What went into a built archive and what was left out.
pub struct ArchiveReport {
    /// Files written into the archive, in order.
    pub added: Vec<String>,
    /// Files that could not be read or written, in order.
    pub skipped: Vec<String>,
}

impl ArchiveReport {
    /// A report of an archive with no files yet.
    pub fn new() -> (r: ArchiveReport)
        ensures
            r.added@.len() == 0,
            r.skipped@.len() == 0,
    {
        ArchiveReport { added: Vec::new(), skipped: Vec::new() }
    }

    /// Records the outcome of one file: added when `written`, else skipped.
    pub fn record(&mut self, name: String, written: bool)
        ensures
            written ==> final(self).added@ == old(self).added@.push(name),
            written ==> final(self).skipped@ == old(self).skipped@,
            !written ==> final(self).skipped@ == old(self).skipped@.push(name),
            !written ==> final(self).added@ == old(self).added@,
    {
        if written {
            self.added.push(name);
        } else {
            self.skipped.push(name);
        }
    }
}

} // verus!
