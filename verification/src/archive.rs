//! Archive reading and extraction.  The gzip, tar and zip formats are read
//! by outside crates through trusted wrappers on in-memory bytes; what each
//! call returns is named, since it is a function of the bytes alone.  The
//! extraction logic itself — destination paths, optional stripping of the
//! leading path component, directory creation — is verified against the
//! directory-tree model.

use vstd::prelude::*;

use crate::fstree::{
    lemma_agrees_outside_refl, lemma_agrees_outside_trans, lemma_insert_agrees,
    lemma_with_dirs_agrees, spec_agrees_outside, spec_can_write, spec_dirs_ok, spec_with_dirs,
    spec_written_node, FsNodeModel, FsState,
};
use crate::pathname::{
    clone_bytes, has_parent_ref, lemma_starts_with_refl, path_concat, path_strip_first,
    spec_components, spec_has_parent_ref, spec_starts_with, split_components, PathBuf,
};

verus! {

/// One archive entry: its stored name (`/`-separated), whether it denotes a
/// directory, and its contents.
pub struct ArchiveEntry {
    pub path: Vec<u8>,
    pub is_dir: bool,
    pub data: Vec<u8>,
}

/// Mathematical image of one entry.
pub struct ArchiveEntryModel {
    pub path: Seq<u8>,
    pub is_dir: bool,
    pub data: Seq<u8>,
}

impl View for ArchiveEntry {
    type V = ArchiveEntryModel;

    open spec fn view(&self) -> ArchiveEntryModel {
        ArchiveEntryModel { path: self.path@, is_dir: self.is_dir, data: self.data@ }
    }
}

impl DeepView for ArchiveEntry {
    type V = ArchiveEntryModel;

    open spec fn deep_view(&self) -> ArchiveEntryModel {
        self.view()
    }
}

/// What gzip decompression yields on given bytes, or nothing on a stream the
/// decoder rejects.
pub uninterp spec fn gunzip_of(b: Seq<u8>) -> Option<Seq<u8>>;

/// The entry list of an uncompressed tar stream, or nothing on one the
/// reader rejects.
pub uninterp spec fn tar_entries_of(b: Seq<u8>) -> Option<Seq<ArchiveEntryModel>>;

/// The entry list of a zip archive, or nothing on one the reader rejects.
pub uninterp spec fn zip_entries_of(b: Seq<u8>) -> Option<Seq<ArchiveEntryModel>>;

/// Relies on flate2's `GzDecoder`: decompression of an in-memory gzip stream
/// is a function of the bytes alone; a stream the decoder rejects is an
/// error.
#[verifier::external_body]
pub(crate) fn gunzip(b: &Vec<u8>) -> (r: Result<Vec<u8>, ()>)
    ensures
        match r {
            Ok(v) => gunzip_of(b@) == Some(v@),
            Err(()) => gunzip_of(b@) is None,
        },
{
    let mut out = Vec::new();
    let mut dec = flate2::read::GzDecoder::new(b.as_slice());
    match std::io::Read::read_to_end(&mut dec, &mut out) {
        Ok(_) => Ok(out),
        Err(_) => Err(()),
    }
}

/// Relies on the tar crate's `Archive`: the entries of an in-memory tar
/// stream — stored path bytes, directory flag, contents — are a function of
/// the bytes alone; a stream the reader rejects is an error.
#[verifier::external_body]
pub(crate) fn tar_entries(b: &Vec<u8>) -> (r: Result<Vec<ArchiveEntry>, ()>)
    ensures
        match r {
            Ok(v) => tar_entries_of(b@) == Some(v.deep_view()),
            Err(()) => tar_entries_of(b@) is None,
        },
{
    let mut out = Vec::new();
    let mut ar = tar::Archive::new(b.as_slice());
    for ent in ar.entries().map_err(|_| ())? {
        let mut ent = ent.map_err(|_| ())?;
        let path = ent.path_bytes().to_vec();
        let is_dir = ent.header().entry_type().is_dir();
        let mut data = Vec::new();
        std::io::Read::read_to_end(&mut ent, &mut data).map_err(|_| ())?;
        out.push(ArchiveEntry { path, is_dir, data });
    }
    Ok(out)
}

/// Relies on the zip crate's `ZipArchive`: the entries of an in-memory zip
/// archive — raw name bytes, directory flag, contents — are a function of the
/// bytes alone; an archive the reader rejects is an error.
#[verifier::external_body]
pub(crate) fn zip_entries(b: &Vec<u8>) -> (r: Result<Vec<ArchiveEntry>, ()>)
    ensures
        match r {
            Ok(v) => zip_entries_of(b@) == Some(v.deep_view()),
            Err(()) => zip_entries_of(b@) is None,
        },
{
    let cur = std::io::Cursor::new(b.as_slice());
    let mut ar = zip::ZipArchive::new(cur).map_err(|_| ())?;
    let mut out = Vec::new();
    for i in 0..ar.len() {
        let mut f = ar.by_index(i).map_err(|_| ())?;
        let path = f.name_raw().to_vec();
        let is_dir = f.is_dir();
        let mut data = Vec::new();
        std::io::Read::read_to_end(&mut f, &mut data).map_err(|_| ())?;
        out.push(ArchiveEntry { path, is_dir, data });
    }
    Ok(out)
}

/// Where an entry lands under `dest`: its meaningful path components, with
/// the first discarded in stripped mode.  `None` marks an entry extraction
/// skips: one with no components left, or one naming a parent directory.
/// Parent references are skipped in every mode, so no entry can ever land
/// outside `dest` — a deliberate tightening over naive zip extraction, which
/// would follow such names out of the destination.
pub open spec fn spec_entry_dest(
    dest: Seq<Seq<u8>>,
    e: ArchiveEntryModel,
    stripped: bool,
) -> Option<Seq<Seq<u8>>> {
    let comps = spec_components(e.path);
    if spec_has_parent_ref(comps) {
        None
    } else if stripped {
        if comps.len() > 1 {
            Some(dest + comps.skip(1))
        } else {
            None
        }
    } else {
        if comps.len() >= 1 {
            Some(dest + comps)
        } else {
            None
        }
    }
}

/// The tree after one entry: skipped entries change nothing; a directory
/// entry creates directories along its destination; a file entry creates its
/// parent directories and writes its contents.  `None` is a filesystem-level
/// failure.
pub open spec fn spec_apply_entry(
    m: Map<Seq<Seq<u8>>, FsNodeModel>,
    dest: Seq<Seq<u8>>,
    e: ArchiveEntryModel,
    stripped: bool,
) -> Option<Map<Seq<Seq<u8>>, FsNodeModel>> {
    match spec_entry_dest(dest, e, stripped) {
        None => Some(m),
        Some(q) => if e.is_dir {
            if spec_dirs_ok(m, q) {
                Some(spec_with_dirs(m, q))
            } else {
                None
            }
        } else {
            if spec_dirs_ok(m, q.drop_last()) {
                let m1 = spec_with_dirs(m, q.drop_last());
                if spec_can_write(m1, q) {
                    Some(m1.insert(q, spec_written_node(m1, q, e.data)))
                } else {
                    None
                }
            } else {
                None
            }
        },
    }
}

/// The tree after a whole entry list, in order; `None` as soon as one entry
/// fails.
pub open spec fn spec_extract(
    m: Map<Seq<Seq<u8>>, FsNodeModel>,
    dest: Seq<Seq<u8>>,
    es: Seq<ArchiveEntryModel>,
    stripped: bool,
) -> Option<Map<Seq<Seq<u8>>, FsNodeModel>>
    decreases es.len(),
{
    if es.len() == 0 {
        Some(m)
    } else {
        match spec_extract(m, dest, es.drop_last(), stripped) {
            None => None,
            Some(m1) => spec_apply_entry(m1, dest, es.last(), stripped),
        }
    }
}

/// Extract a list of entries into `dest`, flat or with the first path
/// component of every entry stripped.  On failure the tree keeps whatever
/// was extracted before the failing entry.
pub fn extract_entries(
    fs: &mut FsState,
    dest: &PathBuf,
    entries: &Vec<ArchiveEntry>,
    stripped: bool,
) -> (r: Result<(), ()>)
    requires
        old(fs).wf(),
    ensures
        final(fs).wf(),
        spec_agrees_outside(old(fs)@, final(fs)@, dest.deep_view()),
        r is Ok <==> spec_extract(old(fs)@, dest.deep_view(), entries.deep_view(), stripped)
            is Some,
        r is Ok ==> Some(final(fs)@) == spec_extract(
            old(fs)@,
            dest.deep_view(),
            entries.deep_view(),
            stripped,
        ),
{
    let ghost dv = dest.deep_view();
    let ghost ev = entries.deep_view();
    let mut i: usize = 0;
    proof {
        assert(ev.take(0) =~= Seq::<ArchiveEntryModel>::empty());
        assert(entries.deep_view().len() == entries@.len()) by {
            lemma_entries_deep_view(*entries);
        }
    }
    while i < entries.len()
        invariant
            dv == dest.deep_view(),
            ev == entries.deep_view(),
            ev.len() == entries@.len(),
            forall|j: int| 0 <= j < ev.len() ==> ev[j] == entries@[j]@,
            i <= entries@.len(),
            fs.wf(),
            Some(fs@) == spec_extract(old(fs)@, dv, ev.take(i as int), stripped),
            spec_agrees_outside(old(fs)@, fs@, dv),
        decreases entries@.len() - i,
    {
        proof {
            assert(ev.take(i + 1 as int).drop_last() =~= ev.take(i as int));
            assert(ev.take(i + 1 as int).last() == ev[i as int]);
        }
        let e = &entries[i];
        let comps = split_components(&e.path);
        let ghost ecomps = spec_components(ev[i as int].path);
        proof {
            assert(comps.deep_view() == ecomps);
            crate::pathname::lemma_deep_view_elems(comps);
        }
        if has_parent_ref(&comps) {
            proof {
                assert(spec_apply_entry(fs@, dv, ev[i as int], stripped) == Some(fs@));
            }
            i += 1;
            continue;
        }
        let target: PathBuf;
        if stripped {
            if comps.len() <= 1 {
                proof {
                    assert(spec_apply_entry(fs@, dv, ev[i as int], stripped) == Some(fs@));
                }
                i += 1;
                continue;
            }
            let tail = path_strip_first(&comps);
            proof {
                assert(tail.deep_view() == ecomps.subrange(1, ecomps.len() as int));
                assert(ecomps.subrange(1, ecomps.len() as int) =~= ecomps.skip(1));
            }
            target = path_concat(dest, &tail);
        } else {
            if comps.len() == 0 {
                proof {
                    assert(spec_apply_entry(fs@, dv, ev[i as int], stripped) == Some(fs@));
                }
                i += 1;
                continue;
            }
            target = path_concat(dest, &comps);
        }
        let ghost q = spec_entry_dest(dv, ev[i as int], stripped)->Some_0;
        proof {
            assert(target.deep_view() == q);
        }
        proof {
            assert(spec_starts_with(q, dv)) by {
                assert(q.subrange(0, dv.len() as int) =~= dv);
            }
        }
        if e.is_dir {
            if fs.create_dir_all(&target).is_err() {
                proof {
                    assert(spec_apply_entry(fs@, dv, ev[i as int], stripped) is None);
                    assert(spec_extract(old(fs)@, dv, ev.take(i + 1 as int), stripped) is None);
                    lemma_extract_fail_persists(old(fs)@, dv, ev, stripped, i + 1 as int);
                }
                return Err(());
            }
        } else {
            let parent = crate::pathname::path_parent(&target);
            proof {
                assert(target.deep_view().len() >= 1);
                assert(parent.deep_view() == q.drop_last());
                assert(spec_starts_with(q.drop_last(), dv)) by {
                    assert(q.drop_last().subrange(0, dv.len() as int) =~= dv);
                }
            }
            let ghost mpre = fs@;
            if fs.create_dir_all(&parent).is_err() {
                proof {
                    assert(spec_apply_entry(fs@, dv, ev[i as int], stripped) is None);
                    assert(spec_extract(old(fs)@, dv, ev.take(i + 1 as int), stripped) is None);
                    lemma_extract_fail_persists(old(fs)@, dv, ev, stripped, i + 1 as int);
                }
                return Err(());
            }
            proof {
                lemma_with_dirs_agrees(mpre, q.drop_last(), dv);
                lemma_agrees_outside_trans(old(fs)@, mpre, fs@, dv);
            }
            let data = clone_bytes(&e.data);
            if fs.write_file(&target, data).is_err() {
                proof {
                    assert(fs@ == spec_with_dirs(mpre, q.drop_last()));
                    assert(spec_apply_entry(mpre, dv, ev[i as int], stripped) is None);
                    assert(spec_extract(old(fs)@, dv, ev.take(i + 1 as int), stripped) is None);
                    lemma_extract_fail_persists(old(fs)@, dv, ev, stripped, i + 1 as int);
                }
                return Err(());
            }
        }
        proof {
            let prev = spec_extract(old(fs)@, dv, ev.take(i as int), stripped)->Some_0;
            assert(Some(fs@) == spec_apply_entry(prev, dv, ev[i as int], stripped));
            lemma_apply_entry_agrees(prev, dv, ev[i as int], stripped);
            lemma_agrees_outside_trans(old(fs)@, prev, fs@, dv);
        }
        i += 1;
    }
    proof {
        assert(ev.take(ev.len() as int) =~= ev);
    }
    Ok(())
}

/// Round trip of the two layouts: an entry whose stored path has at least
/// two meaningful components and no parent reference lands at
/// `dest/components[1..]` under stripped extraction and at
/// `dest/components` under flat extraction.
pub proof fn lemma_entry_dest_round_trip(dest: Seq<Seq<u8>>, e: ArchiveEntryModel)
    requires
        spec_components(e.path).len() > 1,
        !spec_has_parent_ref(spec_components(e.path)),
    ensures
        spec_entry_dest(dest, e, true) == Some(dest + spec_components(e.path).skip(1)),
        spec_entry_dest(dest, e, false) == Some(dest + spec_components(e.path)),
{
}

/// One applied entry unbinds nothing, and every path bound to a file stays
/// bound to a file.
proof fn lemma_apply_entry_keeps(
    m: Map<Seq<Seq<u8>>, FsNodeModel>,
    dest: Seq<Seq<u8>>,
    e: ArchiveEntryModel,
    stripped: bool,
)
    requires
        spec_apply_entry(m, dest, e, stripped) is Some,
    ensures
        forall|p: Seq<Seq<u8>>|
            #[trigger] m.contains_key(p) ==> spec_apply_entry(
                m,
                dest,
                e,
                stripped,
            )->Some_0.contains_key(p),
        forall|p: Seq<Seq<u8>>|
            #[trigger] m.contains_key(p) && m[p] is File ==> spec_apply_entry(
                m,
                dest,
                e,
                stripped,
            )->Some_0[p] is File,
{
}

/// A whole extraction unbinds nothing, and every path bound to a file stays
/// bound to a file.
pub proof fn lemma_extract_keeps(
    m: Map<Seq<Seq<u8>>, FsNodeModel>,
    dest: Seq<Seq<u8>>,
    es: Seq<ArchiveEntryModel>,
    stripped: bool,
)
    requires
        spec_extract(m, dest, es, stripped) is Some,
    ensures
        forall|p: Seq<Seq<u8>>|
            #[trigger] m.contains_key(p) ==> spec_extract(
                m,
                dest,
                es,
                stripped,
            )->Some_0.contains_key(p),
        forall|p: Seq<Seq<u8>>|
            #[trigger] m.contains_key(p) && m[p] is File ==> spec_extract(
                m,
                dest,
                es,
                stripped,
            )->Some_0[p] is File,
    decreases es.len(),
{
    if es.len() > 0 {
        lemma_extract_keeps(m, dest, es.drop_last(), stripped);
        lemma_apply_entry_keeps(
            spec_extract(m, dest, es.drop_last(), stripped)->Some_0,
            dest,
            es.last(),
            stripped,
        );
    }
}

/// Every file entry's landing spot is bound to a file when extraction
/// succeeds: stored paths land where the layout says, and stay.
pub proof fn lemma_extract_file_entry_lands(
    m: Map<Seq<Seq<u8>>, FsNodeModel>,
    dest: Seq<Seq<u8>>,
    es: Seq<ArchiveEntryModel>,
    stripped: bool,
    i: int,
)
    requires
        spec_extract(m, dest, es, stripped) is Some,
        0 <= i < es.len(),
        !es[i].is_dir,
        spec_entry_dest(dest, es[i], stripped) is Some,
    ensures
        spec_extract(m, dest, es, stripped)->Some_0.contains_key(
            spec_entry_dest(dest, es[i], stripped)->Some_0,
        ),
        spec_extract(m, dest, es, stripped)->Some_0[spec_entry_dest(
            dest,
            es[i],
            stripped,
        )->Some_0] is File,
    decreases es.len(),
{
    let target = spec_entry_dest(dest, es[i], stripped)->Some_0;
    if i == es.len() - 1 {
        let prev = spec_extract(m, dest, es.drop_last(), stripped)->Some_0;
        assert(es.last() == es[i]);
        let m1 = spec_with_dirs(prev, target.drop_last());
        assert(spec_apply_entry(prev, dest, es[i], stripped)->Some_0 == m1.insert(
            target,
            spec_written_node(m1, target, es[i].data),
        ));
    } else {
        assert(es.drop_last()[i] == es[i]);
        lemma_extract_file_entry_lands(m, dest, es.drop_last(), stripped, i);
        lemma_apply_entry_keeps(
            spec_extract(m, dest, es.drop_last(), stripped)->Some_0,
            dest,
            es.last(),
            stripped,
        );
    }
}

/// A failed extraction prefix fails the whole extraction.
proof fn lemma_extract_fail_persists(
    m: Map<Seq<Seq<u8>>, FsNodeModel>,
    dest: Seq<Seq<u8>>,
    es: Seq<ArchiveEntryModel>,
    stripped: bool,
    i: int,
)
    requires
        0 <= i <= es.len(),
        spec_extract(m, dest, es.take(i), stripped) is None,
    ensures
        spec_extract(m, dest, es, stripped) is None,
    decreases es.len() - i,
{
    if i < es.len() {
        assert(es.take(i + 1).drop_last() =~= es.take(i));
        lemma_extract_fail_persists(m, dest, es, stripped, i + 1);
    } else {
        assert(es.take(i) =~= es);
    }
}

/// One applied entry binds nothing outside the extraction destination.
proof fn lemma_apply_entry_agrees(
    m: Map<Seq<Seq<u8>>, FsNodeModel>,
    dest: Seq<Seq<u8>>,
    e: ArchiveEntryModel,
    stripped: bool,
)
    requires
        spec_apply_entry(m, dest, e, stripped) is Some,
    ensures
        spec_agrees_outside(m, spec_apply_entry(m, dest, e, stripped)->Some_0, dest),
{
    match spec_entry_dest(dest, e, stripped) {
        None => {
            lemma_agrees_outside_refl(m, dest);
        },
        Some(q) => {
            assert(spec_starts_with(q, dest)) by {
                assert(q.subrange(0, dest.len() as int) =~= dest);
            }
            if e.is_dir {
                lemma_with_dirs_agrees(m, q, dest);
            } else {
                assert(spec_starts_with(q.drop_last(), dest)) by {
                    assert(q.drop_last().subrange(0, dest.len() as int) =~= dest);
                }
                let m1 = spec_with_dirs(m, q.drop_last());
                lemma_with_dirs_agrees(m, q.drop_last(), dest);
                lemma_insert_agrees(m1, q, spec_written_node(m1, q, e.data), dest);
                lemma_agrees_outside_trans(
                    m,
                    m1,
                    m1.insert(q, spec_written_node(m1, q, e.data)),
                    dest,
                );
            }
        },
    }
}

/// A whole extraction binds nothing outside the destination.
proof fn lemma_extract_agrees(
    m: Map<Seq<Seq<u8>>, FsNodeModel>,
    dest: Seq<Seq<u8>>,
    es: Seq<ArchiveEntryModel>,
    stripped: bool,
)
    requires
        spec_extract(m, dest, es, stripped) is Some,
    ensures
        spec_agrees_outside(m, spec_extract(m, dest, es, stripped)->Some_0, dest),
    decreases es.len(),
{
    if es.len() == 0 {
        lemma_agrees_outside_refl(m, dest);
    } else {
        let m1 = spec_extract(m, dest, es.drop_last(), stripped)->Some_0;
        lemma_extract_agrees(m, dest, es.drop_last(), stripped);
        lemma_apply_entry_agrees(m1, dest, es.last(), stripped);
        lemma_agrees_outside_trans(
            m,
            m1,
            spec_apply_entry(m1, dest, es.last(), stripped)->Some_0,
            dest,
        );
    }
}

/// Each element of the deep view of an entry list is the view of the entry.
proof fn lemma_entries_deep_view(v: Vec<ArchiveEntry>)
    ensures
        v.deep_view().len() == v@.len(),
        forall|j: int| 0 <= j < v@.len() ==> v.deep_view()[j] == v@[j]@,
{
    assert forall|j: int| 0 <= j < v@.len() implies v.deep_view()[j] == v@[j]@ by {
        assert(v.deep_view()[j] == v@[j].deep_view());
    }
}

/// The tree a gzip-tar archive extracts to, or `None` when the stream or one
/// of its entries fails.
pub open spec fn spec_tar_gz_extract(
    m: Map<Seq<Seq<u8>>, FsNodeModel>,
    dest: Seq<Seq<u8>>,
    b: Seq<u8>,
    stripped: bool,
) -> Option<Map<Seq<Seq<u8>>, FsNodeModel>> {
    match gunzip_of(b) {
        None => None,
        Some(tb) => match tar_entries_of(tb) {
            None => None,
            Some(es) => spec_extract(m, dest, es, stripped),
        },
    }
}

/// The tree a zip archive extracts to (always flat: stored names are kept as
/// they are), or `None` when the archive or one of its entries fails.
pub open spec fn spec_zip_extract(
    m: Map<Seq<Seq<u8>>, FsNodeModel>,
    dest: Seq<Seq<u8>>,
    b: Seq<u8>,
) -> Option<Map<Seq<Seq<u8>>, FsNodeModel>> {
    match zip_entries_of(b) {
        None => None,
        Some(es) => spec_extract(m, dest, es, false),
    }
}

/// Extract a gzip-tar archive flat: every entry keeps its stored path under
/// `dest`.
pub fn extract_tar_gz(fs: &mut FsState, archive: &Vec<u8>, dest: &PathBuf) -> (r: Result<(), ()>)
    requires
        old(fs).wf(),
    ensures
        final(fs).wf(),
        spec_agrees_outside(old(fs)@, final(fs)@, dest.deep_view()),
        r is Ok <==> spec_tar_gz_extract(old(fs)@, dest.deep_view(), archive@, false) is Some,
        r is Ok ==> Some(final(fs)@) == spec_tar_gz_extract(
            old(fs)@,
            dest.deep_view(),
            archive@,
            false,
        ),
        (r is Err && (gunzip_of(archive@) is None || tar_entries_of(gunzip_of(archive@)->Some_0)
            is None)) ==> final(fs)@ == old(fs)@,
    {
    let tar_bytes = match gunzip(archive) {
        Ok(b) => b,
        Err(()) => {
            proof {
                lemma_agrees_outside_refl(fs@, dest.deep_view());
            }
            return Err(());
        },
    };
    let entries = match tar_entries(&tar_bytes) {
        Ok(es) => es,
        Err(()) => {
            proof {
                lemma_agrees_outside_refl(fs@, dest.deep_view());
            }
            return Err(());
        },
    };
    extract_entries(fs, dest, &entries, false)
}

/// Extract a gzip-tar archive discarding the first path component of every
/// entry; entries with a single component are skipped.
pub fn extract_tar_gz_uv(fs: &mut FsState, archive: &Vec<u8>, dest: &PathBuf) -> (r: Result<
    (),
    (),
>)
    requires
        old(fs).wf(),
    ensures
        final(fs).wf(),
        spec_agrees_outside(old(fs)@, final(fs)@, dest.deep_view()),
        r is Ok <==> spec_tar_gz_extract(old(fs)@, dest.deep_view(), archive@, true) is Some,
        r is Ok ==> Some(final(fs)@) == spec_tar_gz_extract(
            old(fs)@,
            dest.deep_view(),
            archive@,
            true,
        ),
        (r is Err && (gunzip_of(archive@) is None || tar_entries_of(gunzip_of(archive@)->Some_0)
            is None)) ==> final(fs)@ == old(fs)@,
{
    let tar_bytes = match gunzip(archive) {
        Ok(b) => b,
        Err(()) => {
            proof {
                lemma_agrees_outside_refl(fs@, dest.deep_view());
            }
            return Err(());
        },
    };
    let entries = match tar_entries(&tar_bytes) {
        Ok(es) => es,
        Err(()) => {
            proof {
                lemma_agrees_outside_refl(fs@, dest.deep_view());
            }
            return Err(());
        },
    };
    extract_entries(fs, dest, &entries, true)
}

/// Extract a zip archive flat: directory entries are created, file entries
/// are written under their stored names.
pub fn extract_zip(fs: &mut FsState, archive: &Vec<u8>, dest: &PathBuf) -> (r: Result<(), ()>)
    requires
        old(fs).wf(),
    ensures
        final(fs).wf(),
        spec_agrees_outside(old(fs)@, final(fs)@, dest.deep_view()),
        r is Ok <==> spec_zip_extract(old(fs)@, dest.deep_view(), archive@) is Some,
        r is Ok ==> Some(final(fs)@) == spec_zip_extract(old(fs)@, dest.deep_view(), archive@),
        (r is Err && zip_entries_of(archive@) is None) ==> final(fs)@ == old(fs)@,
{
    let entries = match zip_entries(archive) {
        Ok(es) => es,
        Err(()) => {
            proof {
                lemma_agrees_outside_refl(fs@, dest.deep_view());
            }
            return Err(());
        },
    };
    extract_entries(fs, dest, &entries, false)
}

} // verus!
