//! Recursive ZIP discovery under the *configured* download directory.

use vstd::prelude::*;
use vstd::string::*;

use crate::config;
use crate::config::Config;
use crate::order;
use crate::paths;
use crate::paths::{extension, starts_with, strip_prefix};
use crate::text;
use crate::text::{eq_ignore_ascii_case, to_lowercase};

verus! {

pub struct ZipEntry {
    pub path: String,
    /// Path relative to the download directory, so nested files read as
    /// `Memory/MT41K128.zip` rather than losing their subfolder.
    pub display: String,
    pub size: u64,
}

pub struct ScanResult {
    pub entries: Vec<ZipEntry>,
    pub errors: Vec<String>,
}

/// One thing met on the way through the directory tree.
pub enum Met {
    File { path: String, size: u64 },
    /// Anything that is no plain file.
    Other { path: String },
    /// A subtree that could not be read, and which, when that is known.
    Error { at: Option<String>, message: String },
}

#[verifier::ext_equal]
pub struct ZipView {
    pub path: Seq<char>,
    pub display: Seq<char>,
    pub size: u64,
}

pub enum MetView {
    File { path: Seq<char>, size: u64 },
    Other { path: Seq<char> },
    Error { at: Option<Seq<char>>, message: Seq<char> },
}

impl View for ZipEntry {
    type V = ZipView;

    open spec fn view(&self) -> ZipView {
        ZipView { path: self.path@, display: self.display@, size: self.size }
    }
}

impl View for Met {
    type V = MetView;

    open spec fn view(&self) -> MetView {
        match *self {
            Met::File { path, size } => MetView::File { path: path@, size },
            Met::Other { path } => MetView::Other { path: path@ },
            Met::Error { at, message } => MetView::Error {
                at: text::opt_view(at),
                message: message@,
            },
        }
    }
}

pub open spec fn zip_views(list: Seq<ZipEntry>) -> Seq<ZipView> {
    list.map_values(|e: ZipEntry| e@)
}

pub open spec fn met_views(list: Seq<Met>) -> Seq<MetView> {
    list.map_values(|m: Met| m@)
}

impl Clone for ZipEntry {
    fn clone(&self) -> (r: ZipEntry)
        ensures
            r@ == self@,
    {
        ZipEntry { path: self.path.clone(), display: self.display.clone(), size: self.size }
    }
}

/// The place is a folder inside the download directory that is passed over, or
/// lies in one: the archive and the temp folder, so that importing a file does
/// not immediately re-queue it.
pub open spec fn is_skipped(cfg: config::ConfigView, path: Seq<char>) -> bool {
    ||| paths::within(cfg.archive_dir, cfg.download_dir) && paths::within(path, cfg.archive_dir)
    ||| paths::within(cfg.temp_dir, cfg.download_dir) && paths::within(path, cfg.temp_dir)
}

pub open spec fn is_zip(path: Seq<char>) -> bool {
    match paths::extension_of(path) {
        Some(e) => text::same_letters(e, "zip"@),
        None => false,
    }
}

/// How a file is shown in the queue.
pub open spec fn zip_entry(cfg: config::ConfigView, path: Seq<char>, size: u64) -> ZipView {
    ZipView {
        path,
        display: if paths::within(path, cfg.download_dir) {
            paths::rest_of(path, cfg.download_dir)
        } else {
            path
        },
        size,
    }
}

/// The archives met, in the order they were met.
pub open spec fn zips_met(cfg: config::ConfigView, met: Seq<MetView>) -> Seq<ZipView>
    decreases met.len(),
{
    if met.len() == 0 {
        Seq::empty()
    } else {
        let before = zips_met(cfg, met.drop_last());
        match met.last() {
            MetView::File { path, size } => if is_zip(path) && !is_skipped(cfg, path) {
                before.push(zip_entry(cfg, path, size))
            } else {
                before
            },
            _ => before,
        }
    }
}

/// What could not be read. A permission error on one subtree must not hide the
/// rest.
pub open spec fn errors_met(met: Seq<MetView>) -> Seq<Seq<char>>
    decreases met.len(),
{
    if met.len() == 0 {
        Seq::empty()
    } else {
        let before = errors_met(met.drop_last());
        match met.last() {
            MetView::Error { at: Some(p), message } => before.push(
                "cannot read "@ + p + ": "@ + message,
            ),
            MetView::Error { at: None, message } => before.push("walk error: "@ + message),
            _ => before,
        }
    }
}

pub open spec fn display_keys(list: Seq<ZipView>) -> Seq<Seq<char>> {
    list.map_values(|e: ZipView| text::lower(e.display))
}

/// The queue a walk through the download directory gives.
pub open spec fn queue_of(cfg: config::ConfigView, met: Seq<MetView>) -> Seq<ZipView> {
    let all = zips_met(cfg, met);
    order::arranged(all, display_keys(all))
}

/// Whether a walk passes over `path` and everything below it.
pub fn skips(cfg: &Config, path: &str) -> (r: bool)
    ensures
        r == is_skipped(cfg@, path@),
{
    (starts_with(cfg.archive_dir.as_str(), cfg.download_dir.as_str()) && starts_with(
        path,
        cfg.archive_dir.as_str(),
    )) || (starts_with(cfg.temp_dir.as_str(), cfg.download_dir.as_str()) && starts_with(
        path,
        cfg.temp_dir.as_str(),
    ))
}

pub fn has_zip_extension(path: &str) -> (r: bool)
    ensures
        r == is_zip(path@),
{
    match extension(path) {
        Some(e) => eq_ignore_ascii_case(e.as_str(), "zip"),
        None => false,
    }
}

/// Every `.zip` under `config.download_dir`, from what a recursive walk met.
///
/// The archive and temp directories are skipped so that importing a file does
/// not immediately re-queue it.
pub fn scan(cfg: &Config, exists: bool, met: &Vec<Met>) -> (r: ScanResult)
    ensures
        exists ==> zip_views(r.entries@) == queue_of(cfg@, met_views(met@)),
        exists ==> text::views(r.errors@) == errors_met(met_views(met@)),
        !exists ==> r.entries@.len() == 0,
        !exists ==> text::views(r.errors@) == seq![
            "ZIP directory does not exist: "@ + cfg@.download_dir,
        ],
{
    let mut found: Vec<ZipEntry> = Vec::new();
    let mut errors: Vec<String> = Vec::new();
    if !exists {
        let mut msg = "ZIP directory does not exist: ".to_string();
        msg.append(cfg.download_dir.as_str());
        errors.push(msg);
        assert(text::views(errors@) =~= seq![
            "ZIP directory does not exist: "@ + cfg@.download_dir,
        ]);
        return ScanResult { entries: found, errors };
    }
    let ghost all = met_views(met@);
    let mut i: usize = 0;
    proof {
        assert(all.take(0) =~= Seq::<MetView>::empty());
        assert(zip_views(found@) =~= Seq::<ZipView>::empty());
        assert(text::views(errors@) =~= Seq::<Seq<char>>::empty());
    }
    while i < met.len()
        invariant
            i <= met@.len(),
            all == met_views(met@),
            zip_views(found@) == zips_met(cfg@, all.take(i as int)),
            text::views(errors@) == errors_met(all.take(i as int)),
        decreases met.len() - i,
    {
        assert(all.take(i + 1).drop_last() =~= all.take(i as int));
        assert(all.take(i + 1).last() == met@[i as int]@);
        let ghost zips = zip_views(found@);
        let ghost errs = text::views(errors@);
        match &met[i] {
            Met::File { path, size } => {
                if has_zip_extension(path.as_str()) && !skips(cfg, path.as_str()) {
                    let display = match strip_prefix(path.as_str(), cfg.download_dir.as_str()) {
                        Some(rest) => rest,
                        None => path.clone(),
                    };
                    let entry = ZipEntry { path: path.clone(), display, size: *size };
                    let ghost now = entry@;
                    found.push(entry);
                    assert(zip_views(found@) =~= zips.push(now));
                }
            },
            Met::Other { path: _ } => {},
            Met::Error { at, message } => {
                let msg = match at {
                    Some(p) => {
                        let mut out = "cannot read ".to_string();
                        out.append(p.as_str());
                        out.append(": ");
                        out.append(message.as_str());
                        out
                    },
                    None => {
                        let mut out = "walk error: ".to_string();
                        out.append(message.as_str());
                        out
                    },
                };
                errors.push(msg);
                assert(text::views(errors@) =~= errs.push(msg@));
            },
        }
        i += 1;
    }
    assert(all.take(i as int) =~= all);
    ScanResult { entries: by_display(&found), errors }
}

fn by_display(list: &Vec<ZipEntry>) -> (r: Vec<ZipEntry>)
    ensures
        zip_views(r@) == order::arranged(
            zip_views(list@),
            display_keys(zip_views(list@)),
        ),
{
    let mut keys: Vec<String> = Vec::new();
    let mut j: usize = 0;
    while j < list.len()
        invariant
            j <= list@.len(),
            keys@.len() == j,
            forall|m: int|
                0 <= m < j ==> (#[trigger] keys@[m])@ == text::lower(list@[m].display@),
        decreases list.len() - j,
    {
        keys.push(to_lowercase(list[j].display.as_str()));
        j += 1;
    }
    let ghost all = zip_views(list@);
    assert(text::views(keys@) =~= display_keys(all));
    let ranks = order::rank(&keys);
    let mut out: Vec<ZipEntry> = Vec::new();
    let mut n: usize = 0;
    while n < ranks.len()
        invariant
            n <= ranks@.len() == list@.len(),
            all == zip_views(list@),
            out@.len() == n,
            forall|m: int| 0 <= m < ranks@.len() ==> (#[trigger] ranks@[m]) < list@.len(),
            forall|m: int| 0 <= m < n ==> (#[trigger] out@[m])@ == all[ranks@[m] as int],
        decreases ranks.len() - n,
    {
        out.push(list[ranks[n]].clone());
        n += 1;
    }
    assert(zip_views(out@) =~= order::arranged(all, display_keys(all)));
    out
}

/// Only archives are queued, none of them from a folder that is passed over.
pub proof fn lemma_zips_met(cfg: config::ConfigView, met: Seq<MetView>)
    ensures
        forall|i: int|
            0 <= i < zips_met(cfg, met).len() ==> is_zip(
                (#[trigger] zips_met(cfg, met)[i]).path,
            ) && !is_skipped(cfg, zips_met(cfg, met)[i].path),
        forall|k: int|
            0 <= k < met.len() ==> match #[trigger] met[k] {
                MetView::File { path, size } => is_zip(path) && !is_skipped(cfg, path)
                    ==> zips_met(cfg, met).contains(zip_entry(cfg, path, size)),
                _ => true,
            },
    decreases met.len(),
{
    if met.len() > 0 {
        let init = met.drop_last();
        let before = zips_met(cfg, init);
        let after = zips_met(cfg, met);
        lemma_zips_met(cfg, init);
        assert forall|i: int| 0 <= i < after.len() implies is_zip((#[trigger] after[i]).path)
            && !is_skipped(cfg, after[i].path) by {
            if i < before.len() {
                assert(after[i] == before[i]);
            }
        }
        assert forall|k: int| 0 <= k < met.len() implies match #[trigger] met[k] {
            MetView::File { path, size } => is_zip(path) && !is_skipped(cfg, path)
                ==> after.contains(zip_entry(cfg, path, size)),
            _ => true,
        } by {
            if let MetView::File { path, size } = met[k] {
                if is_zip(path) && !is_skipped(cfg, path) {
                    let e = zip_entry(cfg, path, size);
                    if k < init.len() {
                        assert(init[k] == met[k]);
                        assert(before.contains(e));
                        let j = before.index_of(e);
                        assert(after[j] == e);
                    } else {
                        assert(after[after.len() - 1] == e);
                    }
                }
            }
        }
    }
}

} // verus!
