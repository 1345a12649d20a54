use vstd::prelude::*;

use crate::archive::{file_views, Archive, ArchiveFile, FileView};
use crate::path::file_name;
use crate::filter::{captures, Filter, PartView};

verus! {

/// The patterns of a sequence of filters.
pub open spec fn filter_views(fs: Seq<Filter>) -> Seq<Seq<PartView>> {
    fs.map_values(|f: Filter| f@)
}

/// Whether some pattern of `filters` takes all of `name`.
pub open spec fn any_matches(filters: Seq<Seq<PartView>>, name: Seq<char>) -> bool {
    exists|k: int| 0 <= k < filters.len() && captures(#[trigger] filters[k], name) is Some
}

/// Whether `filters` select the entry `f`: all entries are selected when
/// there is no filter; otherwise those whose display name some filter matches.
pub open spec fn selected(filters: Seq<Seq<PartView>>, f: FileView) -> bool {
    filters.len() == 0 || (file_name(f.path) matches Some(n) && any_matches(filters, n))
}

/// The entries of `fs` that `filters` select, in order.
pub open spec fn selection(filters: Seq<Seq<PartView>>, fs: Seq<FileView>) -> Seq<FileView>
    decreases fs.len(),
{
    if fs.len() == 0 {
        Seq::empty()
    } else if selected(filters, fs.last()) {
        selection(filters, fs.drop_last()).push(fs.last())
    } else {
        selection(filters, fs.drop_last())
    }
}

/// The views of a sequence of borrowed files.
pub open spec fn ref_views(v: Seq<&ArchiveFile>) -> Seq<FileView> {
    v.map_values(|f: &ArchiveFile| f@)
}

/// Whether some filter matches `name`.
fn matches_any(filters: &[Filter], name: &str) -> (r: bool)
    ensures
        r == any_matches(filter_views(filters@), name@),
{
    let mut k: usize = 0;
    while k < filters.len()
        invariant
            k <= filters@.len(),
            forall|j: int|
                0 <= j < k ==> captures(#[trigger] filter_views(filters@)[j], name@) is None,
        decreases filters@.len() - k,
    {
        if filters[k].matches(name) {
            proof {
                assert(captures(filter_views(filters@)[k as int], name@) is Some);
            }
            return true;
        }
        k = k + 1;
    }
    false
}

/// The entries of `a` that `filters` select, in order, or `None` when there
/// is none.
pub fn filter_files<'a>(a: &'a Archive, filters: &[Filter]) -> (r: Option<Vec<&'a ArchiveFile>>)
    ensures
        match r {
            Some(v) => ref_views(v@) == selection(filter_views(filters@), a@.files) && v@.len() > 0,
            None => selection(filter_views(filters@), a@.files).len() == 0,
        },
{
    let ghost fv = filter_views(filters@);
    let files = a.files();
    let ghost fs = a@.files;
    let mut out: Vec<&'a ArchiveFile> = Vec::new();
    let mut i: usize = 0;
    while i < files.len()
        invariant
            fv == filter_views(filters@),
            fs == a@.files,
            fs == file_views(files@),
            i <= files@.len(),
            ref_views(out@) == selection(fv, fs.take(i as int)),
        decreases files@.len() - i,
    {
        let f = &files[i];
        let keep = filters.len() == 0 || match f.name() {
            Some(name) => matches_any(filters, name.as_str()),
            None => false,
        };
        proof {
            assert(fs.take(i + 1).drop_last() =~= fs.take(i as int));
            assert(fs.take(i + 1).last() == f@);
        }
        if keep {
            out.push(f);
            proof {
                assert(ref_views(out@) =~= selection(fv, fs.take(i as int)).push(f@));
            }
        }
        i = i + 1;
    }
    proof {
        assert(fs.take(i as int) =~= fs);
    }
    if out.len() == 0 {
        None
    } else {
        Some(out)
    }
}

} // verus!
