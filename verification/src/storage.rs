//! Split storage: metadata stays under the metadata root (where the database and
//! subscriptions point), video files go to a separate root with the same relative
//! directory layout.
use vstd::prelude::*;

use crate::path::{
    components, concat_components, is_absolute, is_absolute_path, lemma_path_parts_wf,
    lemma_render_parse, path_parts, path_starts_with, render, render_parts, same_path,
    strip_parts, strip_prefix, wf_parts, Part, is_prefix,
};
use crate::text::{is_blank, trim};

verus! {

/// Why a storage layout or one of its path mappings was refused.
#[derive(Debug, Clone, Copy, PartialEq, Eq, Structural)]
pub enum StorageError {
    /// Only one of the metadata and video roots is set.
    RootsNotPaired,
    /// A root is not an absolute path.
    RootNotAbsolute,
    /// One root lies inside the other.
    RootsOverlap,
    /// The path is not under the metadata root.
    OutsideMetadataRoot,
    /// The path is the metadata root itself.
    IsMetadataRoot,
    /// The path is not under the video root.
    OutsideVideoRoot,
}

/// Where metadata and video files are stored.
pub struct StorageLayout {
    metadata_root: String,
    video_root: String,
}

/// The roots of a [`StorageLayout`].
pub struct LayoutView {
    pub metadata_root: Seq<char>,
    pub video_root: Seq<char>,
}

impl View for StorageLayout {
    type V = LayoutView;

    closed spec fn view(&self) -> LayoutView {
        LayoutView { metadata_root: self.metadata_root@, video_root: self.video_root@ }
    }
}

/// What holds of the roots of every layout: both absolute, neither inside the other.
pub open spec fn layout_wf(l: LayoutView) -> bool {
    &&& is_absolute_path(l.metadata_root)
    &&& is_absolute_path(l.video_root)
    &&& !roots_overlap(l.metadata_root, l.video_root)
}

/// Whether one of two paths lies inside the other (`Path::starts_with` either way).
pub open spec fn roots_overlap(a: Seq<char>, b: Seq<char>) -> bool {
    is_prefix(path_parts(b), path_parts(a)) || is_prefix(path_parts(a), path_parts(b))
}

/// The path under `to_root` with the components that follow `from_root` in `p`.
pub open spec fn rebased(p: Seq<char>, from_root: Seq<char>, to_root: Seq<char>) -> Option<Seq<char>> {
    match strip_parts(p, from_root) {
        Some(rel) => Some(render_parts(path_parts(to_root) + rel)),
        None => None,
    }
}

/// The video path that `StorageLayout::video_path` gives for the metadata path `m`.
pub open spec fn video_path_of(l: LayoutView, m: Seq<char>) -> Result<Seq<char>, StorageError> {
    match strip_parts(m, l.metadata_root) {
        None => Err(StorageError::OutsideMetadataRoot),
        Some(rel) => if rel.len() == 0 {
            Err(StorageError::IsMetadataRoot)
        } else {
            Ok(render_parts(path_parts(l.video_root) + rel))
        },
    }
}

/// The metadata path that `StorageLayout::metadata_path_for_video` gives for the video path `v`.
pub open spec fn metadata_path_of(l: LayoutView, v: Seq<char>) -> Result<Seq<char>, StorageError> {
    match rebased(v, l.video_root, l.metadata_root) {
        None => Err(StorageError::OutsideVideoRoot),
        Some(p) => Ok(p),
    }
}

impl StorageLayout {
    #[verifier::type_invariant]
    spec fn roots_valid(self) -> bool {
        layout_wf(self@)
    }

    /// Pairs the configured roots (`BILI_SYNC_METADATA_ROOT`, `BILI_SYNC_VIDEO_ROOT`;
    /// an empty value counts as unset). `Ok(None)`: split storage is off. `Ok(Some(..))`:
    /// both roots, which are absolute; they still have to be resolved before
    /// [`StorageLayout::new`].
    pub fn roots_from_env(metadata: Option<&str>, video: Option<&str>) -> (r: Result<
        Option<(String, String)>,
        StorageError,
    >)
        ensures
            ({
                let m = match metadata {
                    Some(s) => if s@.len() > 0 {
                        Some(s@)
                    } else {
                        None
                    },
                    None => None,
                };
                let v = match video {
                    Some(s) => if s@.len() > 0 {
                        Some(s@)
                    } else {
                        None
                    },
                    None => None,
                };
                match (m, v) {
                    (None, None) => r matches Ok(None),
                    (Some(a), Some(b)) => if is_absolute_path(a) && is_absolute_path(b) {
                        r matches Ok(Some((x, y))) && x@ == a && y@ == b
                    } else {
                        r matches Err(StorageError::RootNotAbsolute)
                    },
                    _ => r matches Err(StorageError::RootsNotPaired),
                }
            }),
    {
        let m = match metadata {
            Some(s) => if !s.is_empty() {
                Some(s)
            } else {
                None
            },
            None => None,
        };
        let v = match video {
            Some(s) => if !s.is_empty() {
                Some(s)
            } else {
                None
            },
            None => None,
        };
        match (m, v) {
            (None, None) => Ok(None),
            (Some(a), Some(b)) => {
                if !is_absolute(a) || !is_absolute(b) {
                    Err(StorageError::RootNotAbsolute)
                } else {
                    Ok(Some((a.to_owned(), b.to_owned())))
                }
            },
            _ => Err(StorageError::RootsNotPaired),
        }
    }

    /// The layout with the resolved (absolute) roots, refused when one lies inside the other.
    pub fn new(metadata_root: String, video_root: String) -> (r: Result<StorageLayout, StorageError>)
        requires
            is_absolute_path(metadata_root@),
            is_absolute_path(video_root@),
        ensures
            roots_overlap(metadata_root@, video_root@) ==> r matches Err(StorageError::RootsOverlap),
            !roots_overlap(metadata_root@, video_root@) ==> (r matches Ok(l) && l@.metadata_root
                == metadata_root@ && l@.video_root == video_root@),
    {
        if path_starts_with(metadata_root.as_str(), video_root.as_str()) || path_starts_with(
            video_root.as_str(),
            metadata_root.as_str(),
        ) {
            return Err(StorageError::RootsOverlap);
        }
        Ok(StorageLayout { metadata_root, video_root })
    }

    /// Where the video for the metadata path `metadata_path` is stored: the same
    /// components below the video root as `metadata_path` has below the metadata root.
    /// Mapping the video path back gives a path with the components of
    /// `metadata_path`.
    pub fn video_path(&self, metadata_path: &str) -> (r: Result<String, StorageError>)
        ensures
            layout_wf(self@),
            match video_path_of(self@, metadata_path@) {
                Ok(p) => r matches Ok(s) && s@ == p,
                Err(e) => r matches Err(x) && x == e,
            },
            r matches Ok(s) ==> strip_parts(s@, self@.video_root) == strip_parts(
                metadata_path@,
                self@.metadata_root,
            ),
            r matches Ok(s) ==> (metadata_path_of(self@, s@) matches Ok(back) && path_parts(back)
                == path_parts(metadata_path@)),
    {
        proof {
            use_type_invariant(self);
            if video_path_of(self@, metadata_path@) is Ok {
                lemma_video_path_roundtrip(self@, metadata_path@);
            }
        }
        match strip_prefix(metadata_path, self.metadata_root.as_str()) {
            None => Err(StorageError::OutsideMetadataRoot),
            Some(rel) => {
                if rel.len() == 0 {
                    return Err(StorageError::IsMetadataRoot);
                }
                let root = components(self.video_root.as_str());
                Ok(render(&concat_components(&root, &rel)))
            },
        }
    }

    /// The metadata path that corresponds to the video path `video_path`.
    pub fn metadata_path_for_video(&self, video_path: &str) -> (r: Result<String, StorageError>)
        ensures
            layout_wf(self@),
            match metadata_path_of(self@, video_path@) {
                Ok(p) => r matches Ok(s) && s@ == p,
                Err(e) => r matches Err(x) && x == e,
            },
    {
        proof {
            use_type_invariant(self);
        }
        match strip_prefix(video_path, self.video_root.as_str()) {
            None => Err(StorageError::OutsideVideoRoot),
            Some(rel) => {
                let root = components(self.metadata_root.as_str());
                Ok(render(&concat_components(&root, &rel)))
            },
        }
    }

    /// The video path for `metadata_path` under the layout in use: unchanged when
    /// split storage is off (`None`).
    pub fn video_path_for(layout: Option<&StorageLayout>, metadata_path: &str) -> (r: Result<
        String,
        StorageError,
    >)
        ensures
            match layout {
                None => r matches Ok(s) && s@ == metadata_path@,
                Some(l) => match video_path_of(l@, metadata_path@) {
                    Ok(p) => r matches Ok(s) && s@ == p,
                    Err(e) => r matches Err(x) && x == e,
                },
            },
    {
        match layout {
            None => Ok(metadata_path.to_owned()),
            Some(l) => l.video_path(metadata_path),
        }
    }
}

/// Whether removing a video's files also removes its video directory: only when it is
/// a different path from the metadata directory and videos are not uploaded directly
/// through CloudDrive2 (`cd2_url` blank), so a local reset never touches the old mount.
pub fn removes_video_dir(video_path: &str, metadata_path: &str, cd2_url: &str) -> (r: bool)
    ensures
        r == (path_parts(video_path@) != path_parts(metadata_path@) && trim(cd2_url@).len() == 0),
{
    !same_path(video_path, metadata_path) && is_blank(cd2_url)
}

/// An absolute path's components start with the root.
proof fn lemma_absolute_parts(p: Seq<char>)
    requires
        is_absolute_path(p),
    ensures
        path_parts(p).len() > 0,
        path_parts(p)[0] is Root,
{
}

/// Root components followed by what remains of a path below an absolute root form a
/// well-formed list.
proof fn lemma_rebased_wf(root: Seq<char>, p: Seq<char>, base: Seq<char>)
    requires
        is_absolute_path(root),
        is_absolute_path(base),
        strip_parts(p, base) is Some,
    ensures
        wf_parts(path_parts(root) + strip_parts(p, base).unwrap()),
{
    let rel = strip_parts(p, base).unwrap();
    let rp = path_parts(root);
    let pp = path_parts(p);
    let bl = path_parts(base).len() as int;
    lemma_path_parts_wf(root);
    lemma_path_parts_wf(p);
    lemma_absolute_parts(base);
    let all = rp + rel;
    assert forall|i: int| 0 <= i < all.len() implies match #[trigger] all[i] {
        Part::Root => i == 0,
        Part::Cur => i == 0,
        Part::Parent => true,
        Part::Name(s) => crate::path::valid_name(s),
    } by {
        if i < rp.len() {
            assert(all[i] == rp[i]);
        } else {
            assert(all[i] == pp[bl + i - rp.len()]);
            assert(match pp[bl + i - rp.len()] {
                Part::Root => bl + i - rp.len() == 0,
                Part::Cur => bl + i - rp.len() == 0,
                Part::Parent => true,
                Part::Name(s) => crate::path::valid_name(s),
            });
        }
    }
}

/// Video and metadata files keep the same relative layout: the video path of a
/// metadata path lies under the video root with the same components below it, and
/// mapping it back gives a path with the components of the metadata path it came from.
pub proof fn lemma_video_path_roundtrip(l: LayoutView, m: Seq<char>)
    requires
        is_absolute_path(l.metadata_root),
        is_absolute_path(l.video_root),
        video_path_of(l, m) is Ok,
    ensures
        strip_parts(video_path_of(l, m).unwrap(), l.video_root) == strip_parts(
            m,
            l.metadata_root,
        ),
        metadata_path_of(l, video_path_of(l, m).unwrap()) is Ok,
        path_parts(metadata_path_of(l, video_path_of(l, m).unwrap()).unwrap()) == path_parts(m),
{
    let lv = l;
    let rel = strip_parts(m, lv.metadata_root).unwrap();
    let vr = path_parts(lv.video_root);
    let v = render_parts(vr + rel);
    lemma_rebased_wf(lv.video_root, m, lv.metadata_root);
    lemma_render_parse(vr + rel);
    assert((vr + rel).take(vr.len() as int) =~= vr);
    assert((vr + rel).skip(vr.len() as int) =~= rel);
    assert(strip_parts(v, lv.video_root) == Some(rel));
    let mr = path_parts(lv.metadata_root);
    lemma_rebased_wf(lv.metadata_root, v, lv.video_root);
    lemma_render_parse(mr + rel);
    let pm = path_parts(m);
    assert(mr + rel =~= pm) by {
        assert(pm.take(mr.len() as int) == mr);
        assert(pm =~= pm.take(mr.len() as int) + pm.skip(mr.len() as int));
    }
}


/// Two roots overlap, and a layout of them is refused, exactly when the components
/// of one begin with all the components of the other, in either direction
/// (`Path::starts_with` one way or the other).
pub proof fn lemma_roots_overlap_either_way(m: Seq<char>, v: Seq<char>)
    ensures
        roots_overlap(m, v) <==> ({
            let pm = path_parts(m);
            let pv = path_parts(v);
            ||| (pv.len() <= pm.len() && pm.subrange(0, pv.len() as int) == pv)
            ||| (pm.len() <= pv.len() && pv.subrange(0, pm.len() as int) == pm)
        }),
        roots_overlap(m, v) == roots_overlap(v, m),
        roots_overlap(m, m),
{
    let pm = path_parts(m);
    let pv = path_parts(v);
    assert(pm.take(pv.len() as int) =~= pm.subrange(0, pv.len() as int));
    assert(pv.take(pm.len() as int) =~= pv.subrange(0, pm.len() as int));
    assert(pm.take(pm.len() as int) =~= pm);
}

} // verus!
