use vstd::prelude::*;

use crate::model::DownloadableBlenderVersion;

verus! {

/// The kind of build a machine runs: bitness, platform, architecture and
/// archive extension, as the remote list names them.
pub struct PlatformTarget {
    pub bitness: i32,
    pub platform: String,
    pub architecture: String,
    pub file_extension: String,
}

/// Whether a remote build is one for `target`.
pub open spec fn fits(target: PlatformTarget) -> spec_fn(DownloadableBlenderVersion) -> bool {
    |d: DownloadableBlenderVersion|
        d.bitness == target.bitness && d.platform@ == target.platform@ && d.architecture@
            == target.architecture@ && d.file_extension@ == target.file_extension@
}

/// The entries of the remote list of builds that fit `target`, in order.
pub fn get_downloadable_blender_version_data(
    versions: &Vec<DownloadableBlenderVersion>,
    target: &PlatformTarget,
) -> (r: Vec<DownloadableBlenderVersion>)
    ensures
        r@ == versions@.filter(fits(*target)),
{
    let mut out: Vec<DownloadableBlenderVersion> = Vec::new();
    let mut i: usize = 0;
    while i < versions.len()
        invariant
            i <= versions@.len(),
            out@ == versions@.take(i as int).filter(fits(*target)),
        decreases versions@.len() - i,
    {
        let d = &versions[i];
        proof {
            assert(versions@.take(i + 1) =~= versions@.take(i as int).push(versions@[i as int]));
            versions@.take(i as int).lemma_filter_push(versions@[i as int], fits(*target));
        }
        if d.bitness == target.bitness && d.platform.eq(&target.platform) && d.architecture.eq(
            &target.architecture,
        ) && d.file_extension.eq(&target.file_extension) {
            out.push(d.clone());
        }
        i += 1;
    }
    proof {
        assert(versions@.take(versions@.len() as int) =~= versions@);
    }
    out
}

} // verus!
