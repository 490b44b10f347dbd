//! Capture-context helpers that need no platform call: the running-app
//! payload type and the application-bundle path finder. The platform
//! bridges that fill these from the window system live outside the
//! library.

use crate::text::has_suffix;
use vstd::prelude::*;

verus! {

/// One running application, for the exclusion-management UI.
pub struct RunningAppInfo {
    pub bundle_id: String,
    pub name: String,
}

/// Ghost image of a `RunningAppInfo`.
pub struct RunningAppInfoV {
    pub bundle_id: Seq<char>,
    pub name: Seq<char>,
}

impl View for RunningAppInfo {
    type V = RunningAppInfoV;

    open spec fn view(&self) -> RunningAppInfoV {
        RunningAppInfoV { bundle_id: self.bundle_id@, name: self.name@ }
    }
}

/// The running applications the platform can enumerate. Without a
/// platform workspace bridge there are none; the bridge that has one
/// builds its own list and converts.
pub fn running_apps() -> (r: Vec<RunningAppInfo>)
    ensures
        r@.len() == 0,
{
    Vec::new()
}

/// Whether position `e` in `p` ends a path component naming an
/// application bundle: the text up to `e` ends in `.app` and `e` is a
/// component boundary.
pub open spec fn bundle_boundary(p: Seq<char>, e: int) -> bool {
    &&& 0 < e <= p.len()
    &&& has_suffix(p.subrange(0, e), ".app"@)
    &&& (e == p.len() || p[e] == '/')
}

/// The longest prefix of `p` that names an application bundle: it ends
/// in `.app` at a component boundary. `None` when no component does.
pub fn app_bundle_path(path: &str) -> (r: Option<String>)
    ensures
        r is Some ==> {
            let e = r.unwrap()@.len() as int;
            bundle_boundary(path@, e) && r.unwrap()@ == path@.subrange(0, e) && forall|e2: int|
                e < e2 <= path@.len() ==> !bundle_boundary(path@, e2)
        },
        r is None ==> forall|e: int| 0 < e <= path@.len() ==> !bundle_boundary(path@, e),
{
    let len: usize = path.unicode_len();
    let mut best: usize = 0;
    let mut have: bool = false;
    let mut i: usize = 0;
    while i < len
        invariant
            i <= len,
            len == path@.len(),
            have ==> 0 < best <= i && bundle_boundary(path@, best as int),
            forall|e2: int| (if have { best < e2 } else { 0 < e2 }) && e2 <= i ==> !bundle_boundary(
                path@,
                e2,
            ),
        decreases len - i,
    {
        let e: usize = i + 1;
        let boundary: bool = e == len || path.get_char(e) == '/';
        if boundary {
            let prefix = path.substring_char(0, e);
            proof {
                assert(prefix@ =~= path@.subrange(0, e as int));
            }
            if crate::text::ends_with(prefix, ".app") {
                best = e;
                have = true;
            } else {
                proof {
                    assert(!bundle_boundary(path@, e as int));
                }
            }
        } else {
            proof {
                assert(!bundle_boundary(path@, e as int));
            }
        }
        i = i + 1;
    }
    if have {
        let out = String::from_str(path.substring_char(0, best));
        proof {
            assert(out@ =~= path@.subrange(0, best as int));
        }
        Some(out)
    } else {
        None
    }
}

} // verus!
