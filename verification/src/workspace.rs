//! Workspace-path rules for the local tools: normalization of `.` and
//! `..` steps, resolution of a request against the workspace root, and the
//! workspace-relative form of a path.  The file system itself is touched
//! outside the library; paths here are plain slash-separated text.

use vstd::prelude::*;

use crate::text::join_seq;
use crate::text::join_with;
use crate::text::split_seq;
use crate::text::split_str;
use crate::text::str_eq;
use crate::text::trim_seq;
use crate::text::trim_str;

verus! {

/// Path segments with empty, `.` and `..` steps resolved: empty and `.`
/// segments vanish, and `..` removes the segment before it, if any.
pub open spec fn spec_normalize_segments(segs: Seq<Seq<char>>) -> Seq<Seq<char>>
    decreases segs.len(),
{
    if segs.len() == 0 {
        Seq::empty()
    } else {
        let init = spec_normalize_segments(segs.drop_last());
        let last = segs.last();
        if last.len() == 0 || last == "."@ {
            init
        } else if last == ".."@ {
            if init.len() > 0 {
                init.drop_last()
            } else {
                init
            }
        } else {
            init.push(last)
        }
    }
}

/// Normalize a path's segments.
pub fn normalize_segments(segs: &Vec<String>) -> (r: Vec<String>)
    ensures
        r@.map_values(|p: String| p@) == spec_normalize_segments(
            segs@.map_values(|p: String| p@),
        ),
{
    let ghost sv = segs@.map_values(|p: String| p@);
    let mut out: Vec<String> = Vec::new();
    let mut i: usize = 0;
    proof {
        assert(spec_normalize_segments(sv.subrange(0, 0)) =~= Seq::<Seq<char>>::empty());
        assert(out@.map_values(|p: String| p@) =~= Seq::<Seq<char>>::empty());
    }
    while i < segs.len()
        invariant
            sv == segs@.map_values(|p: String| p@),
            0 <= i <= segs@.len(),
            out@.map_values(|p: String| p@) == spec_normalize_segments(sv.subrange(0, i as int)),
        decreases segs@.len() - i,
    {
        proof {
            let sub1 = sv.subrange(0, i + 1);
            assert(sub1.drop_last() =~= sv.subrange(0, i as int));
            assert(sub1.last() == sv[i as int]);
            assert(sv[i as int] == segs@[i as int]@);
        }
        if segs[i].as_str().unicode_len() == 0 || str_eq(segs[i].as_str(), ".") {
            // An empty or current-directory step vanishes.
        } else if str_eq(segs[i].as_str(), "..") {
            if out.len() > 0 {
                let ghost oold = out@;
                let _ = out.pop();
                proof {
                    assert(out@ =~= oold.drop_last());
                    assert(out@.map_values(|p: String| p@) =~= oold.map_values(
                        |p: String| p@,
                    ).drop_last());
                }
            }
        } else {
            let ghost oold = out@;
            out.push(segs[i].clone());
            proof {
                assert(out@ =~= oold.push(segs@[i as int]));
                assert(out@.map_values(|p: String| p@) =~= oold.map_values(|p: String| p@).push(
                    sv[i as int],
                ));
            }
        }
        i = i + 1;
    }
    proof {
        assert(sv.subrange(0, sv.len() as int) =~= sv);
    }
    out
}

/// The normalized form of a slash-separated path: its normalized segments
/// joined back, keeping a leading slash for an absolute path, with `.`
/// standing for an empty result.
pub open spec fn spec_normalize_path(path: Seq<char>) -> Seq<char> {
    let absolute = path.len() > 0 && path[0] == '/';
    let norm = spec_normalize_segments(split_seq(path, '/'));
    if absolute {
        "/"@ + join_seq(norm, '/')
    } else if norm.len() == 0 {
        "."@
    } else {
        join_seq(norm, '/')
    }
}

/// Normalize a slash-separated path.
pub fn normalize_path(path: &str) -> (r: String)
    ensures
        r@ == spec_normalize_path(path@),
{
    let n = path.unicode_len();
    let absolute = n > 0 && path.get_char(0) == '/';
    let segs = split_str(path, '/');
    let norm = normalize_segments(&segs);
    let joined = join_with(&norm, '/');
    if absolute {
        let mut out = String::from_str("/");
        out.append(joined.as_str());
        proof {
            reveal_strlit("/");
            assert(out@ =~= spec_normalize_path(path@));
        }
        out
    } else if norm.len() == 0 {
        proof {
            assert(join_seq(Seq::<Seq<char>>::empty(), '/') =~= Seq::<char>::empty());
        }
        String::from_str(".")
    } else {
        proof {
            assert(norm@.map_values(|p: String| p@).len() == norm@.len());
        }
        joined
    }
}

/// Whether `p` is a segment-wise prefix of `q`.
pub open spec fn spec_seg_prefix(p: Seq<Seq<char>>, q: Seq<Seq<char>>) -> bool {
    p.len() <= q.len() && p =~= q.subrange(0, p.len() as int)
}

/// A path request escapes the workspace.
#[derive(Clone, Debug, PartialEq, Eq)]
pub struct PathEscapesRoot;

/// Resolve a tool's path request against the workspace root: a blank
/// request is the root itself; an absolute request is normalized as given;
/// a relative one is normalized under the root.  A target that leaves the
/// root's segments is rejected.
pub fn resolve_workspace_path(root: &str, raw: &str) -> (r: Result<String, PathEscapesRoot>)
    ensures
        ({
            let t = trim_seq(raw@);
            let target = if t.len() == 0 {
                spec_normalize_path(root@)
            } else if t.len() > 0 && t[0] == '/' {
                spec_normalize_path(t)
            } else {
                spec_normalize_path(root@ + "/"@ + t)
            };
            let root_segs = spec_normalize_segments(split_seq(root@, '/'));
            let target_segs = spec_normalize_segments(split_seq(target, '/'));
            match r {
                Ok(p) => p@ == target && spec_seg_prefix(root_segs, target_segs),
                Err(_) => !spec_seg_prefix(root_segs, target_segs),
            }
        }),
{
    let t = trim_str(raw);
    let target = if t.as_str().unicode_len() == 0 {
        normalize_path(root)
    } else if t.as_str().get_char(0) == '/' {
        normalize_path(t.as_str())
    } else {
        let mut joined = String::from_str(root);
        joined.append("/");
        joined.append(t.as_str());
        proof {
            reveal_strlit("/");
        }
        normalize_path(joined.as_str())
    };
    let root_norm = normalize_segments(&split_str(root, '/'));
    let target_norm = normalize_segments(&split_str(target.as_str(), '/'));
    if root_norm.len() > target_norm.len() {
        return Err(PathEscapesRoot);
    }
    let mut i: usize = 0;
    let ghost rv = root_norm@.map_values(|p: String| p@);
    let ghost gv = target_norm@.map_values(|p: String| p@);
    while i < root_norm.len()
        invariant
            rv == root_norm@.map_values(|p: String| p@),
            gv == target_norm@.map_values(|p: String| p@),
            rv == spec_normalize_segments(split_seq(root@, '/')),
            gv == spec_normalize_segments(split_seq(target@, '/')),
            ({
                let t = trim_seq(raw@);
                target@ == (if t.len() == 0 {
                    spec_normalize_path(root@)
                } else if t[0] == '/' {
                    spec_normalize_path(t)
                } else {
                    spec_normalize_path(root@ + "/"@ + t)
                })
            }),
            rv.len() <= gv.len(),
            0 <= i <= rv.len(),
            forall|j: int| 0 <= j < i ==> rv[j] == gv.subrange(0, rv.len() as int)[j],
        decreases rv.len() - i,
    {
        proof {
            assert(rv[i as int] == root_norm@[i as int]@);
            assert(gv[i as int] == target_norm@[i as int]@);
            assert(gv.subrange(0, rv.len() as int)[i as int] == gv[i as int]);
        }
        if !str_eq(root_norm[i].as_str(), target_norm[i].as_str()) {
            proof {
                assert(rv[i as int] != gv.subrange(0, rv.len() as int)[i as int]);
            }
            return Err(PathEscapesRoot);
        }
        i = i + 1;
    }
    proof {
        assert(rv =~= gv.subrange(0, rv.len() as int));
        assert(spec_seg_prefix(rv, gv));
    }
    Ok(target)
}

/// The workspace-relative form of a path: the segments after the root when
/// the root is a prefix (`.` for the root itself), the path unchanged
/// otherwise.  Both are compared in normalized form.
pub fn to_workspace_relative(path: &str, root: &str) -> (r: String)
    ensures
        ({
            let ps = spec_normalize_segments(split_seq(path@, '/'));
            let rs = spec_normalize_segments(split_seq(root@, '/'));
            if spec_seg_prefix(rs, ps) {
                if ps.len() == rs.len() {
                    r@ == "."@
                } else {
                    r@ == join_seq(ps.subrange(rs.len() as int, ps.len() as int), '/')
                }
            } else {
                r@ == path@
            }
        }),
{
    let ps = normalize_segments(&split_str(path, '/'));
    let rs = normalize_segments(&split_str(root, '/'));
    let ghost pv = ps@.map_values(|p: String| p@);
    let ghost rv = rs@.map_values(|p: String| p@);
    if rs.len() > ps.len() {
        return String::from_str(path);
    }
    let mut i: usize = 0;
    while i < rs.len()
        invariant
            pv == ps@.map_values(|p: String| p@),
            rv == rs@.map_values(|p: String| p@),
            pv == spec_normalize_segments(split_seq(path@, '/')),
            rv == spec_normalize_segments(split_seq(root@, '/')),
            rv.len() <= pv.len(),
            0 <= i <= rv.len(),
            forall|j: int| 0 <= j < i ==> rv[j] == pv.subrange(0, rv.len() as int)[j],
        decreases rv.len() - i,
    {
        proof {
            assert(rv[i as int] == rs@[i as int]@);
            assert(pv[i as int] == ps@[i as int]@);
            assert(pv.subrange(0, rv.len() as int)[i as int] == pv[i as int]);
        }
        if !str_eq(rs[i].as_str(), ps[i].as_str()) {
            proof {
                assert(rv[i as int] != pv.subrange(0, rv.len() as int)[i as int]);
            }
            return String::from_str(path);
        }
        i = i + 1;
    }
    proof {
        assert(rv =~= pv.subrange(0, rv.len() as int));
    }
    proof {
        assert(rv =~= pv.subrange(0, rv.len() as int));
        assert(spec_seg_prefix(rv, pv));
    }
    if ps.len() == rs.len() {
        let dot = String::from_str(".");
        proof {
            assert(dot@ == "."@);
        }
        return dot;
    }
    let mut tail: Vec<String> = Vec::new();
    let mut k: usize = rs.len();
    proof {
        assert(tail@.map_values(|p: String| p@) =~= pv.subrange(rv.len() as int, rv.len() as int));
    }
    while k < ps.len()
        invariant
            pv == ps@.map_values(|p: String| p@),
            rv == rs@.map_values(|p: String| p@),
            pv == spec_normalize_segments(split_seq(path@, '/')),
            rv == spec_normalize_segments(split_seq(root@, '/')),
            spec_seg_prefix(rv, pv),
            rv.len() < pv.len(),
            rv.len() <= k <= pv.len(),
            tail@.map_values(|p: String| p@) == pv.subrange(rv.len() as int, k as int),
        decreases pv.len() - k,
    {
        proof {
            assert(pv[k as int] == ps@[k as int]@);
        }
        let ghost told = tail@;
        tail.push(ps[k].clone());
        proof {
            assert(tail@ =~= told.push(ps@[k as int]));
            assert(tail@.map_values(|p: String| p@) =~= told.map_values(|p: String| p@).push(
                pv[k as int],
            ));
            assert(tail@.map_values(|p: String| p@) =~= pv.subrange(rv.len() as int, k + 1));
        }
        k = k + 1;
    }
    proof {
        assert(pv.subrange(rv.len() as int, pv.len() as int) =~= tail@.map_values(
            |p: String| p@,
        ));
    }
    join_with(&tail, '/')
}

} // verus!
