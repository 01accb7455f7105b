//! The tree materializer's plan: re-root every entry of a template's file
//! tree under the destination directory.
//!
//! The walk over the source tree and the copies themselves are I/O and live
//! in the surrounding binary; this module computes, for a walk's entries in
//! walk order (parents before their descendants), the exact source and
//! destination path of each copy. Directory structure is thereby preserved:
//! the entry at relative path `p` is copied to `dest_root/p`.

use crate::paths::SEP;
use crate::subst::{append_bytes, bytes_copy};
use vstd::prelude::*;

verus! {

/// One entry of the walk over a template's tree: its path relative to the
/// source root (joined with `/`), and whether it is a directory.
pub struct PlanEntry {
    /// The entry's path relative to the walked root; empty for the root
    /// itself.
    pub rel: Vec<u8>,
    /// Whether the entry is a directory (to be created) rather than a file
    /// (to be copied byte-for-byte).
    pub is_dir: bool,
}

/// One step of a materialization plan.
pub struct CopyOp {
    /// The path to read: the entry's place in the source tree.
    pub src: Vec<u8>,
    /// The path to write: the same relative place under the destination.
    pub dest: Vec<u8>,
    /// Directories are created; files are copied, overwriting.
    pub is_dir: bool,
}

/// A relative path re-rooted under `root`; an empty side contributes no
/// separator.
pub open spec fn path_under_spec(root: Seq<u8>, rel: Seq<u8>) -> Seq<u8> {
    if rel.len() == 0 {
        root
    } else if root.len() == 0 {
        rel
    } else {
        root + seq![SEP] + rel
    }
}

/// Re-root a relative path under `root`.
pub fn path_under(root: &Vec<u8>, rel: &Vec<u8>) -> (out: Vec<u8>)
    ensures
        out@ == path_under_spec(root@, rel@),
{
    if rel.len() == 0 {
        return bytes_copy(root);
    }
    if root.len() == 0 {
        return bytes_copy(rel);
    }
    let mut out = bytes_copy(root);
    out.push(SEP);
    append_bytes(&mut out, rel);
    proof {
        assert(out@ =~= root@ + seq![SEP] + rel@);
    }
    out
}

/// Compute the materialization plan for a walk's entries, in walk order.
/// Every entry at relative path `p` is sent from `src_root/p` to
/// `dest_root/p`: the destination tree mirrors the source tree's structure.
pub fn copy_plan(src_root: &Vec<u8>, dest_root: &Vec<u8>, entries: &Vec<PlanEntry>) -> (plan: Vec<
    CopyOp,
>)
    ensures
        plan@.len() == entries@.len(),
        forall|k: int|
            0 <= k < entries@.len() ==> {
                &&& (#[trigger] plan@[k]).src@ == path_under_spec(src_root@, entries@[k].rel@)
                &&& plan@[k].dest@ == path_under_spec(dest_root@, entries@[k].rel@)
                &&& plan@[k].is_dir == entries@[k].is_dir
            },
{
    let mut plan: Vec<CopyOp> = Vec::new();
    let mut k: usize = 0;
    while k < entries.len()
        invariant
            k <= entries@.len(),
            plan@.len() == k,
            forall|j: int|
                0 <= j < k ==> {
                    &&& (#[trigger] plan@[j]).src@ == path_under_spec(src_root@, entries@[j].rel@)
                    &&& plan@[j].dest@ == path_under_spec(dest_root@, entries@[j].rel@)
                    &&& plan@[j].is_dir == entries@[j].is_dir
                },
        decreases entries@.len() - k,
    {
        let op = CopyOp {
            src: path_under(src_root, &entries[k].rel),
            dest: path_under(dest_root, &entries[k].rel),
            is_dir: entries[k].is_dir,
        };
        plan.push(op);
        k = k + 1;
    }
    plan
}

} // verus!
