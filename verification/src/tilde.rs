//! Expanding a leading `~` of a target path to the home directory.

use crate::config::Files;
use crate::listing::{ascending_keys_differ, key_at, lists};
use crate::strmap::StrMap;
use crate::target::TargetView;
use vstd::prelude::*;

verus! {

/// Whether a path starts with the home marker: a `~` that ends the path or
/// has a separator after it.
pub open spec fn tilde_led(path: Seq<char>) -> bool {
    path.len() > 0 && path[0] == '~' && (path.len() == 1 || path[1] == '/' || path[1] == '\\')
}

/// Whether `text` ends with `tail`.
pub open spec fn ends_with(text: Seq<char>, tail: Seq<char>) -> bool {
    tail.len() <= text.len() && text.skip(text.len() - tail.len()) == tail
}

/// Whether `out` can be what `path` expands to: a path without the home
/// marker stays as it is, and in one with the marker only the marker is
/// replaced.
pub open spec fn tilde_expands(path: Seq<char>, out: Seq<char>) -> bool {
    if tilde_led(path) {
        ends_with(out, path.skip(1))
    } else {
        out == path
    }
}

/// Whether `after` is `before` with its path expanded.
pub open spec fn tilde_rewrites(before: TargetView, after: TargetView) -> bool {
    after == before.with_path(after.path) && tilde_expands(before.path, after.path)
}

/// `shellexpand::tilde`: a path that does not start with `~`, or in which
/// something other than a separator follows the `~`, comes back unchanged.
/// In any other path only the `~` is replaced, by the home directory of the
/// user where there is one, so that the rest of the path ends the result.
#[verifier::external_body]
fn tilde(path: String) -> (out: String)
    ensures
        tilde_expands(path@, out@),
{
    shellexpand::tilde(&path).into_owned()
}

/// Expands the home marker in the target path of every file.
pub fn expand_tildes(files: Files) -> (out: Files)
    ensures
        out@.dom() == files@.dom(),
        forall|k: Seq<char>| files@.contains_key(k) ==> tilde_rewrites(files@[k]@, #[trigger] out@[k]@),
{
    let mut out: Files = StrMap::new();
    let list = files.into_entries();
    let ghost all = list@;
    for entry in it: list
        invariant
            it.seq() == all,
            lists(all, files@),
            forall|k: Seq<char>|
                out@.contains_key(k) <==> exists|j: int| j < it.index() && #[trigger] key_at(all, j, k),
            forall|k: Seq<char>, j: int|
                j < it.index() && #[trigger] key_at(all, j, k) ==> tilde_rewrites(
                    all[j].1@,
                    out@[k]@,
                ),
    {
        let ghost i = it.index() as int;
        let ghost prior = out@;
        let (source, target) = entry;
        assert(all[i] == (source, target));
        let expanded = target.map(tilde);
        out.insert(source, expanded);
        proof {
            assert forall|k: Seq<char>|
                out@.contains_key(k) <==> exists|j: int|
                    j < i + 1 && #[trigger] key_at(all, j, k) by {
                if k == source@ {
                    assert(key_at(all, i, k));
                } else if prior.contains_key(k) {
                    let j = choose|j: int| j < i && #[trigger] key_at(all, j, k);
                    assert(j < i + 1 && key_at(all, j, k));
                } else if exists|j: int| j < i + 1 && #[trigger] key_at(all, j, k) {
                    let j = choose|j: int| j < i + 1 && #[trigger] key_at(all, j, k);
                    assert(j < i && key_at(all, j, k));
                }
            }
            assert forall|k: Seq<char>, j: int|
                j < i + 1 && #[trigger] key_at(all, j, k) implies tilde_rewrites(
                all[j].1@,
                out@[k]@,
            ) by {
                if k == source@ {
                    ascending_keys_differ(all, j, i);
                } else {
                    assert(j < i && key_at(all, j, k));
                }
            }
        }
    }
    proof {
        assert forall|k: Seq<char>| out@.contains_key(k) == files@.contains_key(k) by {
            if files@.contains_key(k) {
                let j = choose|j: int| #[trigger] key_at(all, j, k);
                assert(j < all.len() && key_at(all, j, k));
            }
            if out@.contains_key(k) {
                let j = choose|j: int| j < all.len() && #[trigger] key_at(all, j, k);
                assert(files@.contains_pair(all[j].0@, all[j].1));
            }
        }
        assert(out@.dom() =~= files@.dom());
        assert forall|k: Seq<char>| files@.contains_key(k) implies tilde_rewrites(
            files@[k]@,
            #[trigger] out@[k]@,
        ) by {
            let j = choose|j: int| #[trigger] key_at(all, j, k);
            assert(j < all.len() && key_at(all, j, k));
            assert(files@.contains_pair(all[j].0@, all[j].1));
        }
    }
    out
}

} // verus!
