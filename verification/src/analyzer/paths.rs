//! Paths as the analyzer sees them: which files are PHP files, which
//! arguments are patterns, and where a set of targets has its common root.

use vstd::prelude::*;
use vstd::slice::slice_subrange;
use vstd::string::StringSliceAdditionalSpecFns;
use crate::analyzer::diagnostic::{diags, Diag, Diagnostic, Severity};
use crate::analyzer::rules::psr4::namespace::{components, is_absolute, joined, non_empty};
use crate::analyzer::rules::strict_typing::strict_types::file_name;
use crate::analyzer::text::{
    bytes_eq, lemma_rows_push, push_all, rfind_byte, rfind_byte_in, rows, split_bytes, to_lower,
    to_lower_bytes, to_vec,
};

verus! {

/// The extension of the file at `path`: what follows the last dot of its
/// name, unless the name has no dot or only starts with one.
pub open spec fn extension(path: Seq<u8>) -> Option<Seq<u8>> {
    let name = file_name(path);
    match rfind_byte(name, 46) {
        Some(dot) => if dot == 0 || name == "..".spec_bytes() {
            None
        } else {
            Some(name.subrange(dot + 1, name.len() as int))
        },
        None => None,
    }
}

/// Whether the file at `path` is a PHP file: its extension is `php`, in
/// upper or lower case.
pub open spec fn has_php_extension(path: Seq<u8>) -> bool {
    match extension(path) {
        Some(ext) => to_lower(ext) == "php".spec_bytes(),
        None => false,
    }
}

/// Whether `b` is a character of a glob pattern.
pub open spec fn is_glob_byte(b: u8) -> bool {
    b == 42 || b == 63 || b == 91 || b == 93 || b == 123 || b == 125
}

/// Whether `path` is a glob pattern.
pub open spec fn is_pattern(path: Seq<u8>) -> bool {
    exists|i: int| 0 <= i < path.len() && is_glob_byte(#[trigger] path[i])
}

/// How many components `a` and `b` share from index `from` on, counted from
/// the start.
pub open spec fn shared_len(a: Seq<Seq<u8>>, b: Seq<Seq<u8>>, from: int) -> int
    decreases a.len() - from,
{
    if from < 0 || from >= a.len() || from >= b.len() || a[from] != b[from] {
        from
    } else {
        shared_len(a, b, from + 1)
    }
}

/// The components that the first `upto` of `lists` share from the start.
pub open spec fn shared_components(lists: Seq<Seq<Seq<u8>>>, upto: int) -> Seq<Seq<u8>>
    decreases upto,
{
    if upto <= 0 || upto > lists.len() {
        Seq::empty()
    } else if upto == 1 {
        lists[0]
    } else {
        let before = shared_components(lists, upto - 1);
        before.subrange(0, shared_len(before, lists[upto - 1], 0))
    }
}

/// The components of each of `paths`.
pub open spec fn all_components(paths: Seq<Seq<u8>>) -> Seq<Seq<Seq<u8>>> {
    Seq::new(paths.len(), |i: int| components(paths[i]))
}

/// Whether `path` starts where the first of `paths` starts: both at the
/// root of the file system, or both not.
pub open spec fn same_origin(paths: Seq<Seq<u8>>, i: int) -> bool {
    is_absolute(paths[i]) == is_absolute(paths[0])
}

/// The path with the components `parts`, from the root if `absolute`.
pub open spec fn assembled(absolute: bool, parts: Seq<Seq<u8>>) -> Seq<u8> {
    if absolute {
        seq![47u8] + joined(parts, 47)
    } else {
        joined(parts, 47)
    }
}

/// The deepest directory that lies on the way to every one of `paths`.
/// There is none for no paths, and none for paths of which some start at
/// the root of the file system and some do not.
pub open spec fn common_directory(paths: Seq<Seq<u8>>) -> Option<Seq<u8>> {
    if paths.len() == 0 || !(forall|i: int| 0 <= i < paths.len() ==> #[trigger] same_origin(
        paths,
        i,
    )) {
        None
    } else {
        Some(
            assembled(
                is_absolute(paths[0]),
                shared_components(all_components(paths), paths.len() as int),
            ),
        )
    }
}

/// How many of `list` have the severity `severity`.
pub open spec fn severity_count(list: Seq<Diag>, severity: Severity) -> nat {
    list.filter(|d: Diag| d.severity == severity).len()
}

/// Whether the file at `path` is a PHP file.
pub fn is_php_file(path: &str) -> (r: bool)
    ensures
        r == has_php_extension(path.spec_bytes()),
{
    let bytes = path.as_bytes();
    let name = match rfind_byte_in(bytes, 47) {
        Some(i) => slice_subrange(bytes, i + 1, bytes.len()),
        None => bytes,
    };
    match rfind_byte_in(name, 46) {
        Some(dot) => {
            if dot == 0 || bytes_eq(name, "..".as_bytes()) {
                false
            } else {
                let ext = to_lower_bytes(slice_subrange(name, dot + 1, name.len()));
                bytes_eq(ext.as_slice(), "php".as_bytes())
            }
        },
        None => false,
    }
}

/// Whether `path` is a glob pattern.
pub fn path_contains_glob(path: &str) -> (r: bool)
    ensures
        r == is_pattern(path.spec_bytes()),
{
    let bytes = path.as_bytes();
    let mut i: usize = 0;
    while i < bytes.len()
        invariant
            i <= bytes.len(),
            bytes@ == path.spec_bytes(),
            forall|k: int| 0 <= k < i ==> !is_glob_byte(#[trigger] bytes@[k]),
        decreases bytes.len() - i,
    {
        let b = bytes[i];
        if b == 42 || b == 63 || b == 91 || b == 93 || b == 123 || b == 125 {
            assert(is_glob_byte(bytes@[i as int]));
            return true;
        }
        i += 1;
    }
    false
}

fn parts_of(path: &[u8]) -> (r: Vec<Vec<u8>>)
    ensures
        rows(r@) == components(path@),
{
    let pieces = split_bytes(path, 47);
    let mut out: Vec<Vec<u8>> = Vec::new();
    let mut i: usize = 0;
    proof {
        assert(rows(pieces@).subrange(0, 0) =~= Seq::empty());
        assert(rows(out@) =~= Seq::empty());
    }
    while i < pieces.len()
        invariant
            i <= pieces.len(),
            rows(out@) == non_empty(rows(pieces@).subrange(0, i as int)),
        decreases pieces.len() - i,
    {
        proof {
            let upto = rows(pieces@).subrange(0, i + 1);
            assert(upto.drop_last() =~= rows(pieces@).subrange(0, i as int));
            assert(upto.last() == pieces@[i as int]@);
        }
        if pieces[i].len() > 0 {
            let owned = to_vec(pieces[i].as_slice());
            proof {
                lemma_rows_push(out@, owned);
            }
            out.push(owned);
        }
        i += 1;
    }
    proof {
        assert(rows(pieces@).subrange(0, pieces@.len() as int) =~= rows(pieces@));
    }
    out
}

fn starts_at_root(path: &[u8]) -> (r: bool)
    ensures
        r == is_absolute(path@),
{
    path.len() > 0 && path[0] == 47
}

fn shared_with(common: &Vec<Vec<u8>>, next: &Vec<Vec<u8>>) -> (r: usize)
    ensures
        r == shared_len(rows(common@), rows(next@), 0),
        r <= common@.len(),
{
    let mut k: usize = 0;
    while k < common.len() && k < next.len() && bytes_eq(common[k].as_slice(), next[k].as_slice())
        invariant
            k <= common.len(),
            shared_len(rows(common@), rows(next@), 0) == shared_len(
                rows(common@),
                rows(next@),
                k as int,
            ),
        decreases common.len() - k,
    {
        k += 1;
    }
    k
}

fn assemble(absolute: bool, parts: &Vec<Vec<u8>>) -> (r: Vec<u8>)
    ensures
        r@ == assembled(absolute, rows(parts@)),
{
    let mut body: Vec<u8> = Vec::new();
    let mut i: usize = 0;
    proof {
        assert(rows(parts@).subrange(0, 0) =~= Seq::empty());
    }
    while i < parts.len()
        invariant
            i <= parts.len(),
            body@ == joined(rows(parts@).subrange(0, i as int), 47),
        decreases parts.len() - i,
    {
        proof {
            let next = rows(parts@).subrange(0, i + 1);
            assert(next.drop_last() =~= rows(parts@).subrange(0, i as int));
            assert(next.last() == parts@[i as int]@);
        }
        if i > 0 {
            body.push(47);
        }
        push_all(&mut body, parts[i].as_slice());
        i += 1;
    }
    proof {
        assert(rows(parts@).subrange(0, parts@.len() as int) =~= rows(parts@));
    }
    let mut out: Vec<u8> = Vec::new();
    if absolute {
        out.push(47);
    }
    push_all(&mut out, body.as_slice());
    assert(out@ =~= assembled(absolute, rows(parts@)));
    out
}

/// The deepest directory that lies on the way to every one of `paths`.
#[verifier::loop_isolation(false)]
pub fn longest_common_directory(paths: &Vec<Vec<u8>>) -> (r: Option<Vec<u8>>)
    ensures
        match r {
            Some(dir) => common_directory(rows(paths@)) == Some(dir@),
            None => common_directory(rows(paths@)).is_none(),
        },
{
    if paths.len() == 0 {
        return None;
    }
    let ghost all = rows(paths@);
    let ghost lists = all_components(all);
    let absolute = starts_at_root(paths[0].as_slice());
    let mut common = parts_of(paths[0].as_slice());
    let mut i: usize = 1;
    proof {
        assert(same_origin(all, 0));
        assert(lists[0] == components(all[0]));
    }
    while i < paths.len()
        invariant
            1 <= i <= paths.len(),
            rows(common@) == shared_components(lists, i as int),
            forall|k: int| 0 <= k < i ==> #[trigger] same_origin(all, k),
        decreases paths.len() - i,
    {
        if starts_at_root(paths[i].as_slice()) != absolute {
            assert(!same_origin(all, i as int));
            return None;
        }
        let next = parts_of(paths[i].as_slice());
        let keep = shared_with(&common, &next);
        proof {
            assert(lists[i as int] == components(all[i as int]));
        }
        let ghost before = common@;
        common.truncate(keep);
        proof {
            assert(rows(common@) =~= rows(before).subrange(0, keep as int));
        }
        i += 1;
    }
    Some(assemble(absolute, &common))
}

/// Counts the diagnostics of the severity `severity`.
pub fn count_severity(list: &Vec<Diagnostic>, severity: Severity) -> (r: usize)
    ensures
        r == severity_count(diags(list@), severity),
{
    let ghost keep = |d: Diag| d.severity == severity;
    let ghost all = diags(list@);
    let mut count: usize = 0;
    let mut i: usize = 0;
    proof {
        crate::analyzer::syntax::lemma_filter_ends(all, keep);
    }
    while i < list.len()
        invariant
            i <= list.len(),
            count <= i,
            all == diags(list@),
            keep == (|d: Diag| d.severity == severity),
            count == all.subrange(0, i as int).filter(keep).len(),
        decreases list.len() - i,
    {
        proof {
            crate::analyzer::syntax::lemma_filter_step(all, keep, i as int);
        }
        if list[i].severity == severity {
            count += 1;
        }
        i += 1;
    }
    proof {
        crate::analyzer::syntax::lemma_filter_ends(all, keep);
    }
    count
}

} // verus!
