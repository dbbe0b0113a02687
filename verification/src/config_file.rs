//! Where the shell looks for its configuration file.  Paths and the values
//! of environment variables are the bytes that the system gives for them,
//! which need not be UTF-8.
use vstd::prelude::*;

use crate::repl::ReplSource;

verus! {

/// The path component `.config`.
pub open spec fn dot_config() -> Seq<u8> {
    seq![46u8, 99u8, 111u8, 110u8, 102u8, 105u8, 103u8]
}

/// The path component `lmsh`.
pub open spec fn lmsh_name() -> Seq<u8> {
    seq![108u8, 109u8, 115u8, 104u8]
}

/// The path component `init.lmsh`.
pub open spec fn init_name() -> Seq<u8> {
    seq![105u8, 110u8, 105u8, 116u8, 46u8, 108u8, 109u8, 115u8, 104u8]
}

/// The byte of `/`.
pub open spec fn slash() -> u8 {
    47u8
}

/// The byte of `:`.
pub open spec fn colon() -> u8 {
    58u8
}

/// `base` joined with the relative path `component`: a `/` goes between
/// them unless `base` is empty or already ends with one.
pub open spec fn path_push(base: Seq<u8>, component: Seq<u8>) -> Seq<u8> {
    if base.len() > 0 && base[base.len() - 1] != slash() {
        base + seq![slash()] + component
    } else {
        base + component
    }
}

/// The entries of a `:`-separated list of paths, empty entries included (an
/// empty list has one empty entry).
pub open spec fn split_paths(list: Seq<u8>) -> Seq<Seq<u8>>
    decreases list.len(),
{
    if list.len() == 0 {
        seq![Seq::empty()]
    } else {
        let parts = split_paths(list.subrange(0, list.len() - 1));
        let c = list[list.len() - 1];
        if c == colon() {
            parts.push(Seq::empty())
        } else {
            parts.update(parts.len() - 1, parts[parts.len() - 1].push(c))
        }
    }
}

pub proof fn lemma_split_paths_nonempty(list: Seq<u8>)
    ensures
        split_paths(list).len() >= 1,
    decreases list.len(),
{
    if list.len() > 0 {
        lemma_split_paths_nonempty(list.subrange(0, list.len() - 1));
    }
}

/// The directories that may hold the configuration: `$HOME/.config` when
/// `HOME` is set, then each entry of `XDG_CONFIG_DIRS` when it is set.
pub open spec fn config_dirs(home: Option<Seq<u8>>, xdg_config_dirs: Option<Seq<u8>>) -> Seq<
    Seq<u8>,
> {
    (match home {
        Some(h) => seq![path_push(h, dot_config())],
        None => Seq::empty(),
    }) + (match xdg_config_dirs {
        Some(x) => split_paths(x),
        None => Seq::empty(),
    })
}

/// The configuration file in a directory: `dir/lmsh/init.lmsh`.
pub open spec fn config_file_in(dir: Seq<u8>) -> Seq<u8> {
    path_push(path_push(dir, lmsh_name()), init_name())
}

/// The paths that may hold the configuration file, in the order in which
/// they are tried.
pub open spec fn config_candidates(home: Option<Seq<u8>>, xdg_config_dirs: Option<Seq<u8>>) -> Seq<
    Seq<u8>,
> {
    config_dirs(home, xdg_config_dirs).map_values(|d: Seq<u8>| config_file_in(d))
}

/// `entries` joined by `:` bytes.
pub open spec fn joined(entries: Seq<Seq<u8>>) -> Seq<u8>
    decreases entries.len(),
{
    if entries.len() <= 1 {
        if entries.len() == 1 {
            entries[0]
        } else {
            Seq::empty()
        }
    } else {
        joined(entries.drop_last()) + seq![58u8] + entries.last()
    }
}

/// A list of entries without `:`, joined by `:`, splits into those entries.
pub proof fn law_split_paths(entries: Seq<Seq<u8>>)
    requires
        entries.len() >= 1,
        forall|k: int, m: int|
            0 <= k < entries.len() && 0 <= m < entries[k].len() ==> #[trigger] entries[k][m]
                != 58u8,
    ensures
        split_paths(joined(entries)) == entries,
    decreases entries.len(),
{
    if entries.len() == 1 {
        lemma_split_tail(Seq::empty(), seq![Seq::<u8>::empty()], entries[0]);
        assert(seq![Seq::<u8>::empty()].update(0, Seq::<u8>::empty() + entries[0]) =~= entries);
        assert(Seq::<u8>::empty() + entries[0] =~= entries[0]);
    } else {
        let prev = entries.drop_last();
        assert forall|k: int, m: int|
            0 <= k < prev.len() && 0 <= m < prev[k].len() implies #[trigger] prev[k][m]
            != 58u8 by {
            assert(prev[k] == entries[k]);
        }
        law_split_paths(prev);
        let head = joined(prev) + seq![58u8];
        assert(head.drop_last() =~= joined(prev));
        assert(split_paths(head) == prev.push(Seq::empty()));
        lemma_split_tail(head, prev.push(Seq::empty()), entries.last());
        assert(prev.push(Seq::empty()).update(prev.len() as int, Seq::<u8>::empty() + entries.last())
            =~= entries);
    }
}

/// Bytes without `:` added at the end of a list extend its last entry.
proof fn lemma_split_tail(head: Seq<u8>, parts: Seq<Seq<u8>>, tail: Seq<u8>)
    requires
        split_paths(head) == parts,
        parts.len() >= 1,
        forall|m: int| 0 <= m < tail.len() ==> #[trigger] tail[m] != 58u8,
    ensures
        split_paths(head + tail) == parts.update(parts.len() - 1, parts.last() + tail),
    decreases tail.len(),
{
    if tail.len() == 0 {
        assert(head + tail =~= head);
        assert(parts.update(parts.len() - 1, parts.last() + tail) =~= parts);
    } else {
        let t0 = tail.drop_last();
        lemma_split_tail(head, parts, t0);
        assert((head + tail).drop_last() =~= head + t0);
        assert(tail.last() == tail[tail.len() - 1]);
        assert((parts.last() + t0).push(tail.last()) =~= parts.last() + tail);
        assert(parts.update(parts.len() - 1, parts.last() + t0).update(
            parts.len() - 1,
            (parts.last() + t0).push(tail.last()),
        ) =~= parts.update(parts.len() - 1, parts.last() + tail));
    }
}

/// The configuration file in a non-empty directory `dir` that does not end
/// with `/` is `dir/lmsh/init.lmsh`.
pub proof fn law_config_file_in(dir: Seq<u8>)
    requires
        dir.len() > 0,
        dir.last() != 47u8,
    ensures
        config_file_in(dir) == dir + seq![
            47u8, 108u8, 109u8, 115u8, 104u8, 47u8, 105u8, 110u8, 105u8, 116u8, 46u8, 108u8, 109u8,
            115u8, 104u8
        ],
{
    assert(config_file_in(dir) =~= dir + seq![
        47u8, 108u8, 109u8, 115u8, 104u8, 47u8, 105u8, 110u8, 105u8, 116u8, 46u8, 108u8, 109u8,
        115u8, 104u8
    ]);
}

/// For a home directory `h` (non-empty, not ending with `/`) and no
/// `XDG_CONFIG_DIRS`, the one candidate is `h/.config/lmsh/init.lmsh`.
pub proof fn law_home_candidate(h: Seq<u8>)
    requires
        h.len() > 0,
        h.last() != 47u8,
    ensures
        config_candidates(Some(h), None) == seq![
            h + seq![
                47u8, 46u8, 99u8, 111u8, 110u8, 102u8, 105u8, 103u8, 47u8, 108u8, 109u8, 115u8,
                104u8, 47u8, 105u8, 110u8, 105u8, 116u8, 46u8, 108u8, 109u8, 115u8, 104u8
            ]
        ],
{
    let d = path_push(h, dot_config());
    assert(config_dirs(Some(h), None) =~= seq![d]);
    assert(d.last() == 103u8);
    law_config_file_in(d);
    assert(d + seq![
        47u8, 108u8, 109u8, 115u8, 104u8, 47u8, 105u8, 110u8, 105u8, 116u8, 46u8, 108u8, 109u8,
        115u8, 104u8
    ] =~= h + seq![
        47u8, 46u8, 99u8, 111u8, 110u8, 102u8, 105u8, 103u8, 47u8, 108u8, 109u8, 115u8, 104u8,
        47u8, 105u8, 110u8, 105u8, 116u8, 46u8, 108u8, 109u8, 115u8, 104u8
    ]);
    assert(config_candidates(Some(h), None) =~= seq![config_file_in(d)]);
}

fn path_push_exec(base: &mut Vec<u8>, component: &[u8])
    ensures
        final(base)@ == path_push(old(base)@, component@),
{
    if base.len() > 0 && base[base.len() - 1] != 47u8 {
        base.push(47u8);
    }
    let ghost start = base@;
    let mut k: usize = 0;
    while k < component.len()
        invariant
            k <= component@.len(),
            base@ == start + component@.take(k as int),
        decreases component@.len() - k,
    {
        base.push(component[k]);
        k = k + 1;
        assert(base@ =~= start + component@.take(k as int));
    }
    assert(component@.take(k as int) =~= component@);
}

fn config_file_in_exec(dir: &Vec<u8>) -> (path: Vec<u8>)
    ensures
        path@ == config_file_in(dir@),
{
    let lmsh: [u8; 4] = [108u8, 109u8, 115u8, 104u8];
    let init: [u8; 9] = [105u8, 110u8, 105u8, 116u8, 46u8, 108u8, 109u8, 115u8, 104u8];
    assert(lmsh@ =~= lmsh_name());
    assert(init@ =~= init_name());
    let mut p = copy_bytes(dir);
    path_push_exec(&mut p, &lmsh);
    path_push_exec(&mut p, &init);
    p
}

/// A copy of `v`.
fn copy_bytes(v: &Vec<u8>) -> (c: Vec<u8>)
    ensures
        c@ == v@,
{
    let mut c: Vec<u8> = Vec::new();
    let mut k: usize = 0;
    while k < v.len()
        invariant
            k <= v@.len(),
            c@ == v@.take(k as int),
        decreases v@.len() - k,
    {
        c.push(v[k]);
        k = k + 1;
        assert(c@ =~= v@.take(k as int));
    }
    assert(v@.take(k as int) =~= v@);
    c
}

/// The bytes of an optional value.
pub open spec fn opt_view(s: Option<Vec<u8>>) -> Option<Seq<u8>> {
    match s {
        Some(t) => Some(t@),
        None => None,
    }
}

pub open spec fn byte_vecs(v: Seq<Vec<u8>>) -> Seq<Seq<u8>> {
    v.map_values(|x: Vec<u8>| x@)
}

fn split_paths_exec(list: &Vec<u8>) -> (parts: Vec<Vec<u8>>)
    ensures
        byte_vecs(parts@) == split_paths(list@),
{
    let mut parts: Vec<Vec<u8>> = Vec::new();
    let mut current: Vec<u8> = Vec::new();
    let mut k: usize = 0;
    assert(list@.subrange(0, 0) =~= Seq::<u8>::empty());
    assert(byte_vecs(parts@).push(current@) =~= seq![Seq::<u8>::empty()]);
    while k < list.len()
        invariant
            k <= list@.len(),
            byte_vecs(parts@).push(current@) == split_paths(list@.subrange(0, k as int)),
        decreases list@.len() - k,
    {
        let c = list[k];
        let ghost before = byte_vecs(parts@).push(current@);
        assert(list@.subrange(0, k + 1).subrange(0, k as int) =~= list@.subrange(0, k as int));
        if c == 58u8 {
            let done = current;
            parts.push(done);
            current = Vec::new();
            assert(byte_vecs(parts@).push(current@) =~= before.push(Seq::empty()));
        } else {
            current.push(c);
            assert(byte_vecs(parts@).push(current@) =~= before.update(
                before.len() - 1,
                before[before.len() - 1].push(c),
            ));
        }
        k = k + 1;
    }
    assert(list@.subrange(0, list@.len() as int) =~= list@);
    parts.push(current);
    assert(byte_vecs(parts@) =~= split_paths(list@));
    parts
}

/// The paths that may hold the configuration file, given the values of the
/// environment variables `HOME` and `XDG_CONFIG_DIRS` (`None` where unset).
pub fn config_file_candidates(home: Option<Vec<u8>>, xdg_config_dirs: Option<Vec<u8>>) -> (paths:
    Vec<Vec<u8>>)
    ensures
        byte_vecs(paths@) == config_candidates(opt_view(home), opt_view(xdg_config_dirs)),
{
    let ghost hv = opt_view(home);
    let ghost xv = opt_view(xdg_config_dirs);
    let mut dirs: Vec<Vec<u8>> = Vec::new();
    match home {
        Some(h) => {
            let mut d = h;
            let dot: [u8; 7] = [46u8, 99u8, 111u8, 110u8, 102u8, 105u8, 103u8];
            assert(dot@ =~= dot_config());
            path_push_exec(&mut d, &dot);
            dirs.push(d);
        },
        None => {},
    }
    let ghost home_dirs = byte_vecs(dirs@);
    assert(home_dirs =~= match hv {
        Some(h) => seq![path_push(h, dot_config())],
        None => Seq::<Seq<u8>>::empty(),
    });
    match xdg_config_dirs {
        Some(x) => {
            let mut parts = split_paths_exec(&x);
            dirs.append(&mut parts);
        },
        None => {},
    }
    assert(byte_vecs(dirs@) =~= config_dirs(hv, xv));
    let mut paths: Vec<Vec<u8>> = Vec::new();
    let mut k: usize = 0;
    while k < dirs.len()
        invariant
            k <= dirs@.len(),
            byte_vecs(dirs@) == config_dirs(hv, xv),
            byte_vecs(paths@) == byte_vecs(dirs@).take(k as int).map_values(
                |d: Seq<u8>| config_file_in(d),
            ),
        decreases dirs@.len() - k,
    {
        let path = config_file_in_exec(&dirs[k]);
        let ghost before = paths@;
        assert(byte_vecs(dirs@)[k as int] == dirs@[k as int]@);
        paths.push(path);
        assert(byte_vecs(paths@) =~= byte_vecs(before).push(path@));
        assert(byte_vecs(dirs@).take(k + 1).map_values(|d: Seq<u8>| config_file_in(d))
            =~= byte_vecs(dirs@).take(k as int).map_values(|d: Seq<u8>| config_file_in(d)).push(
            config_file_in(byte_vecs(dirs@)[k as int]),
        ));
        k = k + 1;
    }
    assert(byte_vecs(dirs@).take(k as int) =~= byte_vecs(dirs@));
    paths
}

/// The first of `paths` whose flag in `exists` is set, if any.
pub open spec fn first_found(paths: Seq<Seq<u8>>, exists: Seq<bool>) -> Option<Seq<u8>>
    decreases paths.len(),
{
    if paths.len() == 0 || exists.len() == 0 {
        None
    } else if exists[0] {
        Some(paths[0])
    } else {
        first_found(paths.drop_first(), exists.drop_first())
    }
}

/// The path found is the first one flagged: every path before it is not,
/// and none is found exactly when no path is flagged.
pub proof fn lemma_first_found(paths: Seq<Seq<u8>>, exists: Seq<bool>)
    requires
        exists.len() == paths.len(),
    ensures
        first_found(paths, exists) is None <==> forall|j: int|
            0 <= j < paths.len() ==> !exists[j],
        first_found(paths, exists) matches Some(p) ==> exists|i: int|
            0 <= i < paths.len() && exists[i] && p == paths[i] && forall|j: int|
                0 <= j < i ==> !exists[j],
    decreases paths.len(),
{
    if paths.len() > 0 && !exists[0] {
        lemma_first_found(paths.drop_first(), exists.drop_first());
        if let Some(p) = first_found(paths, exists) {
            let i = choose|i: int|
                0 <= i < paths.len() - 1 && exists.drop_first()[i] && p == paths.drop_first()[i]
                    && forall|j: int| 0 <= j < i ==> !exists.drop_first()[j];
            assert(exists[i + 1] && p == paths[i + 1]);
            assert forall|j: int| 0 <= j < i + 1 implies !exists[j] by {
                if j > 0 {
                    assert(exists[j] == exists.drop_first()[j - 1]);
                }
            }
        } else {
            assert forall|j: int| 0 <= j < paths.len() implies !exists[j] by {
                if j > 0 {
                    assert(exists[j] == exists.drop_first()[j - 1]);
                }
            }
        }
    }
}

/// The first of `candidates` that exists (`exists[k]` tells whether
/// `candidates[k]` does): only one configuration file is run.
pub fn first_existing(candidates: &Vec<Vec<u8>>, exists: &Vec<bool>) -> (found: Option<Vec<u8>>)
    requires
        exists@.len() == candidates@.len(),
    ensures
        opt_view(found) == first_found(byte_vecs(candidates@), exists@),
        match found {
            Some(p) => exists|i: int|
                0 <= i < candidates@.len() && exists@[i] && p@ == candidates@[i]@ && (forall|
                    j: int,
                | 0 <= j < i ==> !exists@[j]),
            None => forall|j: int| 0 <= j < candidates@.len() ==> !exists@[j],
        },
{
    let ghost paths = byte_vecs(candidates@);
    let mut k: usize = 0;
    assert(paths.skip(0) =~= paths);
    assert(exists@.skip(0) =~= exists@);
    while k < candidates.len()
        invariant
            k <= candidates@.len(),
            exists@.len() == candidates@.len(),
            paths == byte_vecs(candidates@),
            forall|j: int| 0 <= j < k ==> !exists@[j],
            first_found(paths, exists@) == first_found(paths.skip(k as int), exists@.skip(
                k as int,
            )),
        decreases candidates@.len() - k,
    {
        assert(paths.skip(k as int).drop_first() =~= paths.skip(k + 1));
        assert(exists@.skip(k as int).drop_first() =~= exists@.skip(k + 1));
        if exists[k] {
            return Some(copy_bytes(&candidates[k]));
        }
        k = k + 1;
    }
    None
}

/// The search for the configuration file: of the candidates for `home` and
/// `xdg_config_dirs` (`lmsh/init.lmsh` in `$HOME/.config`, then in each
/// directory of `$XDG_CONFIG_DIRS`), the first that exists is found; none is
/// found exactly when none exists; and a file under `$HOME/.config` that
/// exists wins over all others (`is_file` tells whether a path exists).
pub proof fn lemma_config_file_search(
    home: Option<Seq<u8>>,
    xdg_config_dirs: Option<Seq<u8>>,
    is_file: spec_fn(Seq<u8>) -> bool,
)
    ensures
        ({
            let c = config_candidates(home, xdg_config_dirs);
            let found = first_found(c, c.map_values(is_file));
            &&& found is None <==> forall|j: int| 0 <= j < c.len() ==> !is_file(c[j])
            &&& found matches Some(p) ==> exists|i: int|
                0 <= i < c.len() && is_file(c[i]) && p == c[i] && forall|j: int|
                    0 <= j < i ==> !is_file(c[j])
            &&& home matches Some(h) ==> (is_file(config_file_in(path_push(h, dot_config()))) ==> found
                == Some(config_file_in(path_push(h, dot_config()))))
        }),
{
    let c = config_candidates(home, xdg_config_dirs);
    let flags = c.map_values(is_file);
    lemma_first_found(c, flags);
    assert forall|j: int| 0 <= j < c.len() implies flags[j] == is_file(c[j]) by {}
    if let Some(h) = home {
        assert(config_dirs(home, xdg_config_dirs)[0] == path_push(h, dot_config()));
        assert(c[0] == config_file_in(path_push(h, dot_config())));
        if is_file(c[0]) {
            assert(flags[0]);
            assert(first_found(c, flags) == Some(c[0]));
        }
    }
    if let Some(p) = first_found(c, flags) {
        let i = choose|i: int|
            0 <= i < c.len() && flags[i] && p == c[i] && forall|j: int| 0 <= j < i ==> !flags[j];
        assert(is_file(c[i]));
        assert forall|j: int| 0 <= j < i implies !is_file(c[j]) by {
            assert(!flags[j]);
        }
    } else {
        assert forall|j: int| 0 <= j < c.len() implies !is_file(c[j]) by {
            assert(!flags[j]);
        }
    }
}

/// What to run for the configuration file that was found, if any: the
/// read-eval loop over that file.
pub fn run_config_file(config_file: Option<Vec<u8>>) -> (source: Option<ReplSource>)
    ensures
        match config_file {
            Some(path) => source matches Some(ReplSource::File(p)) && p == path,
            None => source is None,
        },
{
    match config_file {
        Some(path) => Some(ReplSource::File(path)),
        None => None,
    }
}

} // verus!
