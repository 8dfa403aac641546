//! The walk of a listing as a whole: what is found when the steps of
//! [`crate::routes::listing`] are taken until no directory is left.
//!
//! The store is taken as it stands while the walk runs: `tree` gives for
//! the key of a directory what it holds, and nothing for a directory that
//! is missing. The walk ends where no directory lies deeper than some
//! number of levels.

use crate::routes::listing::{dirs_in, files_in, Entry, Listed};
use vstd::multiset::Multiset;
use vstd::prelude::*;
use vstd::seq_lib::lemma_multiset_commutative;

verus! {

/// What each directory of the store holds, by its key.
pub type Tree = spec_fn(Seq<char>) -> Seq<Entry>;

/// The directories that a visit of `dir` leaves to be read.
pub open spec fn queued(tree: Tree, dir: Seq<char>, recursive: bool) -> Seq<Seq<char>> {
    if recursive {
        dirs_in(dir, tree(dir))
    } else {
        Seq::empty()
    }
}

/// The directories still to read and the objects found after at most
/// `steps` steps, each of which takes the last of the directories still
/// to read and visits it.
pub open spec fn walk(
    tree: Tree,
    pending: Seq<Seq<char>>,
    found: Seq<Listed>,
    recursive: bool,
    steps: nat,
) -> (Seq<Seq<char>>, Seq<Listed>)
    decreases steps,
{
    if pending.len() == 0 || steps == 0 {
        (pending, found)
    } else {
        let dir = pending.last();
        walk(
            tree,
            pending.drop_last() + queued(tree, dir, recursive),
            found + files_in(dir, tree(dir)),
            recursive,
            (steps - 1) as nat,
        )
    }
}

/// The files in the directories `dirs` and in the directories below
/// them, down to `depth` levels below.
pub open spec fn files_below(tree: Tree, dirs: Seq<Seq<char>>, depth: nat) -> Multiset<Listed>
    decreases depth, dirs.len(),
{
    if dirs.len() == 0 {
        Multiset::empty()
    } else {
        let dir = dirs.last();
        let deeper = if depth == 0 {
            Multiset::empty()
        } else {
            files_below(tree, dirs_in(dir, tree(dir)), (depth - 1) as nat)
        };
        files_below(tree, dirs.drop_last(), depth).add(files_in(dir, tree(dir)).to_multiset()).add(
            deeper,
        )
    }
}

/// The number of the directories `dirs` and of the directories below
/// them, down to `depth` levels below.
pub open spec fn dirs_below(tree: Tree, dirs: Seq<Seq<char>>, depth: nat) -> nat
    decreases depth, dirs.len(),
{
    if dirs.len() == 0 {
        0
    } else {
        let dir = dirs.last();
        let deeper = if depth == 0 {
            0
        } else {
            dirs_below(tree, dirs_in(dir, tree(dir)), (depth - 1) as nat)
        };
        dirs_below(tree, dirs.drop_last(), depth) + 1 + deeper
    }
}

/// Whether no directory lies deeper than `depth` levels below `dirs`.
pub open spec fn depth_within(tree: Tree, dirs: Seq<Seq<char>>, depth: nat) -> bool
    decreases depth, dirs.len(),
{
    if dirs.len() == 0 {
        true
    } else {
        let dir = dirs.last();
        &&& depth_within(tree, dirs.drop_last(), depth)
        &&& if depth == 0 {
            dirs_in(dir, tree(dir)).len() == 0
        } else {
            depth_within(tree, dirs_in(dir, tree(dir)), (depth - 1) as nat)
        }
    }
}

/// The files in and below each directory still to read, where the
/// directory `pending[i]` is followed `depths[i]` levels down.
spec fn stack_files(tree: Tree, pending: Seq<Seq<char>>, depths: Seq<nat>) -> Multiset<Listed>
    decreases pending.len(),
{
    if pending.len() == 0 {
        Multiset::empty()
    } else {
        stack_files(tree, pending.drop_last(), depths.drop_last()).add(
            files_below(tree, seq![pending.last()], depths.last()),
        )
    }
}

spec fn stack_dirs(tree: Tree, pending: Seq<Seq<char>>, depths: Seq<nat>) -> nat
    decreases pending.len(),
{
    if pending.len() == 0 {
        0
    } else {
        stack_dirs(tree, pending.drop_last(), depths.drop_last()) + dirs_below(
            tree,
            seq![pending.last()],
            depths.last(),
        )
    }
}

spec fn stack_within(tree: Tree, pending: Seq<Seq<char>>, depths: Seq<nat>) -> bool
    decreases pending.len(),
{
    if pending.len() == 0 {
        true
    } else {
        stack_within(tree, pending.drop_last(), depths.drop_last()) && depth_within(
            tree,
            seq![pending.last()],
            depths.last(),
        )
    }
}

/// `n` directories, each followed `depth` levels down.
spec fn level(n: nat, depth: nat) -> Seq<nat> {
    Seq::new(n, |i: int| depth)
}

/// What lies in and below one directory: its own files and what lies in
/// and below the directories it holds, one level less deep.
proof fn lemma_one_dir(tree: Tree, dir: Seq<char>, depth: nat)
    ensures
        files_below(tree, seq![dir], depth) == files_in(dir, tree(dir)).to_multiset().add(
            if depth == 0 {
                Multiset::empty()
            } else {
                files_below(tree, dirs_in(dir, tree(dir)), (depth - 1) as nat)
            },
        ),
        dirs_below(tree, seq![dir], depth) == 1 + (if depth == 0 {
            0
        } else {
            dirs_below(tree, dirs_in(dir, tree(dir)), (depth - 1) as nat)
        }),
        depth_within(tree, seq![dir], depth) == (if depth == 0 {
            dirs_in(dir, tree(dir)).len() == 0
        } else {
            depth_within(tree, dirs_in(dir, tree(dir)), (depth - 1) as nat)
        }),
{
    let one = seq![dir];
    let none = Seq::<Seq<char>>::empty();
    assert(one.drop_last() =~= none);
    assert(one.last() == dir);
    assert(files_below(tree, none, depth) =~= Multiset::<Listed>::empty());
    assert(dirs_below(tree, none, depth) == 0);
    assert(depth_within(tree, none, depth));
    let deeper = if depth == 0 {
        Multiset::empty()
    } else {
        files_below(tree, dirs_in(dir, tree(dir)), (depth - 1) as nat)
    };
    assert(files_below(tree, one, depth) =~= files_in(dir, tree(dir)).to_multiset().add(deeper));
}

/// Directories are followed one by one: what lies in and below `dirs`
/// is what lies in and below all but the last, and the last.
proof fn lemma_last_dir(tree: Tree, dirs: Seq<Seq<char>>, depth: nat)
    requires
        dirs.len() > 0,
    ensures
        files_below(tree, dirs, depth) == files_below(tree, dirs.drop_last(), depth).add(
            files_below(tree, seq![dirs.last()], depth),
        ),
        dirs_below(tree, dirs, depth) == dirs_below(tree, dirs.drop_last(), depth) + dirs_below(
            tree,
            seq![dirs.last()],
            depth,
        ),
        depth_within(tree, dirs, depth) == (depth_within(tree, dirs.drop_last(), depth)
            && depth_within(tree, seq![dirs.last()], depth)),
        dirs_below(tree, seq![dirs.last()], depth) >= 1,
{
    let one = seq![dirs.last()];
    lemma_one_dir(tree, dirs.last(), depth);
    assert(files_below(tree, dirs, depth) =~= files_below(tree, dirs.drop_last(), depth).add(
        files_below(tree, one, depth),
    ));
}

/// Directories that are all followed to the same depth are a stack of
/// that depth.
proof fn lemma_level_stack(tree: Tree, dirs: Seq<Seq<char>>, depth: nat)
    ensures
        stack_files(tree, dirs, level(dirs.len(), depth)) == files_below(tree, dirs, depth),
        stack_dirs(tree, dirs, level(dirs.len(), depth)) == dirs_below(tree, dirs, depth),
        stack_within(tree, dirs, level(dirs.len(), depth)) == depth_within(tree, dirs, depth),
    decreases dirs.len(),
{
    if dirs.len() > 0 {
        assert(level(dirs.len(), depth).drop_last() =~= level((dirs.len() - 1) as nat, depth));
        lemma_level_stack(tree, dirs.drop_last(), depth);
        lemma_last_dir(tree, dirs, depth);
    }
}

/// A stack on top of another holds what the two hold.
proof fn lemma_stacked(
    tree: Tree,
    p: Seq<Seq<char>>,
    dp: Seq<nat>,
    q: Seq<Seq<char>>,
    dq: Seq<nat>,
)
    requires
        p.len() == dp.len(),
        q.len() == dq.len(),
    ensures
        stack_files(tree, p + q, dp + dq) == stack_files(tree, p, dp).add(
            stack_files(tree, q, dq),
        ),
        stack_dirs(tree, p + q, dp + dq) == stack_dirs(tree, p, dp) + stack_dirs(tree, q, dq),
        stack_within(tree, p + q, dp + dq) == (stack_within(tree, p, dp) && stack_within(
            tree,
            q,
            dq,
        )),
    decreases q.len(),
{
    if q.len() == 0 {
        assert(p + q =~= p);
        assert(dp + dq =~= dp);
        assert(stack_files(tree, p, dp).add(stack_files(tree, q, dq)) =~= stack_files(
            tree,
            p,
            dp,
        ));
    } else {
        assert((p + q).drop_last() =~= p + q.drop_last());
        assert((dp + dq).drop_last() =~= dp + dq.drop_last());
        assert((p + q).last() == q.last());
        assert((dp + dq).last() == dq.last());
        lemma_stacked(tree, p, dp, q.drop_last(), dq.drop_last());
        assert(stack_files(tree, p + q, dp + dq) =~= stack_files(tree, p, dp).add(
            stack_files(tree, q, dq),
        ));
    }
}

/// A recursive walk whose directories still to read are followed no
/// deeper than the store goes, and which may take a step for each
/// directory, reads them all and adds the files in and below them to
/// what it had found.
proof fn lemma_walk_of_stack(
    tree: Tree,
    pending: Seq<Seq<char>>,
    depths: Seq<nat>,
    found: Seq<Listed>,
    steps: nat,
)
    requires
        pending.len() == depths.len(),
        stack_within(tree, pending, depths),
        steps >= stack_dirs(tree, pending, depths),
    ensures
        walk(tree, pending, found, true, steps).0.len() == 0,
        walk(tree, pending, found, true, steps).1.to_multiset() == found.to_multiset().add(
            stack_files(tree, pending, depths),
        ),
    decreases steps,
{
    if pending.len() == 0 {
        assert(found.to_multiset().add(Multiset::<Listed>::empty()) =~= found.to_multiset());
    } else {
        let dir = pending.last();
        let depth = depths.last();
        let one = seq![dir];
        lemma_one_dir(tree, dir, depth);
        let below = dirs_in(dir, tree(dir));
        let own = files_in(dir, tree(dir));
        let next_depth: nat = if depth == 0 {
            0
        } else {
            (depth - 1) as nat
        };
        lemma_level_stack(tree, below, next_depth);
        lemma_stacked(
            tree,
            pending.drop_last(),
            depths.drop_last(),
            below,
            level(below.len(), next_depth),
        );
        let next = pending.drop_last() + below;
        let next_depths = depths.drop_last() + level(below.len(), next_depth);
        if depth == 0 {
            assert(below.len() == 0);
            assert(files_below(tree, below, next_depth) =~= Multiset::<Listed>::empty());
            assert(dirs_below(tree, below, next_depth) == 0);
            assert(depth_within(tree, below, next_depth));
        }
        lemma_multiset_commutative(found, own);
        lemma_walk_of_stack(tree, next, next_depths, found + own, (steps - 1) as nat);
        assert(walk(tree, pending, found, true, steps) == walk(
            tree,
            next,
            found + own,
            true,
            (steps - 1) as nat,
        ));
        assert((found + own).to_multiset().add(stack_files(tree, next, next_depths))
            =~= found.to_multiset().add(stack_files(tree, pending, depths)));
    }
}

/// A recursive listing finds every file in and below the directory it
/// starts from, each as often as it is there, and leaves no directory
/// unread: this holds where the store goes no deeper than `depth` levels
/// below that directory and the walk may take a step for each directory.
pub proof fn lemma_walk_finds_every_file(tree: Tree, base: Seq<char>, depth: nat, steps: nat)
    requires
        depth_within(tree, seq![base], depth),
        steps >= dirs_below(tree, seq![base], depth),
    ensures
        walk(tree, seq![base], Seq::empty(), true, steps).0.len() == 0,
        walk(tree, seq![base], Seq::empty(), true, steps).1.to_multiset() == files_below(
            tree,
            seq![base],
            depth,
        ),
{
    broadcast use vstd::seq_lib::group_to_multiset_ensures;

    let pending = seq![base];
    let depths = seq![depth];
    let none = Seq::<Seq<char>>::empty();
    assert(pending.drop_last() =~= none);
    assert(depths.drop_last() =~= Seq::<nat>::empty());
    assert(stack_files(tree, none, Seq::<nat>::empty()) =~= Multiset::<Listed>::empty());
    assert(stack_dirs(tree, none, Seq::<nat>::empty()) == 0);
    assert(stack_within(tree, none, Seq::<nat>::empty()));
    assert(stack_files(tree, pending, depths) =~= files_below(tree, pending, depth));
    lemma_walk_of_stack(tree, pending, depths, Seq::empty(), steps);
    assert(Seq::<Listed>::empty().to_multiset() =~= Multiset::<Listed>::empty());
    assert(Multiset::<Listed>::empty().add(files_below(tree, pending, depth)) =~= files_below(
        tree,
        pending,
        depth,
    ));
}

/// A listing that is not recursive finds the files of the directory it
/// starts from, in the order in which the directory holds them, and
/// reads no other directory.
pub proof fn lemma_flat_walk_finds_own_files(tree: Tree, base: Seq<char>, steps: nat)
    requires
        steps >= 1,
    ensures
        walk(tree, seq![base], Seq::empty(), false, steps) == (
            Seq::<Seq<char>>::empty(),
            files_in(base, tree(base)),
        ),
{
    let pending = seq![base];
    let none = Seq::<Seq<char>>::empty();
    let own = files_in(base, tree(base));
    assert(pending.drop_last() + queued(tree, base, false) =~= none);
    assert(Seq::<Listed>::empty() + own =~= own);
    assert(walk(tree, none, own, false, (steps - 1) as nat) == (none, own));
}

} // verus!
