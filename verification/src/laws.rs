//! Proved laws relating the interpreter's operations across calls.
//!
//! Each law is stated over the models of [`crate::model`], exactly as
//! the operations' own contracts describe their steps, so what is
//! proved here holds of the executable functions in [`crate::shell`].

use vstd::prelude::*;

use crate::model::{
    DOT, MAX_CHILDREN, MAX_DIRS, SPACE, ShellError, ShellModel, blank_dir, change_dir_result,
    change_dir_step, child_pos, dir_wf, first_named, lemma_first_child_skip,
    lemma_first_child_zero, lemma_first_named_skip, make_dir_err, make_dir_post, make_dir_step,
    remove_dir_post, shell_wf, spec_find_child,
};

verus! {

/// No slot before the current directory carries the current
/// directory's name.  Lookups go by name and take the first match, so
/// under this proviso a lookup that starts from the current
/// directory's name reaches the current directory itself; without it,
/// a directory elsewhere in the tree can be scanned in its place.
pub open spec fn current_dir_unshadowed(s: ShellModel) -> bool {
    forall|i: int| 0 <= i < s.current_dir ==> (#[trigger] s.table.slots[i]).name
        != s.table.slots[s.current_dir].name
}

/// Round trip of creation and lookup: after a successful `make_dir`,
/// looking the same name up under the same parent answers exactly the
/// directory just created — provided no earlier slot shadows the
/// parent's name.
pub proof fn lemma_create_then_find(s: ShellModel, name: Seq<u8>)
    requires
        shell_wf(s),
        current_dir_unshadowed(s),
        make_dir_err(s, name) is None,
    ensures
        spec_find_child(make_dir_post(s, name).table, s.table.slots[s.current_dir].name, name)
            == s.table.next_dir,
{
    let cur = s.current_dir;
    let id = s.table.next_dir;
    let post = make_dir_post(s, name);
    let parent = s.table.slots[cur];
    let pname = parent.name;
    let parent2 = post.table.slots[cur];

    assert(dir_wf(parent, cur, s.table.next_dir));

    // The parent scan over the new state stops at the current
    // directory: earlier slots are untouched and by the proviso none
    // of them carries its name.
    assert forall|k: int| 0 <= k < cur implies (#[trigger] post.table.slots[k]).name != pname by {
        assert(post.table.slots[k] == s.table.slots[k]);
    }
    lemma_first_named_skip(post.table.slots, pname, cur, post.table.next_dir - 1);
    assert(parent2.name == pname);
    assert(first_named(post.table.slots, pname, 0, post.table.next_dir - 1) == Some(cur));

    // No occupied entry of the old child list matches the new name.
    assert forall|k: int| 0 <= k < parent.child_count implies post.table.slots[#[trigger] parent
        .child_indexes[k]].name != name by {
        let e = parent.child_indexes[k];
        assert(cur < e < s.table.next_dir);
        assert(post.table.slots[e] == s.table.slots[e]);
        if cur < s.table.next_dir - 1 {
            // The collision check scanned the current directory
            // itself, and found nothing.
            lemma_first_named_skip(s.table.slots, pname, cur, s.table.next_dir - 1);
            assert(first_named(s.table.slots, pname, 0, s.table.next_dir - 1) == Some(cur));
            assert(spec_find_child(s.table, pname, name) == 0);
            lemma_first_child_zero(s.table, parent, name, 0, cur);
        } else {
            // The current directory is the newest slot, so its child
            // entries would have to lie in an empty range.
            assert(cur < parent.child_indexes[0] < s.table.next_dir);
        }
    }

    // The child scan over the new state runs past the old entries and
    // hits the new directory, whose slot carries the new name.
    assert forall|k: int| 0 <= k < parent.child_count implies !(0 <= #[trigger] parent2
        .child_indexes[k] < MAX_DIRS && post.table.slots[parent2.child_indexes[k]].name == name) by {
        assert(parent2.child_indexes[k] == parent.child_indexes[k]);
    }
    lemma_first_child_skip(post.table, parent2, name, parent.child_count);
    assert(parent2.child_indexes[parent.child_count] == id);
    assert(post.table.slots[id].name == name);
    assert(spec_find_child(post.table, pname, name) == id);
}

/// Creating the same name twice in a row under the same directory:
/// the second call reports a duplicate sibling — and, by the
/// contract of `make_dir_command`, a failed call leaves the tree
/// unchanged.
pub proof fn lemma_make_dir_twice(s: ShellModel, name: Seq<u8>)
    requires
        shell_wf(s),
        current_dir_unshadowed(s),
        make_dir_err(s, name) is None,
    ensures
        make_dir_err(make_dir_step(s, name), name) == Some(ShellError::NameCollision),
{
    lemma_create_then_find(s, name);
    let post = make_dir_post(s, name);
    assert(post.current_dir == s.current_dir);
    assert(post.table.slots[post.current_dir].name == s.table.slots[s.current_dir].name);
    assert(name[0] != SPACE);
    assert(spec_find_child(post.table, post.table.slots[post.current_dir].name, name)
        == s.table.next_dir);
    assert(s.table.next_dir >= 1);
}

/// Entering a freshly created child and then asking for the parent
/// returns the session to the directory it started from.
pub proof fn lemma_make_enter_leave(s: ShellModel, name: Seq<u8>, dot: Seq<u8>)
    requires
        shell_wf(s),
        current_dir_unshadowed(s),
        make_dir_err(s, name) is None,
        name[0] != DOT,
        dot[0] == DOT,
    ensures
        ({
            let entered = change_dir_step(make_dir_post(s, name), name);
            &&& entered.current_dir == s.table.next_dir
            &&& change_dir_result(entered, dot) == Ok::<int, ShellError>(s.current_dir)
            &&& change_dir_step(entered, dot).current_dir == s.current_dir
        }),
{
    lemma_create_then_find(s, name);
    let post = make_dir_post(s, name);
    let id = s.table.next_dir;
    let cur = s.current_dir;

    assert(name[0] != SPACE);
    assert(post.current_dir == cur);
    assert(post.table.slots[cur].name == s.table.slots[cur].name);
    assert(spec_find_child(post.table, post.table.slots[post.current_dir].name, name) == id);
    assert(id != 0);
    assert(change_dir_result(post, name) == Ok::<int, ShellError>(id));

    let entered = change_dir_step(post, name);
    assert(entered.current_dir == id);
    assert(entered.table == post.table);

    assert(cur < id);
    assert(post.table.slots[id].parent_index == cur);
    assert(dot[0] != SPACE);
    assert(change_dir_result(entered, dot) == Ok::<int, ShellError>(cur));
}

/// A found child position carries the searched entry, and no earlier
/// occupied entry does.
pub proof fn lemma_child_pos_found(children: Seq<int>, count: int, id: int, j: int)
    requires
        0 <= j,
    ensures
        child_pos(children, count, id, j) matches Some(p) ==> j <= p < count && children[p] == id
            && forall|k: int| j <= k < p ==> children[k] != id,
    decreases count - j,
{
    if j < count && children[j] != id {
        lemma_child_pos_found(children, count, id, j + 1);
    }
}

/// Removal is not recursive: clearing child `id` leaves every other
/// slot — in particular the removed directory's own children — and
/// the allocation cursor and the current directory untouched.  The
/// removed directory's slot itself becomes the empty sentinel.
pub proof fn lemma_remove_keeps_orphans(s: ShellModel, id: int)
    requires
        shell_wf(s),
        0 <= id < MAX_DIRS,
    ensures
        remove_dir_post(s, id).table.next_dir == s.table.next_dir,
        remove_dir_post(s, id).current_dir == s.current_dir,
        remove_dir_post(s, id).table.slots[id] == blank_dir(),
        forall|k: int| 0 <= k < MAX_DIRS && k != id && k != s.current_dir
            ==> remove_dir_post(s, id).table.slots[k] == s.table.slots[k],
{
}

/// Removal detaches: when the removed index sits in the current
/// directory's child list — and, as entries are created one by one
/// from distinct cursor values, no entry repeats — then no occupied
/// entry of the list names it afterwards.
pub proof fn lemma_remove_detaches(s: ShellModel, id: int)
    requires
        shell_wf(s),
        0 <= id < MAX_DIRS,
        forall|j: int, k: int| 0 <= j < k < s.table.slots[s.current_dir].child_count
            ==> s.table.slots[s.current_dir].child_indexes[j]
                != s.table.slots[s.current_dir].child_indexes[k],
    ensures
        ({
            let post = remove_dir_post(s, id);
            let parent2 = post.table.slots[s.current_dir];
            forall|j: int| 0 <= j < parent2.child_count ==> #[trigger] parent2.child_indexes[j]
                != id
        }),
{
    let parent = s.table.slots[s.current_dir];
    let post = remove_dir_post(s, id);
    let parent2 = post.table.slots[s.current_dir];
    assert(dir_wf(parent, s.current_dir, s.table.next_dir));
    lemma_child_pos_found(parent.child_indexes, parent.child_count, id, 0);
    match child_pos(parent.child_indexes, parent.child_count, id, 0) {
        Some(p) => {
            if id == s.current_dir {
                // the current directory never lists itself: entries
                // exceed its own index
                assert(parent.child_indexes[p] > s.current_dir);
            } else {
                assert forall|j: int| 0 <= j < parent2.child_count
                    implies #[trigger] parent2.child_indexes[j] != id by {
                    if j < p {
                        assert(parent2.child_indexes[j] == parent.child_indexes[j]);
                    } else if j < MAX_CHILDREN - 1 {
                        assert(parent2.child_indexes[j] == parent.child_indexes[j + 1]);
                    }
                }
            }
        },
        None => {
            if id != s.current_dir {
                assert(parent2 == parent);
                assert forall|j: int| 0 <= j < parent2.child_count
                    implies #[trigger] parent2.child_indexes[j] != id by {
                    if parent.child_indexes[j] == id {
                        lemma_child_pos_skip_here(parent.child_indexes, parent.child_count, id, j);
                    }
                }
            } else {
                assert forall|j: int| 0 <= j < parent2.child_count
                    implies #[trigger] parent2.child_indexes[j] != id by {
                    assert(parent2.child_indexes[j] > s.current_dir);
                }
            }
        },
    }
}

/// When an occupied entry equals the searched index, the search finds
/// a position.
proof fn lemma_child_pos_skip_here(children: Seq<int>, count: int, id: int, j: int)
    requires
        0 <= j < count,
        children[j] == id,
    ensures
        child_pos(children, count, id, 0) is Some,
    decreases j,
{
    if child_pos(children, count, id, 0) is None {
        lemma_child_pos_none(children, count, id, 0);
    }
}

/// A failed search means no occupied entry matches.
proof fn lemma_child_pos_none(children: Seq<int>, count: int, id: int, j: int)
    requires
        0 <= j,
        child_pos(children, count, id, j) is None,
    ensures
        forall|k: int| j <= k < count ==> children[k] != id,
    decreases count - j,
{
    if j < count {
        lemma_child_pos_none(children, count, id, j + 1);
    }
}

} // verus!
