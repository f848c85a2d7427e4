//! The executable directory table and command interpreter.
//!
//! `Shell` owns the whole session: the input line buffer, the table of
//! directory slots, and the index of the current directory.  Every
//! operation is specified against the models in [`crate::model`]
//! through the `View` of each type.

use vstd::prelude::*;
use vstd::slice::slice_to_vec;

use crate::model::{
    BUF_CAP, DOT, MAX_CHILDREN, MAX_DIRS, MAX_DIR_NAME, NEWLINE, SLASH, SPACE, ShellError,
    DirModel, ShellModel, TableModel, blank_dir, change_dir_result, change_dir_step,
    change_dir_text, child_pos, dispatch, first_child_named, first_named, init_shell,
    key_outcome, make_dir_err, make_dir_post, make_dir_step, make_dir_text, not_supported_text,
    pad10, parse_result, remove_at, remove_dir_post, remove_dir_result, remove_dir_step,
    remove_dir_text, root_dir, shell_wf, spec_find_child, token_end, tree_children, tree_text,
    dir_wf, indent, msg_name_missing, msg_no_such_dir, msg_removed_prefix, msg_was_removed,
    msg_not_supported_open, lemma_first_named_skip, lemma_first_child_skip,
    lemma_find_child_range, lemma_child_pos_skip, lemma_token_end_skip, lemma_token_end_bounds,
    lemma_token_end_at,
};
use crate::msgs::{
    text_root_name_text, text_word_cur_dir, text_word_make_dir, text_word_change_dir,
    text_word_remove_dir, text_word_dir_tree, text_word_clear, text_msg_name_missing,
    text_msg_already_exists, text_msg_no_space, text_msg_already_root, text_msg_no_such_dir,
    text_msg_dir_changed, text_msg_folder_prefix, text_msg_is_created, text_msg_removed_prefix,
    text_msg_was_removed, text_msg_not_supported_open, text_msg_not_supported_close,
};

verus! {


/// An index sequence, read at the model level.
pub open spec fn seq_to_ints(v: Seq<usize>) -> Seq<int> {
    v.map_values(|x: usize| x as int)
}

/// One directory slot of the table.
pub struct Dir {
    /// The slot's own index; zero in an empty slot.
    pub index: usize,
    /// The name, ten bytes, space padded on the right.
    pub name: Vec<u8>,
    /// Index of the owning directory; the root points at itself.
    pub parent_index: usize,
    /// Number of occupied entries at the front of `child_indexes`.
    pub child_count: usize,
    /// The child list, ten entries, zero beyond `child_count`.
    pub child_indexes: Vec<usize>,
}

impl View for Dir {
    type V = DirModel;

    open spec fn view(&self) -> DirModel {
        DirModel {
            index: self.index as int,
            name: self.name@,
            parent_index: self.parent_index as int,
            child_count: self.child_count as int,
            child_indexes: self.child_indexes@.map_values(|v: usize| v as int),
        }
    }
}

/// The directory table: one hundred slots and the allocation cursor.
pub struct Dirs {
    pub dirs: Vec<Dir>,
    /// Next slot to allocate; only ever grows.
    pub next_dir: usize,
}

impl View for Dirs {
    type V = TableModel;

    open spec fn view(&self) -> TableModel {
        TableModel {
            slots: self.dirs@.map_values(|d: Dir| d@),
            next_dir: self.next_dir as int,
        }
    }
}

/// The interpreter session: line buffer, table, current directory.
pub struct Shell {
    /// The input line gathered so far.
    pub buf: Vec<u8>,
    /// How many bytes of `buf` are filled.
    pub buf_len: usize,
    pub dirs: Dirs,
    /// Index of the current directory in the table.
    pub current_dir: usize,
}

impl View for Shell {
    type V = ShellModel;

    open spec fn view(&self) -> ShellModel {
        ShellModel {
            buf: self.buf@,
            buf_len: self.buf_len as int,
            table: self.dirs@,
            current_dir: self.current_dir as int,
        }
    }
}

/// What one key stroke or one command hands back for the screen: text
/// to append, and whether the screen is wiped first.
pub struct CommandOutput {
    pub text: Vec<u8>,
    pub clear_screen: bool,
}

/// A vector of `n` copies of the byte `b`.
fn repeat_bytes(b: u8, n: usize) -> (v: Vec<u8>)
    ensures
        v@ == Seq::new(n as nat, |i: int| b),
{
    let mut v: Vec<u8> = Vec::new();
    let mut i: usize = 0;
    while i < n
        invariant
            i <= n,
            v@ == Seq::new(i as nat, |k: int| b),
        decreases n - i,
    {
        v.push(b);
        proof {
            assert(v@ =~= Seq::new((i + 1) as nat, |k: int| b));
        }
        i += 1;
    }
    v
}

/// A fresh, all-zero child list.
fn zero_children() -> (v: Vec<usize>)
    ensures
        v@ == Seq::new(MAX_CHILDREN as nat, |i: int| 0usize),
{
    let mut v: Vec<usize> = Vec::new();
    let mut i: usize = 0;
    while i < MAX_CHILDREN
        invariant
            i <= MAX_CHILDREN,
            v@ == Seq::new(i as nat, |k: int| 0usize),
        decreases MAX_CHILDREN - i,
    {
        v.push(0);
        proof {
            assert(v@ =~= Seq::new((i + 1) as nat, |k: int| 0usize));
        }
        i += 1;
    }
    v
}

/// A copy of a byte vector.
fn clone_bytes(v: &Vec<u8>) -> (r: Vec<u8>)
    ensures
        r@ == v@,
{
    let r = slice_to_vec(v.as_slice());
    proof {
        assert(r@ =~= v@);
    }
    r
}

/// A copy of an index vector.
fn clone_indexes(v: &Vec<usize>) -> (r: Vec<usize>)
    ensures
        r@ == v@,
{
    let r = slice_to_vec(v.as_slice());
    proof {
        assert(r@ =~= v@);
    }
    r
}

/// A slot that holds no directory.
fn blank_dir_node() -> (d: Dir)
    ensures
        d@ == blank_dir(),
{
    let d = Dir {
        index: 0,
        name: repeat_bytes(SPACE, MAX_DIR_NAME),
        parent_index: 0,
        child_count: 0,
        child_indexes: zero_children(),
    };
    proof {
        assert(d@.name =~= blank_dir().name);
        assert(d@.child_indexes =~= blank_dir().child_indexes);
        assert(d@ == blank_dir());
    }
    d
}

/// Compares two names byte for byte.
pub fn compare_array(first: &Vec<u8>, second: &Vec<u8>) -> (r: bool)
    requires
        first@.len() == second@.len(),
    ensures
        r == (first@ == second@),
{
    let n = first.len();
    let mut i: usize = 0;
    while i < n
        invariant
            i <= n,
            n == first@.len(),
            first@.len() == second@.len(),
            forall|k: int| 0 <= k < i ==> first@[k] == second@[k],
        decreases n - i,
    {
        if first[i] != second[i] {
            return false;
        }
        i += 1;
    }
    proof {
        assert(first@ =~= second@);
    }
    true
}

/// Compares a command word against a fixed-width token: the word is
/// padded with spaces to the token width first.
pub fn compare_strings(s: &Vec<u8>, arr: &Vec<u8>) -> (r: bool)
    requires
        s@.len() <= MAX_DIR_NAME,
        arr@.len() == MAX_DIR_NAME,
    ensures
        r == (arr@ == pad10(s@)),
{
    let mut first = repeat_bytes(SPACE, MAX_DIR_NAME);
    let n = s.len();
    let mut i: usize = 0;
    while i < n
        invariant
            i <= n,
            n == s@.len() <= MAX_DIR_NAME,
            first@.len() == MAX_DIR_NAME,
            forall|k: int| 0 <= k < i ==> first@[k] == s@[k],
            forall|k: int| i <= k < MAX_DIR_NAME ==> first@[k] == SPACE,
        decreases n - i,
    {
        first.set(i, s[i]);
        i += 1;
    }
    proof {
        assert(first@ =~= pad10(s@));
    }
    let r = compare_array(&first, arr);
    proof {
        if arr@ == first@ {
            assert(arr@ == pad10(s@));
        }
    }
    r
}

/// Appends a name's bytes to the output text.
pub fn write_array(arr: &Vec<u8>, out: &mut Vec<u8>)
    ensures
        final(out)@ == old(out)@ + arr@,
{
    let n = arr.len();
    let mut i: usize = 0;
    while i < n
        invariant
            i <= n,
            n == arr@.len(),
            out@ == old(out)@ + arr@.subrange(0, i as int),
        decreases n - i,
    {
        out.push(arr[i]);
        proof {
            assert(old(out)@ + arr@.subrange(0, (i + 1) as int) =~= (old(out)@
                + arr@.subrange(0, i as int)).push(arr@[i as int]));
        }
        i += 1;
    }
    proof {
        assert(arr@.subrange(0, n as int) =~= arr@);
    }
}

impl Shell {
    /// The session state is well formed.
    pub open spec fn wf(&self) -> bool {
        shell_wf(self@)
    }

    /// A fresh session: the root alone in slot zero, the cursor at
    /// slot one, an empty line buffer, the root current.
    pub fn new() -> (s: Shell)
        ensures
            s@ == init_shell(),
            s.wf(),
    {
        let root = Dir {
            index: 0,
            name: text_root_name_text(),
            parent_index: 0,
            child_count: 0,
            child_indexes: zero_children(),
        };
        proof {
            assert(root@.child_indexes =~= root_dir().child_indexes);
            assert(root@ == root_dir());
        }

        let mut slots: Vec<Dir> = Vec::new();
        let mut i: usize = 0;
        while i < MAX_DIRS
            invariant
                i <= MAX_DIRS,
                slots@.len() == i,
                forall|k: int| 0 <= k < i ==> (#[trigger] slots@[k])@ == blank_dir(),
            decreases MAX_DIRS - i,
        {
            slots.push(blank_dir_node());
            i += 1;
        }
        slots.set(0, root);

        let s = Shell {
            buf: repeat_bytes(0, BUF_CAP),
            buf_len: 0,
            dirs: Dirs { dirs: slots, next_dir: 1 },
            current_dir: 0,
        };
        proof {
            let m = init_shell();
            assert forall|k: int| 0 <= k < MAX_DIRS implies s@.table.slots[k] == m.table.slots[k] by {
                if k == 0 {
                    assert(s@.table.slots[k] == root_dir());
                } else {
                    assert(s@.table.slots[k] == blank_dir());
                }
            }
            assert(s@.table.slots =~= m.table.slots);
            assert(s@ == m);
            assert forall|k: int| 0 <= k < MAX_DIRS implies dir_wf(
                #[trigger] s@.table.slots[k],
                k,
                1,
            ) by {
                if k == 0 {
                    assert(s@.table.slots[k] == root_dir());
                } else {
                    assert(s@.table.slots[k] == blank_dir());
                }
            }
        }
        s
    }

    /// Finds a child directory by name: a linear scan locates the
    /// first slot below the cursor, less one, whose name is
    /// `parent_dir`, and that slot's occupied child entries are then
    /// scanned for the first child named `new_dir`.  Returns the
    /// child's index, or zero — the root's index — for "not found";
    /// callers treat zero as a failed lookup.  Because the parent is
    /// looked up by name, a directory elsewhere in the tree that
    /// shares the parent's name can be scanned in its place.
    pub fn find_childer_dir(&self, parent_dir: &Vec<u8>, new_dir: &Vec<u8>) -> (r: usize)
        requires
            self.wf(),
            parent_dir@.len() == MAX_DIR_NAME,
            new_dir@.len() == MAX_DIR_NAME,
        ensures
            r as int == spec_find_child(self.dirs@, parent_dir@, new_dir@),
            r < MAX_DIRS,
    {
        let ghost t = self.dirs@;
        let bound = self.dirs.next_dir - 1;
        let mut i: usize = 0;
        let mut parent_at: usize = 0;
        let mut found = false;
        while i < bound && !found
            invariant
                self.wf(),
                t == self.dirs@,
                bound == t.next_dir - 1,
                i <= bound,
                parent_dir@.len() == MAX_DIR_NAME,
                found ==> i < bound && t.slots[i as int].name == parent_dir@ && parent_at == i,
                forall|k: int| 0 <= k < i ==> (#[trigger] t.slots[k]).name != parent_dir@,
            decreases bound - i + (if found { 0int } else { 1int }),
        {
            proof {
                assert(t.slots[i as int] == self.dirs.dirs@[i as int]@);
                assert(dir_wf(t.slots[i as int], i as int, t.next_dir));
            }
            if compare_array(&self.dirs.dirs[i].name, parent_dir) {
                parent_at = i;
                found = true;
            } else {
                i += 1;
            }
        }
        if !found {
            proof {
                lemma_first_named_skip(t.slots, parent_dir@, bound as int, bound as int);
                assert(first_named(t.slots, parent_dir@, 0, t.next_dir - 1) is None);
            }
            return 0;
        }
        proof {
            lemma_first_named_skip(t.slots, parent_dir@, parent_at as int, bound as int);
            assert(first_named(t.slots, parent_dir@, 0, t.next_dir - 1) == Some(parent_at as int));
        }
        let ghost pd = t.slots[parent_at as int];
        let parent_count = self.dirs.dirs[parent_at].child_count;
        let mut j: usize = 0;
        while j < parent_count
            invariant
                self.wf(),
                t == self.dirs@,
                parent_at < MAX_DIRS,
                pd == t.slots[parent_at as int],
                parent_count == pd.child_count,
                j <= parent_count,
                first_named(t.slots, parent_dir@, 0, t.next_dir - 1) == Some(parent_at as int),
                new_dir@.len() == MAX_DIR_NAME,
                forall|k: int| 0 <= k < j ==> !(0 <= #[trigger] pd.child_indexes[k] < MAX_DIRS
                    && t.slots[pd.child_indexes[k]].name == new_dir@),
            decreases parent_count - j,
        {
            let c = self.dirs.dirs[parent_at].child_indexes[j];
            proof {
                assert(dir_wf(t.slots[parent_at as int], parent_at as int, t.next_dir));
                assert(parent_at < pd.child_indexes[j as int] < t.next_dir);
                assert(c as int == pd.child_indexes[j as int]);
                assert(t.slots[c as int] == self.dirs.dirs@[c as int]@);
                assert(dir_wf(t.slots[c as int], c as int, t.next_dir));
            }
            if compare_array(&self.dirs.dirs[c].name, new_dir) {
                proof {
                    lemma_first_child_skip(t, pd, new_dir@, j as int);
                    assert(t.slots[c as int].name == new_dir@);
                    assert(first_child_named(t, pd, new_dir@, j as int) == c as int);
                    assert(first_child_named(t, pd, new_dir@, 0) == c as int);
                    assert(spec_find_child(t, parent_dir@, new_dir@) == first_child_named(
                        t,
                        t.slots[parent_at as int],
                        new_dir@,
                        0,
                    ));
                }
                return c;
            }
            j += 1;
        }
        proof {
            lemma_first_child_skip(t, pd, new_dir@, parent_count as int);
            assert(first_child_named(t, pd, new_dir@, 0) == 0);
        }
        0
    }

    /// Creates a child of the current directory.  Fails when the name
    /// is blank, when a sibling of that name is found, or when the
    /// table or the current directory's child list is full; otherwise
    /// the new directory fills the cursor slot, becomes the current
    /// directory's last child, and the cursor moves on.  Returns the
    /// new index, and the report line to print.
    pub fn make_dir_command(&mut self, dir_name: &Vec<u8>) -> (r: (Result<usize, ShellError>, Vec<u8>))
        requires
            old(self).wf(),
            dir_name@.len() == MAX_DIR_NAME,
        ensures
            final(self).wf(),
            final(self)@ == make_dir_step(old(self)@, dir_name@),
            r.1@ == make_dir_text(old(self)@, dir_name@),
            match make_dir_err(old(self)@, dir_name@) {
                Some(e) => r.0 == Err::<usize, ShellError>(e),
                None => r.0 == Ok::<usize, ShellError>(old(self).dirs.next_dir),
            },
    {
        let ghost pre = self@;
        if dir_name[0] == SPACE {
            return (Err(ShellError::NameMissing), text_msg_name_missing());
        }
        proof {
            assert(pre.table.slots[pre.current_dir] == self.dirs.dirs@[self.current_dir as int]@);
            assert(dir_wf(pre.table.slots[pre.current_dir], pre.current_dir, pre.table.next_dir));
        }
        let cur = self.current_dir;
        let cur_name = clone_bytes(&self.dirs.dirs[cur].name);
        let found = self.find_childer_dir(&cur_name, dir_name);
        if found != 0 {
            return (Err(ShellError::NameCollision), text_msg_already_exists());
        }
        let id = self.dirs.next_dir;
        let cnt = self.dirs.dirs[cur].child_count;
        if id >= MAX_DIRS || cnt >= MAX_CHILDREN {
            return (Err(ShellError::CapacityExceeded), text_msg_no_space());
        }

        let child = Dir {
            index: id,
            name: clone_bytes(dir_name),
            parent_index: cur,
            child_count: 0,
            child_indexes: zero_children(),
        };
        let ghost child_m = child@;
        self.dirs.dirs.set(id, child);

        let p_index = self.dirs.dirs[cur].index;
        let p_parent = self.dirs.dirs[cur].parent_index;
        let p_name = clone_bytes(&self.dirs.dirs[cur].name);
        let mut new_children = clone_indexes(&self.dirs.dirs[cur].child_indexes);
        new_children.set(cnt, id);
        let parent2 = Dir {
            index: p_index,
            name: p_name,
            parent_index: p_parent,
            child_count: cnt + 1,
            child_indexes: new_children,
        };
        let ghost parent2_m = parent2@;
        self.dirs.dirs.set(cur, parent2);
        self.dirs.next_dir = id + 1;

        let mut text = text_msg_folder_prefix();
        write_array(dir_name, &mut text);
        let created = text_msg_is_created();
        write_array(&created, &mut text);

        proof {
            let post = make_dir_post(pre, dir_name@);
            let parent = pre.table.slots[pre.current_dir];
            assert(child_m.child_indexes =~= Seq::new(MAX_CHILDREN as nat, |j: int| 0int));
            assert(child_m =~= DirModel {
                index: id as int,
                name: dir_name@,
                parent_index: cur as int,
                child_count: 0,
                child_indexes: Seq::new(MAX_CHILDREN as nat, |j: int| 0int),
            });
            assert(parent2_m.child_indexes =~= parent.child_indexes.update(parent.child_count, id as int));
            assert(parent2_m =~= DirModel {
                child_count: parent.child_count + 1,
                child_indexes: parent.child_indexes.update(parent.child_count, id as int),
                ..parent
            });
            assert(self.dirs.dirs@ == old(self).dirs.dirs@.update(id as int, child).update(
                cur as int,
                parent2,
            ));
            assert(self.dirs@.slots =~~= pre.table.slots.update(id as int, child_m).update(
                cur as int,
                parent2_m,
            ));
            assert(final(self)@ =~~= post);

            assert(text@ == make_dir_text(pre, dir_name@));

            assert forall|k: int| 0 <= k < MAX_DIRS implies dir_wf(
                #[trigger] post.table.slots[k],
                k,
                post.table.next_dir,
            ) by {
                assert(dir_wf(pre.table.slots[k], k, pre.table.next_dir));
                if k == cur as int {
                    assert(post.table.slots[k] == parent2_m);
                } else if k == id as int {
                    assert(post.table.slots[k] == child_m);
                } else {
                    assert(post.table.slots[k] == pre.table.slots[k]);
                }
            }
            assert(final(self).wf());
        }
        (Ok(id), text)
    }

    /// The current directory's path line: a slash, then the padded
    /// name.
    pub fn current_dir_command(&self) -> (r: Vec<u8>)
        requires
            self.wf(),
        ensures
            r@ == seq![SLASH] + self@.table.slots[self@.current_dir].name,
    {
        proof {
            assert(self@.table.slots[self@.current_dir] == self.dirs.dirs@[self.current_dir as int]@);
        }
        let mut out: Vec<u8> = Vec::new();
        out.push(SLASH);
        write_array(&self.dirs.dirs[self.current_dir].name, &mut out);
        proof {
            assert(out@ =~= seq![SLASH] + self@.table.slots[self@.current_dir].name);
        }
        out
    }

    /// Moves the current directory: to the parent when the name
    /// starts with a dot — unless the session is already at the root —
    /// and otherwise to the named child, when the lookup finds one.
    /// Returns the new current index, and the report line to print.
    pub fn change_dir_command(&mut self, dir_name: &Vec<u8>) -> (r: (Result<usize, ShellError>, Vec<u8>))
        requires
            old(self).wf(),
            dir_name@.len() == MAX_DIR_NAME,
        ensures
            final(self).wf(),
            final(self)@ == change_dir_step(old(self)@, dir_name@),
            r.1@ == change_dir_text(old(self)@, dir_name@),
            match change_dir_result(old(self)@, dir_name@) {
                Ok(id) => r.0 == Ok::<usize, ShellError>(id as usize),
                Err(e) => r.0 == Err::<usize, ShellError>(e),
            },
    {
        let ghost pre = self@;
        if dir_name[0] == SPACE {
            return (Err(ShellError::NameMissing), text_msg_name_missing());
        }
        if dir_name[0] == DOT {
            if self.current_dir == 0 {
                return (Err(ShellError::AlreadyAtRoot), text_msg_already_root());
            }
            proof {
                assert(pre.table.slots[pre.current_dir] == self.dirs.dirs@[self.current_dir as int]@);
                assert(dir_wf(pre.table.slots[pre.current_dir], pre.current_dir, pre.table.next_dir));
            }
            let parent = self.dirs.dirs[self.current_dir].parent_index;
            self.current_dir = parent;
            proof {
                assert(final(self)@ =~~= change_dir_step(pre, dir_name@));
            }
            return (Ok(parent), text_msg_dir_changed());
        }
        proof {
            assert(pre.table.slots[pre.current_dir] == self.dirs.dirs@[self.current_dir as int]@);
            assert(dir_wf(pre.table.slots[pre.current_dir], pre.current_dir, pre.table.next_dir));
        }
        let cur = self.current_dir;
        let cur_name = clone_bytes(&self.dirs.dirs[cur].name);
        let id = self.find_childer_dir(&cur_name, dir_name);
        if id == 0 {
            return (Err(ShellError::NotFound), text_msg_no_such_dir());
        }
        proof {
            lemma_find_child_range(pre.table, cur_name@, dir_name@);
        }
        self.current_dir = id;
        proof {
            assert(final(self)@ =~~= change_dir_step(pre, dir_name@));
        }
        (Ok(id), text_msg_dir_changed())
    }

    /// Closes the gap in the current directory's child list after the
    /// entry at position `id` leaves: later entries move one place
    /// left, the freed last place becomes zero, and the count drops.
    pub fn move_child_indexes(&mut self, id: usize)
        requires
            old(self).wf(),
            id < MAX_CHILDREN,
            id < old(self)@.table.slots[old(self)@.current_dir].child_count,
        ensures
            final(self).wf(),
            final(self)@ == (ShellModel {
                table: TableModel {
                    slots: old(self)@.table.slots.update(
                        old(self)@.current_dir,
                        DirModel {
                            child_count: old(self)@.table.slots[old(self)@.current_dir].child_count - 1,
                            child_indexes: remove_at(
                                old(self)@.table.slots[old(self)@.current_dir].child_indexes,
                                id as int,
                            ),
                            ..old(self)@.table.slots[old(self)@.current_dir]
                        },
                    ),
                    next_dir: old(self)@.table.next_dir,
                },
                ..old(self)@
            }),
    {
        let ghost pre = self@;
        let ghost parent = pre.table.slots[pre.current_dir];
        proof {
            assert(parent == self.dirs.dirs@[self.current_dir as int]@);
            assert(dir_wf(parent, pre.current_dir, pre.table.next_dir));
        }
        let cur = self.current_dir;
        let p_index = self.dirs.dirs[cur].index;
        let p_parent = self.dirs.dirs[cur].parent_index;
        let p_count = self.dirs.dirs[cur].child_count;
        let p_name = clone_bytes(&self.dirs.dirs[cur].name);
        let mut children = clone_indexes(&self.dirs.dirs[cur].child_indexes);
        let mut i: usize = id + 1;
        while i < MAX_CHILDREN
            invariant
                id < i <= MAX_CHILDREN,
                children@.len() == MAX_CHILDREN,
                parent.child_indexes.len() == MAX_CHILDREN,
                forall|k: int| 0 <= k < id ==> children@[k] as int == parent.child_indexes[k],
                forall|k: int| id <= k < i - 1 ==> children@[k] as int == parent.child_indexes[k + 1],
                forall|k: int| i - 1 <= k < MAX_CHILDREN ==> children@[k] as int == parent.child_indexes[k],
            decreases MAX_CHILDREN - i,
        {
            let moved = children[i];
            children.set(i - 1, moved);
            i += 1;
        }
        children.set(MAX_CHILDREN - 1, 0);
        let parent2 = Dir {
            index: p_index,
            name: p_name,
            parent_index: p_parent,
            child_count: p_count - 1,
            child_indexes: children,
        };
        let ghost parent2_m = parent2@;
        self.dirs.dirs.set(cur, parent2);
        proof {
            assert(parent2_m.child_indexes =~= remove_at(parent.child_indexes, id as int));
            assert(parent2_m =~= DirModel {
                child_count: parent.child_count - 1,
                child_indexes: remove_at(parent.child_indexes, id as int),
                ..parent
            });
            assert(self.dirs@.slots =~~= pre.table.slots.update(pre.current_dir, parent2_m));
            assert(final(self)@ =~~= ShellModel {
                table: TableModel {
                    slots: pre.table.slots.update(pre.current_dir, parent2_m),
                    next_dir: pre.table.next_dir,
                },
                ..pre
            });
            assert forall|k: int| 0 <= k < MAX_DIRS implies dir_wf(
                #[trigger] self@.table.slots[k],
                k,
                self@.table.next_dir,
            ) by {
                assert(dir_wf(pre.table.slots[k], k, pre.table.next_dir));
                if k == pre.current_dir {
                    assert(self@.table.slots[k] == parent2_m);
                    assert forall|j: int| 0 <= j < parent2_m.child_count implies k
                        < #[trigger] parent2_m.child_indexes[j] < pre.table.next_dir by {
                        if j < id {
                            assert(parent2_m.child_indexes[j] == parent.child_indexes[j]);
                        } else {
                            assert(parent2_m.child_indexes[j] == parent.child_indexes[j + 1]);
                        }
                    }
                    assert forall|j: int| parent2_m.child_count <= j < MAX_CHILDREN
                        implies #[trigger] parent2_m.child_indexes[j] == 0 by {
                        if id as int <= j < MAX_CHILDREN - 1 {
                            assert(parent2_m.child_indexes[j] == parent.child_indexes[j + 1]);
                        }
                    }
                } else {
                    assert(self@.table.slots[k] == pre.table.slots[k]);
                }
            }
            assert(final(self).wf());
        }
    }

    /// Resets the slot at `id` to the empty sentinel.  The slot's
    /// index is never handed out again: the cursor only grows.
    pub fn remove_dir_by_index(&mut self, id: usize)
        requires
            old(self).wf(),
            id < MAX_DIRS,
        ensures
            final(self).wf(),
            final(self)@ == (ShellModel {
                table: TableModel {
                    slots: old(self)@.table.slots.update(id as int, blank_dir()),
                    next_dir: old(self)@.table.next_dir,
                },
                ..old(self)@
            }),
    {
        let ghost pre = self@;
        let blank = blank_dir_node();
        self.dirs.dirs.set(id, blank);
        proof {
            assert(self.dirs@.slots =~~= pre.table.slots.update(id as int, blank_dir()));
            assert(final(self)@ =~~= ShellModel {
                table: TableModel {
                    slots: pre.table.slots.update(id as int, blank_dir()),
                    next_dir: pre.table.next_dir,
                },
                ..pre
            });
            assert forall|k: int| 0 <= k < MAX_DIRS implies dir_wf(
                #[trigger] self@.table.slots[k],
                k,
                self@.table.next_dir,
            ) by {
                assert(dir_wf(pre.table.slots[k], k, pre.table.next_dir));
                if k == id as int {
                    assert(self@.table.slots[k] == blank_dir());
                } else {
                    assert(self@.table.slots[k] == pre.table.slots[k]);
                }
            }
            assert(final(self).wf());
        }
    }

    /// Removes the named child of the current directory: the entry
    /// leaves the child list and the child's slot is cleared.  The
    /// removal is not recursive — children of the removed directory
    /// keep their slots and become unreachable orphans — and the
    /// cursor does not move back.  Returns the removed index, and the
    /// report line to print.
    pub fn remove_dir_command(&mut self, dir_name: &Vec<u8>) -> (r: (Result<usize, ShellError>, Vec<u8>))
        requires
            old(self).wf(),
            dir_name@.len() == MAX_DIR_NAME,
        ensures
            final(self).wf(),
            final(self)@ == remove_dir_step(old(self)@, dir_name@),
            r.1@ == remove_dir_text(old(self)@, dir_name@),
            match remove_dir_result(old(self)@, dir_name@) {
                Ok(id) => r.0 == Ok::<usize, ShellError>(id as usize),
                Err(e) => r.0 == Err::<usize, ShellError>(e),
            },
    {
        let ghost pre = self@;
        if dir_name[0] == SPACE {
            let mut text: Vec<u8> = Vec::new();
            text.push(NEWLINE);
            let msg = text_msg_name_missing();
            write_array(&msg, &mut text);
            proof {
                assert(text@ =~= seq![NEWLINE] + msg_name_missing());
            }
            return (Err(ShellError::NameMissing), text);
        }
        proof {
            assert(pre.table.slots[pre.current_dir] == self.dirs.dirs@[self.current_dir as int]@);
            assert(dir_wf(pre.table.slots[pre.current_dir], pre.current_dir, pre.table.next_dir));
        }
        let cur = self.current_dir;
        let cur_name = clone_bytes(&self.dirs.dirs[cur].name);
        let id = self.find_childer_dir(&cur_name, dir_name);
        if id == 0 {
            let mut text: Vec<u8> = Vec::new();
            text.push(NEWLINE);
            let msg = text_msg_no_such_dir();
            write_array(&msg, &mut text);
            proof {
                assert(text@ =~= seq![NEWLINE] + msg_no_such_dir());
            }
            return (Err(ShellError::NotFound), text);
        }

        let ghost parent = pre.table.slots[pre.current_dir];
        let cnt = self.dirs.dirs[cur].child_count;
        let mut j: usize = 0;
        let mut pos: usize = 0;
        let mut found = false;
        while j < cnt && !found
            invariant
                self.wf(),
                self@ == pre,
                cur == pre.current_dir,
                parent == pre.table.slots[pre.current_dir],
                cnt == parent.child_count,
                j <= cnt,
                found ==> j < cnt && parent.child_indexes[j as int] == id as int && pos == j,
                forall|k: int| 0 <= k < j ==> #[trigger] parent.child_indexes[k] != id as int,
            decreases cnt - j + (if found { 0int } else { 1int }),
        {
            proof {
                assert(parent == self.dirs.dirs@[cur as int]@);
            }
            if self.dirs.dirs[cur].child_indexes[j] == id {
                pos = j;
                found = true;
            } else {
                j += 1;
            }
        }

        if found {
            proof {
                lemma_child_pos_skip(parent.child_indexes, parent.child_count, id as int, pos as int);
                assert(child_pos(parent.child_indexes, parent.child_count, id as int, 0)
                    == Some(pos as int));
            }
            self.move_child_indexes(pos);
        } else {
            proof {
                lemma_child_pos_skip(parent.child_indexes, parent.child_count, id as int, cnt as int);
                assert(child_pos(parent.child_indexes, parent.child_count, id as int, 0) is None);
                assert(self@.table.slots =~~= pre.table.slots.update(pre.current_dir, parent));
            }
        }
        self.remove_dir_by_index(id);
        proof {
            assert(final(self)@ =~~= remove_dir_post(pre, id as int));
        }

        let mut text: Vec<u8> = Vec::new();
        text.push(NEWLINE);
        let msg = text_msg_removed_prefix();
        write_array(&msg, &mut text);
        write_array(dir_name, &mut text);
        let tail = text_msg_was_removed();
        write_array(&tail, &mut text);
        proof {
            assert(text@ =~= seq![NEWLINE] + msg_removed_prefix() + dir_name@ + msg_was_removed());
        }
        (Ok(id), text)
    }


    /// The occupied child entries of the slot at `id`, in insertion
    /// order.
    pub fn children_of(&self, id: usize) -> (r: Vec<usize>)
        requires
            self.wf(),
            id < MAX_DIRS,
        ensures
            seq_to_ints(r@) == self@.table.slots[id as int].child_indexes.subrange(
                0,
                self@.table.slots[id as int].child_count,
            ),
    {
        let ghost d = self@.table.slots[id as int];
        proof {
            assert(d == self.dirs.dirs@[id as int]@);
            assert(dir_wf(d, id as int, self@.table.next_dir));
        }
        let cnt = self.dirs.dirs[id].child_count;
        let mut r: Vec<usize> = Vec::new();
        proof {
            assert(seq_to_ints(r@) =~= d.child_indexes.subrange(0, 0));
        }
        let mut n: usize = 0;
        while n < cnt
            invariant
                self.wf(),
                d == self@.table.slots[id as int],
                id < MAX_DIRS,
                cnt == d.child_count,
                n <= cnt,
                r@.len() == n,
                seq_to_ints(r@) == d.child_indexes.subrange(0, n as int),
            decreases cnt - n,
        {
            proof {
                assert(d == self.dirs.dirs@[id as int]@);
            }
            let c = self.dirs.dirs[id].child_indexes[n];
            let ghost rpre = r@;
            r.push(c);
            proof {
                assert(c as int == d.child_indexes[n as int]);
                assert forall|k: int| 0 <= k <= n implies seq_to_ints(r@)[k] == d.child_indexes
                    .subrange(0, n as int + 1)[k] by {
                    if k < n {
                        assert(r@[k] == rpre[k]);
                        assert(seq_to_ints(rpre)[k] == d.child_indexes.subrange(0, n as int)[k]);
                    } else {
                        assert(r@[k] == c);
                    }
                }
                assert(seq_to_ints(r@) =~= d.child_indexes.subrange(0, n as int + 1));
            }
            n += 1;
        }
        r
    }

    /// Appends the listing of the subtree rooted at slot `id` to
    /// `out`: the directory's own line, indented four spaces per
    /// level, then each child's subtree one level deeper, in list
    /// order.  Depth is bounded because a child's index always
    /// exceeds its parent's.
    pub fn unwrap_dir(&self, id: usize, level: u8, out: &mut Vec<u8>)
        requires
            self.wf(),
            id < MAX_DIRS,
            level as int + MAX_DIRS - id as int <= 256,
        ensures
            final(out)@ == old(out)@ + tree_text(self.dirs@, id as int, level as int),
        decreases MAX_DIRS - id,
    {
        let ghost t = self.dirs@;
        let mut i: u8 = 0;
        while i < level
            invariant
                i <= level,
                out@ == old(out)@ + indent(i as int),
            decreases level - i,
        {
            out.push(SPACE);
            out.push(SPACE);
            out.push(SPACE);
            out.push(SPACE);
            proof {
                assert(out@ =~= old(out)@ + indent((i + 1) as int));
            }
            i += 1;
        }
        proof {
            assert(t.slots[id as int] == self.dirs.dirs@[id as int]@);
            assert(dir_wf(t.slots[id as int], id as int, t.next_dir));
        }
        out.push(SLASH);
        write_array(&self.dirs.dirs[id].name, out);
        out.push(NEWLINE);
        let ghost base = out@;
        proof {
            assert(base =~= old(out)@ + indent(level as int) + seq![SLASH] + t.slots[id as int].name
                + seq![NEWLINE]);
        }
        let cnt = self.dirs.dirs[id].child_count;
        let mut n: usize = 0;
        while n < cnt
            invariant
                self.wf(),
                t == self.dirs@,
                id < MAX_DIRS,
                level as int + MAX_DIRS - id as int <= 256,
                cnt == t.slots[id as int].child_count,
                n <= cnt,
                out@ + tree_children(t, id as int, n as int, level as int) == base
                    + tree_children(t, id as int, 0, level as int),
            decreases cnt - n,
        {
            proof {
                assert(t.slots[id as int] == self.dirs.dirs@[id as int]@);
                assert(dir_wf(t.slots[id as int], id as int, t.next_dir));
                assert((id as int) < t.slots[id as int].child_indexes[n as int] < t.next_dir);
            }
            let c = self.dirs.dirs[id].child_indexes[n];
            let ghost before = out@;
            self.unwrap_dir(c, level + 1, out);
            proof {
                assert(tree_children(t, id as int, n as int, level as int) == tree_text(
                    t,
                    c as int,
                    (level + 1) as int,
                ) + tree_children(t, id as int, n as int + 1, level as int));
                assert(out@ + tree_children(t, id as int, n as int + 1, level as int) =~= before
                    + tree_children(t, id as int, n as int, level as int));
            }
            n += 1;
        }
        proof {
            assert(tree_children(t, id as int, cnt as int, level as int) =~= Seq::<u8>::empty());
            assert(out@ =~= out@ + tree_children(t, id as int, cnt as int, level as int));
            assert(base + tree_children(t, id as int, 0, level as int) =~= old(out)@ + tree_text(
                t,
                id as int,
                level as int,
            ));
        }
    }

    /// The full listing of the subtree rooted at the current
    /// directory.
    pub fn dir_tree_command(&self) -> (r: Vec<u8>)
        requires
            self.wf(),
        ensures
            r@ == tree_text(self.dirs@, self@.current_dir, 0),
    {
        let mut out: Vec<u8> = Vec::new();
        self.unwrap_dir(self.current_dir, 0, &mut out);
        out
    }

    /// The report for an unrecognised command: the token's bytes up
    /// to its first padding space, quoted.
    pub fn not_supported_command(command: &Vec<u8>) -> (r: Vec<u8>)
        requires
            command@.len() == MAX_DIR_NAME,
        ensures
            r@ == not_supported_text(command@),
    {
        let mut out = text_msg_not_supported_open();
        let mut i: usize = 0;
        while i < MAX_DIR_NAME && command[i] != SPACE
            invariant
                i <= MAX_DIR_NAME,
                command@.len() == MAX_DIR_NAME,
                forall|k: int| 0 <= k < i ==> #[trigger] command@[k] != SPACE,
                out@ == msg_not_supported_open() + command@.subrange(0, i as int),
            decreases MAX_DIR_NAME - i,
        {
            out.push(command[i]);
            proof {
                assert(out@ =~= msg_not_supported_open() + command@.subrange(0, (i + 1) as int));
            }
            i += 1;
        }
        proof {
            lemma_token_end_at(command@, 0, i as int, MAX_DIR_NAME as int);
        }
        let close = text_msg_not_supported_close();
        write_array(&close, &mut out);
        out
    }

    /// Matches a parsed line against the fixed command vocabulary and
    /// runs the operation.  Every branch answers with one report line
    /// after a leading line break, except `clear`, which only asks the
    /// screen to wipe itself.  Returns the screen output and the
    /// failure the command reported, if any.
    pub fn execute_command(&mut self, command: &Vec<u8>, argument: &Vec<u8>) -> (r: (
        CommandOutput,
        Option<ShellError>,
    ))
        requires
            old(self).wf(),
            command@.len() == MAX_DIR_NAME,
            argument@.len() == MAX_DIR_NAME,
        ensures
            final(self).wf(),
            final(self)@ == dispatch(old(self)@, command@, argument@).state,
            r.0.text@ == dispatch(old(self)@, command@, argument@).text,
            r.0.clear_screen == dispatch(old(self)@, command@, argument@).clear_screen,
            r.1 == dispatch(old(self)@, command@, argument@).err,
    {
        let mut text: Vec<u8> = Vec::new();
        text.push(NEWLINE);

        let w_cur = text_word_cur_dir();
        if compare_strings(&w_cur, command) {
            let body = self.current_dir_command();
            write_array(&body, &mut text);
            proof {
                assert(text@ =~= dispatch(old(self)@, command@, argument@).text);
            }
            return (CommandOutput { text, clear_screen: false }, None);
        }
        let w_make = text_word_make_dir();
        if compare_strings(&w_make, command) {
            let (res, msg) = self.make_dir_command(argument);
            write_array(&msg, &mut text);
            let err = match res {
                Ok(id) => None,
                Err(e) => Some(e),
            };
            proof {
                assert(text@ =~= dispatch(old(self)@, command@, argument@).text);
            }
            return (CommandOutput { text, clear_screen: false }, err);
        }
        let w_change = text_word_change_dir();
        if compare_strings(&w_change, command) {
            let (res, msg) = self.change_dir_command(argument);
            write_array(&msg, &mut text);
            let err = match res {
                Ok(id) => None,
                Err(e) => Some(e),
            };
            proof {
                assert(text@ =~= dispatch(old(self)@, command@, argument@).text);
            }
            return (CommandOutput { text, clear_screen: false }, err);
        }
        let w_remove = text_word_remove_dir();
        if compare_strings(&w_remove, command) {
            let (res, msg) = self.remove_dir_command(argument);
            write_array(&msg, &mut text);
            let err = match res {
                Ok(id) => None,
                Err(e) => Some(e),
            };
            proof {
                assert(text@ =~= dispatch(old(self)@, command@, argument@).text);
            }
            return (CommandOutput { text, clear_screen: false }, err);
        }
        let w_tree = text_word_dir_tree();
        if compare_strings(&w_tree, command) {
            let body = self.dir_tree_command();
            write_array(&body, &mut text);
            proof {
                assert(text@ =~= dispatch(old(self)@, command@, argument@).text);
            }
            return (CommandOutput { text, clear_screen: false }, None);
        }
        let w_clear = text_word_clear();
        if compare_strings(&w_clear, command) {
            return (
                (CommandOutput { text: Vec::new(), clear_screen: true }),
                None,
            );
        }
        let body = Self::not_supported_command(command);
        write_array(&body, &mut text);
        proof {
            assert(text@ =~= dispatch(old(self)@, command@, argument@).text);
        }
        (
            (CommandOutput { text, clear_screen: false }),
            Some(ShellError::UnsupportedCommand),
        )
    }

    /// Takes one decoded key.  A newline parses and dispatches the
    /// gathered line, empties the buffer, and echoes the line break
    /// after the command's report; a line whose command token is blank
    /// or too wide is dropped without a word.  Any other byte is
    /// stored and echoed while the buffer has room, and dropped once
    /// it is full.
    pub fn on_key_pressed(&mut self, key: u8) -> (out: CommandOutput)
        requires
            old(self).wf(),
        ensures
            final(self).wf(),
            final(self)@ == key_outcome(old(self)@, key).state,
            out.text@ == key_outcome(old(self)@, key).text,
            out.clear_screen == key_outcome(old(self)@, key).clear_screen,
    {
        let ghost pre = self@;
        if key == NEWLINE {
            let parsed = parse_input(&self.buf, self.buf_len);
            match parsed {
                Ok(tokens) => {
                    let (cmd, arg) = tokens;
                    if cmd[0] != SPACE {
                        let (mut co, err) = self.execute_command(&cmd, &arg);
                        self.buf = repeat_bytes(0, BUF_CAP);
                        self.buf_len = 0;
                        co.text.push(NEWLINE);
                        proof {
                            assert(final(self)@ =~~= key_outcome(pre, key).state);
                            assert(co.text@ =~= key_outcome(pre, key).text);
                        }
                        co
                    } else {
                        self.buf = repeat_bytes(0, BUF_CAP);
                        self.buf_len = 0;
                        let mut t: Vec<u8> = Vec::new();
                        t.push(NEWLINE);
                        proof {
                            assert(final(self)@ =~~= key_outcome(pre, key).state);
                            assert(t@ =~= key_outcome(pre, key).text);
                        }
                        CommandOutput { text: t, clear_screen: false }
                    }
                },
                Err(e) => {
                    self.buf = repeat_bytes(0, BUF_CAP);
                    self.buf_len = 0;
                    let mut t: Vec<u8> = Vec::new();
                    t.push(NEWLINE);
                    proof {
                        assert(final(self)@ =~~= key_outcome(pre, key).state);
                        assert(t@ =~= key_outcome(pre, key).text);
                    }
                    CommandOutput { text: t, clear_screen: false }
                },
            }
        } else if self.buf_len < BUF_CAP {
            let at = self.buf_len;
            self.buf.set(at, key);
            self.buf_len = at + 1;
            let mut t: Vec<u8> = Vec::new();
            t.push(key);
            proof {
                assert(final(self)@ =~~= key_outcome(pre, key).state);
                assert(t@ =~= key_outcome(pre, key).text);
            }
            CommandOutput { text: t, clear_screen: false }
        } else {
            CommandOutput { text: Vec::new(), clear_screen: false }
        }
    }
}

/// Splits a finished input line at its first spaces into a command
/// token and an argument token, each padded to the fixed ten-byte
/// width.  A token wider than ten bytes fails the whole line, which
/// then counts as blank: the interpreter dispatches nothing and
/// prints nothing.  Anything after the argument token is ignored.
pub fn parse_input(buf: &Vec<u8>, buf_len: usize) -> (r: Result<(Vec<u8>, Vec<u8>), ShellError>)
    requires
        buf@.len() == BUF_CAP,
        buf_len <= BUF_CAP,
    ensures
        match parse_result(buf@, buf_len as int) {
            Ok(tokens) => r matches Ok(v) && v.0@ == tokens.0 && v.1@ == tokens.1,
            Err(e) => r == Err::<(Vec<u8>, Vec<u8>), ShellError>(e),
        },
{
    let ghost len = buf_len as int;
    let mut command = repeat_bytes(SPACE, MAX_DIR_NAME);
    let mut argument = repeat_bytes(SPACE, MAX_DIR_NAME);
    proof {
        assert(argument@ =~= pad10(Seq::<u8>::empty()));
    }

    let mut i: usize = 0;
    while i < buf_len && buf[i] != SPACE
        invariant
            buf@.len() == BUF_CAP,
            buf_len <= BUF_CAP,
            len == buf_len as int,
            i <= buf_len,
            i <= MAX_DIR_NAME,
            command@.len() == MAX_DIR_NAME,
            forall|k: int| 0 <= k < i ==> #[trigger] buf@[k] != SPACE,
            command@ == pad10(buf@.subrange(0, i as int)),
            argument@ == pad10(Seq::<u8>::empty()),
        decreases buf_len - i,
    {
        if i >= MAX_DIR_NAME {
            proof {
                lemma_token_end_skip(buf@, 0, i as int, len);
                lemma_token_end_bounds(buf@, i as int + 1, len);
                assert(token_end(buf@, i as int, len) == token_end(buf@, i as int + 1, len));
                assert(token_end(buf@, 0, len) > MAX_DIR_NAME);
            }
            return Err(ShellError::CommandTooLong);
        }
        command.set(i, buf[i]);
        proof {
            assert(command@ =~= pad10(buf@.subrange(0, (i + 1) as int)));
        }
        i += 1;
    }
    proof {
        lemma_token_end_at(buf@, 0, i as int, len);
    }
    let ghost ce = i as int;

    i += 1;
    let mut j: usize = 0;
    while i < buf_len && buf[i] != SPACE
        invariant
            buf@.len() == BUF_CAP,
            buf_len <= BUF_CAP,
            len == buf_len as int,
            ce == token_end(buf@, 0, len),
            0 <= ce <= MAX_DIR_NAME,
            command@ == pad10(buf@.subrange(0, ce)),
            i == ce + 1 + j,
            j <= MAX_DIR_NAME,
            j > 0 ==> i <= buf_len,
            argument@.len() == MAX_DIR_NAME,
            forall|k: int| ce + 1 <= k < i ==> #[trigger] buf@[k] != SPACE,
            j == 0 ==> argument@ == pad10(Seq::<u8>::empty()),
            j > 0 ==> argument@ == pad10(buf@.subrange(ce + 1, i as int)),
        decreases buf_len - i,
    {
        if j >= MAX_DIR_NAME {
            proof {
                lemma_token_end_skip(buf@, ce + 1, i as int, len);
                lemma_token_end_bounds(buf@, i as int + 1, len);
                assert(token_end(buf@, i as int, len) == token_end(buf@, i as int + 1, len));
                assert(token_end(buf@, ce + 1, len) - (ce + 1) > MAX_DIR_NAME);
            }
            return Err(ShellError::ArgumentTooLong);
        }
        argument.set(j, buf[i]);
        proof {
            assert(argument@ =~= pad10(buf@.subrange(ce + 1, (i + 1) as int)));
        }
        i += 1;
        j += 1;
    }
    proof {
        if ce + 1 <= len {
            lemma_token_end_at(buf@, ce + 1, i as int, len);
            assert(token_end(buf@, ce + 1, len) == i as int);
            if j == 0 {
                assert(i as int == ce + 1);
                assert(buf@.subrange(ce + 1, i as int) =~= Seq::<u8>::empty());
            }
        } else {
            assert(token_end(buf@, ce + 1, len) == ce + 1);
        }
        assert(parse_result(buf@, len) matches Ok(tokens) && tokens.0 == command@ && tokens.1
            == argument@);
    }
    Ok((command, argument))
}

} // verus!
