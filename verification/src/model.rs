//! Mathematical model of the directory shell.
//!
//! The executable types in `shell` each have a view into the structures
//! defined here; every operation of the interpreter is specified as a
//! function over these models.

use vstd::prelude::*;

verus! {

/// Number of slots in the directory table.
pub const MAX_DIRS: usize = 100;

/// Capacity of a directory's child list.
pub const MAX_CHILDREN: usize = 10;

/// Fixed width of a directory name, space padded.
pub const MAX_DIR_NAME: usize = 10;

/// Capacity of the input line buffer.
pub const BUF_CAP: usize = 80;

/// The space byte, used as padding and as the token separator.
pub const SPACE: u8 = 32;

/// The `.` byte, the parent-directory argument of `change_dir`.
pub const DOT: u8 = 46;

/// The newline byte, which ends an input line.
pub const NEWLINE: u8 = 10;

/// The `/` byte, printed before each directory name.
pub const SLASH: u8 = 47;

/// Every way a command can fail.  Each operation reports its failures
/// through this closed enumeration; the interpreter turns them into a
/// single output line.
#[derive(Clone, Copy, Debug, PartialEq, Eq, Structural)]
pub enum ShellError {
    /// A required name argument was blank.
    NameMissing,
    /// A sibling with the requested name already exists.
    NameCollision,
    /// No child of the current directory has the requested name.
    NotFound,
    /// `change_dir .` was issued while in the root directory.
    AlreadyAtRoot,
    /// The node table or the parent's child list is full.
    CapacityExceeded,
    /// The command token of an input line is wider than ten bytes.
    CommandTooLong,
    /// The argument token of an input line is wider than ten bytes.
    ArgumentTooLong,
    /// The command token matches no known command.
    UnsupportedCommand,
}

/// Model of one directory slot.
#[verifier::ext_equal]
pub struct DirModel {
    /// The slot's own index; zero in a slot that was never filled or
    /// was cleared by removal.
    pub index: int,
    /// The name, always ten bytes, space padded on the right.
    pub name: Seq<u8>,
    /// Index of the owning directory; the root points at itself.
    pub parent_index: int,
    /// Number of occupied entries at the front of `child_indexes`.
    pub child_count: int,
    /// The child list, always ten entries; only the first
    /// `child_count` are meaningful and the rest are zero.
    pub child_indexes: Seq<int>,
}

/// Model of the directory table: the slots and the allocation cursor.
#[verifier::ext_equal]
pub struct TableModel {
    pub slots: Seq<DirModel>,
    /// Next slot to allocate; grows monotonically and is never reused.
    pub next_dir: int,
}

/// Model of the whole interpreter state.
#[verifier::ext_equal]
pub struct ShellModel {
    /// The input line gathered so far, always `BUF_CAP` bytes.
    pub buf: Seq<u8>,
    /// How many bytes of `buf` are filled.
    pub buf_len: int,
    pub table: TableModel,
    /// Index of the current directory.
    pub current_dir: int,
}

/// A blank, space filled name.
pub open spec fn blank_name() -> Seq<u8> {
    Seq::new(MAX_DIR_NAME as nat, |i: int| SPACE)
}

/// `s` padded on the right with spaces to the fixed name width.
pub open spec fn pad10(s: Seq<u8>) -> Seq<u8> {
    Seq::new(MAX_DIR_NAME as nat, |i: int| if i < s.len() { s[i] } else { SPACE })
}

/// The model of a slot that holds no directory.
pub open spec fn blank_dir() -> DirModel {
    DirModel {
        index: 0,
        name: blank_name(),
        parent_index: 0,
        child_count: 0,
        child_indexes: Seq::new(MAX_CHILDREN as nat, |j: int| 0int),
    }
}

/// The model of the root directory.
pub open spec fn root_dir() -> DirModel {
    DirModel {
        index: 0,
        name: root_name_text(),
        parent_index: 0,
        child_count: 0,
        child_indexes: Seq::new(MAX_CHILDREN as nat, |j: int| 0int),
    }
}

/// The interpreter state right after start-up: an empty buffer, the
/// root in slot zero, the cursor at slot one, the root current.
pub open spec fn init_shell() -> ShellModel {
    ShellModel {
        buf: Seq::new(BUF_CAP as nat, |i: int| 0u8),
        buf_len: 0,
        table: TableModel {
            slots: Seq::new(MAX_DIRS as nat, |i: int| blank_dir()).update(0, root_dir()),
            next_dir: 1,
        },
        current_dir: 0,
    }
}

/// Well-formedness of the slot at position `pos` in a table whose
/// cursor is `next`.
pub open spec fn dir_wf(d: DirModel, pos: int, next: int) -> bool {
    &&& d.name.len() == MAX_DIR_NAME
    &&& d.child_indexes.len() == MAX_CHILDREN
    &&& 0 <= d.child_count <= MAX_CHILDREN
    &&& 0 <= d.parent_index < next
    &&& d.index == pos || d.index == 0
    &&& forall|j: int| 0 <= j < d.child_count ==> pos < #[trigger] d.child_indexes[j] < next
    &&& forall|j: int| d.child_count <= j < MAX_CHILDREN ==> #[trigger] d.child_indexes[j] == 0
}

/// Well-formedness of the directory table.  Children always carry a
/// larger index than their parent, because slots are allocated in
/// rising order and a child is always created after its parent.
pub open spec fn table_wf(t: TableModel) -> bool {
    &&& t.slots.len() == MAX_DIRS
    &&& 1 <= t.next_dir <= MAX_DIRS
    &&& forall|i: int| 0 <= i < MAX_DIRS ==> dir_wf(#[trigger] t.slots[i], i, t.next_dir)
}

/// Well-formedness of the whole interpreter state.
pub open spec fn shell_wf(s: ShellModel) -> bool {
    &&& table_wf(s.table)
    &&& 0 <= s.current_dir < s.table.next_dir
    &&& s.buf.len() == BUF_CAP
    &&& 0 <= s.buf_len <= BUF_CAP
}

/// Index of the first slot in `slots[i .. bound]` whose name is
/// `name`, if any.  This is the parent lookup of `find_childer_dir`:
/// a linear scan that stops one short of the allocation cursor.
pub open spec fn first_named(slots: Seq<DirModel>, name: Seq<u8>, i: int, bound: int) -> Option<int>
    decreases bound - i,
{
    if i >= bound {
        None
    } else if slots[i].name == name {
        Some(i)
    } else {
        first_named(slots, name, i + 1, bound)
    }
}

/// The first entry among `d`'s occupied child entries, from position
/// `j` on, that names a slot called `name`; zero when there is none.
pub open spec fn first_child_named(t: TableModel, d: DirModel, name: Seq<u8>, j: int) -> int
    decreases d.child_count - j,
{
    if j < 0 || j >= d.child_count {
        0
    } else if 0 <= d.child_indexes[j] < MAX_DIRS && t.slots[d.child_indexes[j]].name == name {
        d.child_indexes[j]
    } else {
        first_child_named(t, d, name, j + 1)
    }
}

/// What `find_childer_dir` returns: the index of the first child
/// called `child_name` under the first slot called `parent_name`, and
/// zero when either lookup fails.  Zero doubles as the root's index;
/// callers treat it as "not found", which is why the root can never be
/// the result of a successful lookup.
pub open spec fn spec_find_child(t: TableModel, parent_name: Seq<u8>, child_name: Seq<u8>) -> int {
    match first_named(t.slots, parent_name, 0, t.next_dir - 1) {
        Some(p) => first_child_named(t, t.slots[p], child_name, 0),
        None => 0,
    }
}

/// How `make_dir` fails on state `s` and (padded) name `name`, if it
/// fails.  The checks happen in this order: blank name, duplicate
/// sibling, exhausted table or child list.
pub open spec fn make_dir_err(s: ShellModel, name: Seq<u8>) -> Option<ShellError> {
    if name[0] == SPACE {
        Some(ShellError::NameMissing)
    } else if spec_find_child(s.table, s.table.slots[s.current_dir].name, name) != 0 {
        Some(ShellError::NameCollision)
    } else if s.table.next_dir >= MAX_DIRS || s.table.slots[s.current_dir].child_count >= MAX_CHILDREN {
        Some(ShellError::CapacityExceeded)
    } else {
        None
    }
}

/// The state after a successful `make_dir`: the new directory fills
/// the cursor slot, the current directory gains it as its last child,
/// and the cursor moves on by one.
pub open spec fn make_dir_post(s: ShellModel, name: Seq<u8>) -> ShellModel {
    let cur = s.current_dir;
    let parent = s.table.slots[cur];
    let id = s.table.next_dir;
    let child = DirModel {
        index: id,
        name: name,
        parent_index: cur,
        child_count: 0,
        child_indexes: Seq::new(MAX_CHILDREN as nat, |j: int| 0int),
    };
    let parent2 = DirModel {
        child_count: parent.child_count + 1,
        child_indexes: parent.child_indexes.update(parent.child_count, id),
        ..parent
    };
    ShellModel {
        table: TableModel {
            slots: s.table.slots.update(id, child).update(cur, parent2),
            next_dir: id + 1,
        },
        ..s
    }
}

/// The state reached by `make_dir`, whether or not it succeeds.
pub open spec fn make_dir_step(s: ShellModel, name: Seq<u8>) -> ShellModel {
    if make_dir_err(s, name) is None {
        make_dir_post(s, name)
    } else {
        s
    }
}

/// What `change_dir` answers: the index of the new current directory,
/// or the failure.  A name that starts with `.` asks for the parent.
pub open spec fn change_dir_result(s: ShellModel, name: Seq<u8>) -> Result<int, ShellError> {
    if name[0] == SPACE {
        Err(ShellError::NameMissing)
    } else if name[0] == DOT {
        if s.current_dir == 0 {
            Err(ShellError::AlreadyAtRoot)
        } else {
            Ok(s.table.slots[s.current_dir].parent_index)
        }
    } else {
        let id = spec_find_child(s.table, s.table.slots[s.current_dir].name, name);
        if id == 0 {
            Err(ShellError::NotFound)
        } else {
            Ok(id)
        }
    }
}

/// The state reached by `change_dir`: only the cursor moves, and only
/// on success.
pub open spec fn change_dir_step(s: ShellModel, name: Seq<u8>) -> ShellModel {
    match change_dir_result(s, name) {
        Ok(id) => ShellModel { current_dir: id, ..s },
        Err(e) => s,
    }
}

/// What `remove_dir` answers: the index of the removed child, or the
/// failure.
pub open spec fn remove_dir_result(s: ShellModel, name: Seq<u8>) -> Result<int, ShellError> {
    if name[0] == SPACE {
        Err(ShellError::NameMissing)
    } else {
        let id = spec_find_child(s.table, s.table.slots[s.current_dir].name, name);
        if id == 0 {
            Err(ShellError::NotFound)
        } else {
            Ok(id)
        }
    }
}

/// Position of the first occupied entry of `children` that equals
/// `id`, if any, searching from position `j` on.
pub open spec fn child_pos(children: Seq<int>, count: int, id: int, j: int) -> Option<int>
    decreases count - j,
{
    if j < 0 || j >= count {
        None
    } else if children[j] == id {
        Some(j)
    } else {
        child_pos(children, count, id, j + 1)
    }
}

/// `children` with the entry at position `p` removed: later entries
/// move left one place and the freed last place becomes zero.
pub open spec fn remove_at(children: Seq<int>, p: int) -> Seq<int> {
    Seq::new(MAX_CHILDREN as nat, |j: int|
        if j < p {
            children[j]
        } else if j < MAX_CHILDREN - 1 {
            children[j + 1]
        } else {
            0int
        })
}

/// The state after `remove_dir` detaches child `id`: the entry leaves
/// the current directory's child list (when it is there at all, which
/// name aliasing can prevent), and slot `id` is cleared.  Children of
/// the removed directory keep their slots and become unreachable; the
/// cursor does not move back.
pub open spec fn remove_dir_post(s: ShellModel, id: int) -> ShellModel {
    let cur = s.current_dir;
    let parent = s.table.slots[cur];
    let parent2 = match child_pos(parent.child_indexes, parent.child_count, id, 0) {
        Some(p) => DirModel {
            child_count: parent.child_count - 1,
            child_indexes: remove_at(parent.child_indexes, p),
            ..parent
        },
        None => parent,
    };
    ShellModel {
        table: TableModel {
            slots: s.table.slots.update(cur, parent2).update(id, blank_dir()),
            next_dir: s.table.next_dir,
        },
        ..s
    }
}

/// The state reached by `remove_dir`, whether or not it succeeds.
pub open spec fn remove_dir_step(s: ShellModel, name: Seq<u8>) -> ShellModel {
    match remove_dir_result(s, name) {
        Ok(id) => remove_dir_post(s, id),
        Err(e) => s,
    }
}

/// Four spaces of indentation for each level of depth.
pub open spec fn indent(level: int) -> Seq<u8> {
    Seq::new(if level >= 0 { (4 * level) as nat } else { 0nat }, |i: int| SPACE)
}

/// The text `dir_tree` prints for the subtree rooted at slot `id`:
/// the directory's own line, then each child's subtree in list order,
/// one level deeper.
pub open spec fn tree_text(t: TableModel, id: int, level: int) -> Seq<u8>
    decreases 100 - id, 11int,
{
    indent(level) + seq![SLASH] + t.slots[id].name + seq![NEWLINE] + tree_children(t, id, 0, level)
}

/// The concatenated subtrees of the children of slot `id`, from child
/// position `j` on.
pub open spec fn tree_children(t: TableModel, id: int, j: int, level: int) -> Seq<u8>
    decreases 100 - id, 10 - j,
{
    if j < 0 || j >= t.slots[id].child_count || j >= MAX_CHILDREN {
        Seq::empty()
    } else {
        let c = t.slots[id].child_indexes[j];
        if id < c < 100 {
            tree_text(t, c, level + 1) + tree_children(t, id, j + 1, level)
        } else {
            tree_children(t, id, j + 1, level)
        }
    }
}

/// Where the token that starts at `from` ends: the position of the
/// next space, or `len` when none follows.
pub open spec fn token_end(buf: Seq<u8>, from: int, len: int) -> int
    decreases len - from,
{
    if from >= len {
        from
    } else if buf[from] == SPACE {
        from
    } else {
        token_end(buf, from + 1, len)
    }
}

/// What parsing an input line yields: the command and argument tokens,
/// both padded to the fixed width, or the failure when either token is
/// wider than that.  On failure the whole line counts as blank and the
/// interpreter stays silent.
pub open spec fn parse_result(buf: Seq<u8>, len: int) -> Result<(Seq<u8>, Seq<u8>), ShellError> {
    let ce = token_end(buf, 0, len);
    if ce > MAX_DIR_NAME {
        Err(ShellError::CommandTooLong)
    } else {
        let arg_start = ce + 1;
        let ae = token_end(buf, arg_start, len);
        if ae - arg_start > MAX_DIR_NAME {
            Err(ShellError::ArgumentTooLong)
        } else {
            let arg_src = if arg_start >= len { Seq::<u8>::empty() } else { buf.subrange(arg_start, ae) };
            Ok((pad10(buf.subrange(0, ce)), pad10(arg_src)))
        }
    }
}

/// The text of the "not supported" report: the command token up to its
/// first padding space, quoted.
pub open spec fn not_supported_text(command: Seq<u8>) -> Seq<u8> {
    msg_not_supported_open() + command.subrange(0, token_end(command, 0, MAX_DIR_NAME as int)) + msg_not_supported_close()
}

/// The report `make_dir` prints, one line per call.
pub open spec fn make_dir_text(s: ShellModel, name: Seq<u8>) -> Seq<u8> {
    match make_dir_err(s, name) {
        Some(ShellError::NameMissing) => msg_name_missing(),
        Some(ShellError::NameCollision) => msg_already_exists(),
        Some(e) => msg_no_space(),
        None => msg_folder_prefix() + name + msg_is_created(),
    }
}

/// The report `change_dir` prints.
pub open spec fn change_dir_text(s: ShellModel, name: Seq<u8>) -> Seq<u8> {
    match change_dir_result(s, name) {
        Ok(id) => msg_dir_changed(),
        Err(ShellError::NameMissing) => msg_name_missing(),
        Err(ShellError::AlreadyAtRoot) => msg_already_root(),
        Err(e) => msg_no_such_dir(),
    }
}

/// The report `remove_dir` prints; it carries one extra leading line
/// break.
pub open spec fn remove_dir_text(s: ShellModel, name: Seq<u8>) -> Seq<u8> {
    match remove_dir_result(s, name) {
        Ok(id) => seq![NEWLINE] + msg_removed_prefix() + name + msg_was_removed(),
        Err(ShellError::NameMissing) => seq![NEWLINE] + msg_name_missing(),
        Err(e) => seq![NEWLINE] + msg_no_such_dir(),
    }
}

/// One dispatched command: the state it leads to, the text it prints,
/// whether it clears the screen, and the failure it reports, if any.
#[verifier::ext_equal]
pub struct DispatchOutcome {
    pub state: ShellModel,
    pub text: Seq<u8>,
    pub clear_screen: bool,
    pub err: Option<ShellError>,
}

/// What dispatching one parsed line does.  The command token is
/// matched exactly against the fixed vocabulary; every branch prints
/// one report line after a leading line break, except `clear`, which
/// only wipes the screen.
pub open spec fn dispatch(s: ShellModel, command: Seq<u8>, argument: Seq<u8>) -> DispatchOutcome {
    if command == pad10(word_cur_dir()) {
        DispatchOutcome {
            state: s,
            text: seq![NEWLINE] + seq![SLASH] + s.table.slots[s.current_dir].name,
            clear_screen: false,
            err: None,
        }
    } else if command == pad10(word_make_dir()) {
        DispatchOutcome {
            state: make_dir_step(s, argument),
            text: seq![NEWLINE] + make_dir_text(s, argument),
            clear_screen: false,
            err: make_dir_err(s, argument),
        }
    } else if command == pad10(word_change_dir()) {
        DispatchOutcome {
            state: change_dir_step(s, argument),
            text: seq![NEWLINE] + change_dir_text(s, argument),
            clear_screen: false,
            err: match change_dir_result(s, argument) { Ok(id) => None, Err(e) => Some(e) },
        }
    } else if command == pad10(word_remove_dir()) {
        DispatchOutcome {
            state: remove_dir_step(s, argument),
            text: seq![NEWLINE] + remove_dir_text(s, argument),
            clear_screen: false,
            err: match remove_dir_result(s, argument) { Ok(id) => None, Err(e) => Some(e) },
        }
    } else if command == pad10(word_dir_tree()) {
        DispatchOutcome {
            state: s,
            text: seq![NEWLINE] + tree_text(s.table, s.current_dir, 0),
            clear_screen: false,
            err: None,
        }
    } else if command == pad10(word_clear()) {
        DispatchOutcome { state: s, text: Seq::empty(), clear_screen: true, err: None }
    } else {
        DispatchOutcome {
            state: s,
            text: seq![NEWLINE] + not_supported_text(command),
            clear_screen: false,
            err: Some(ShellError::UnsupportedCommand),
        }
    }
}

/// `s` with its line buffer emptied, ready for the next line.
pub open spec fn with_cleared_buf(s: ShellModel) -> ShellModel {
    ShellModel { buf: Seq::new(BUF_CAP as nat, |i: int| 0u8), buf_len: 0, ..s }
}

/// What one key does.  A newline parses and dispatches the gathered
/// line, then empties the buffer and echoes the line break; a line
/// that parses blank, or fails to parse, is dropped without a word.
/// Any other byte is stored and echoed while the buffer has room, and
/// is dropped once it is full.
pub open spec fn key_outcome(s: ShellModel, key: u8) -> DispatchOutcome {
    if key == NEWLINE {
        match parse_result(s.buf, s.buf_len) {
            Ok(tokens) => {
                if tokens.0[0] != SPACE {
                    let d = dispatch(s, tokens.0, tokens.1);
                    DispatchOutcome {
                        state: with_cleared_buf(d.state),
                        text: d.text + seq![NEWLINE],
                        clear_screen: d.clear_screen,
                        err: d.err,
                    }
                } else {
                    DispatchOutcome {
                        state: with_cleared_buf(s),
                        text: seq![NEWLINE],
                        clear_screen: false,
                        err: None,
                    }
                }
            },
            Err(e) => DispatchOutcome {
                state: with_cleared_buf(s),
                text: seq![NEWLINE],
                clear_screen: false,
                err: Some(e),
            },
        }
    } else if s.buf_len < BUF_CAP {
        DispatchOutcome {
            state: ShellModel { buf: s.buf.update(s.buf_len, key), buf_len: s.buf_len + 1, ..s },
            text: seq![key],
            clear_screen: false,
            err: None,
        }
    } else {
        DispatchOutcome { state: s, text: Seq::empty(), clear_screen: false, err: None }
    }
}

/// The byte sequence of `cur_dir`.
pub open spec fn word_cur_dir() -> Seq<u8> {
    seq!['c' as u8, 'u' as u8, 'r' as u8, '_' as u8, 'd' as u8, 'i' as u8, 'r' as u8]
}

/// The byte sequence of `make_dir`.
pub open spec fn word_make_dir() -> Seq<u8> {
    seq!['m' as u8, 'a' as u8, 'k' as u8, 'e' as u8, '_' as u8, 'd' as u8, 'i' as u8, 'r' as u8]
}

/// The byte sequence of `change_dir`.
pub open spec fn word_change_dir() -> Seq<u8> {
    seq!['c' as u8, 'h' as u8, 'a' as u8, 'n' as u8, 'g' as u8, 'e' as u8, '_' as u8, 'd' as u8, 'i' as u8, 'r' as u8]
}

/// The byte sequence of `remove_dir`.
pub open spec fn word_remove_dir() -> Seq<u8> {
    seq!['r' as u8, 'e' as u8, 'm' as u8, 'o' as u8, 'v' as u8, 'e' as u8, '_' as u8, 'd' as u8, 'i' as u8, 'r' as u8]
}

/// The byte sequence of `dir_tree`.
pub open spec fn word_dir_tree() -> Seq<u8> {
    seq!['d' as u8, 'i' as u8, 'r' as u8, '_' as u8, 't' as u8, 'r' as u8, 'e' as u8, 'e' as u8]
}

/// The byte sequence of `clear`.
pub open spec fn word_clear() -> Seq<u8> {
    seq!['c' as u8, 'l' as u8, 'e' as u8, 'a' as u8, 'r' as u8]
}

/// The byte sequence of `root      `.
pub open spec fn root_name_text() -> Seq<u8> {
    seq!['r' as u8, 'o' as u8, 'o' as u8, 't' as u8, ' ' as u8, ' ' as u8, ' ' as u8, ' ' as u8, ' ' as u8, ' ' as u8]
}

/// The byte sequence of `[error] The folder name is missing`.
pub open spec fn msg_name_missing() -> Seq<u8> {
    seq!['[' as u8, 'e' as u8, 'r' as u8, 'r' as u8, 'o' as u8, 'r' as u8, ']' as u8, ' ' as u8, 'T' as u8, 'h' as u8, 'e' as u8, ' ' as u8, 'f' as u8, 'o' as u8, 'l' as u8, 'd' as u8, 'e' as u8, 'r' as u8, ' ' as u8, 'n' as u8, 'a' as u8, 'm' as u8, 'e' as u8, ' ' as u8, 'i' as u8, 's' as u8, ' ' as u8, 'm' as u8, 'i' as u8, 's' as u8, 's' as u8, 'i' as u8, 'n' as u8, 'g' as u8]
}

/// The byte sequence of `[error] Such dir is already exists!`.
pub open spec fn msg_already_exists() -> Seq<u8> {
    seq!['[' as u8, 'e' as u8, 'r' as u8, 'r' as u8, 'o' as u8, 'r' as u8, ']' as u8, ' ' as u8, 'S' as u8, 'u' as u8, 'c' as u8, 'h' as u8, ' ' as u8, 'd' as u8, 'i' as u8, 'r' as u8, ' ' as u8, 'i' as u8, 's' as u8, ' ' as u8, 'a' as u8, 'l' as u8, 'r' as u8, 'e' as u8, 'a' as u8, 'd' as u8, 'y' as u8, ' ' as u8, 'e' as u8, 'x' as u8, 'i' as u8, 's' as u8, 't' as u8, 's' as u8, '!' as u8]
}

/// The byte sequence of `[error] No space for a new directory`.
pub open spec fn msg_no_space() -> Seq<u8> {
    seq!['[' as u8, 'e' as u8, 'r' as u8, 'r' as u8, 'o' as u8, 'r' as u8, ']' as u8, ' ' as u8, 'N' as u8, 'o' as u8, ' ' as u8, 's' as u8, 'p' as u8, 'a' as u8, 'c' as u8, 'e' as u8, ' ' as u8, 'f' as u8, 'o' as u8, 'r' as u8, ' ' as u8, 'a' as u8, ' ' as u8, 'n' as u8, 'e' as u8, 'w' as u8, ' ' as u8, 'd' as u8, 'i' as u8, 'r' as u8, 'e' as u8, 'c' as u8, 't' as u8, 'o' as u8, 'r' as u8, 'y' as u8]
}

/// The byte sequence of `[error] You are already in the root directory`.
pub open spec fn msg_already_root() -> Seq<u8> {
    seq!['[' as u8, 'e' as u8, 'r' as u8, 'r' as u8, 'o' as u8, 'r' as u8, ']' as u8, ' ' as u8, 'Y' as u8, 'o' as u8, 'u' as u8, ' ' as u8, 'a' as u8, 'r' as u8, 'e' as u8, ' ' as u8, 'a' as u8, 'l' as u8, 'r' as u8, 'e' as u8, 'a' as u8, 'd' as u8, 'y' as u8, ' ' as u8, 'i' as u8, 'n' as u8, ' ' as u8, 't' as u8, 'h' as u8, 'e' as u8, ' ' as u8, 'r' as u8, 'o' as u8, 'o' as u8, 't' as u8, ' ' as u8, 'd' as u8, 'i' as u8, 'r' as u8, 'e' as u8, 'c' as u8, 't' as u8, 'o' as u8, 'r' as u8, 'y' as u8]
}

/// The byte sequence of `[error] No such children directory!`.
pub open spec fn msg_no_such_dir() -> Seq<u8> {
    seq!['[' as u8, 'e' as u8, 'r' as u8, 'r' as u8, 'o' as u8, 'r' as u8, ']' as u8, ' ' as u8, 'N' as u8, 'o' as u8, ' ' as u8, 's' as u8, 'u' as u8, 'c' as u8, 'h' as u8, ' ' as u8, 'c' as u8, 'h' as u8, 'i' as u8, 'l' as u8, 'd' as u8, 'r' as u8, 'e' as u8, 'n' as u8, ' ' as u8, 'd' as u8, 'i' as u8, 'r' as u8, 'e' as u8, 'c' as u8, 't' as u8, 'o' as u8, 'r' as u8, 'y' as u8, '!' as u8]
}

/// The byte sequence of `[ok] Directory changed`.
pub open spec fn msg_dir_changed() -> Seq<u8> {
    seq!['[' as u8, 'o' as u8, 'k' as u8, ']' as u8, ' ' as u8, 'D' as u8, 'i' as u8, 'r' as u8, 'e' as u8, 'c' as u8, 't' as u8, 'o' as u8, 'r' as u8, 'y' as u8, ' ' as u8, 'c' as u8, 'h' as u8, 'a' as u8, 'n' as u8, 'g' as u8, 'e' as u8, 'd' as u8]
}

/// The byte sequence of `[ok] The folder `.
pub open spec fn msg_folder_prefix() -> Seq<u8> {
    seq!['[' as u8, 'o' as u8, 'k' as u8, ']' as u8, ' ' as u8, 'T' as u8, 'h' as u8, 'e' as u8, ' ' as u8, 'f' as u8, 'o' as u8, 'l' as u8, 'd' as u8, 'e' as u8, 'r' as u8, ' ' as u8]
}

/// The byte sequence of `is created`.
pub open spec fn msg_is_created() -> Seq<u8> {
    seq!['i' as u8, 's' as u8, ' ' as u8, 'c' as u8, 'r' as u8, 'e' as u8, 'a' as u8, 't' as u8, 'e' as u8, 'd' as u8]
}

/// The byte sequence of `[ok] Directory `.
pub open spec fn msg_removed_prefix() -> Seq<u8> {
    seq!['[' as u8, 'o' as u8, 'k' as u8, ']' as u8, ' ' as u8, 'D' as u8, 'i' as u8, 'r' as u8, 'e' as u8, 'c' as u8, 't' as u8, 'o' as u8, 'r' as u8, 'y' as u8, ' ' as u8]
}

/// The byte sequence of `was removed`.
pub open spec fn msg_was_removed() -> Seq<u8> {
    seq!['w' as u8, 'a' as u8, 's' as u8, ' ' as u8, 'r' as u8, 'e' as u8, 'm' as u8, 'o' as u8, 'v' as u8, 'e' as u8, 'd' as u8]
}

/// The byte sequence of `[error] Command '`.
pub open spec fn msg_not_supported_open() -> Seq<u8> {
    seq!['[' as u8, 'e' as u8, 'r' as u8, 'r' as u8, 'o' as u8, 'r' as u8, ']' as u8, ' ' as u8, 'C' as u8, 'o' as u8, 'm' as u8, 'm' as u8, 'a' as u8, 'n' as u8, 'd' as u8, ' ' as u8, '\'' as u8]
}

/// The byte sequence of `' is not supported.`.
pub open spec fn msg_not_supported_close() -> Seq<u8> {
    seq!['\'' as u8, ' ' as u8, 'i' as u8, 's' as u8, ' ' as u8, 'n' as u8, 'o' as u8, 't' as u8, ' ' as u8, 's' as u8, 'u' as u8, 'p' as u8, 'p' as u8, 'o' as u8, 'r' as u8, 't' as u8, 'e' as u8, 'd' as u8, '.' as u8]
}


/// The parent scan skips slots whose names are known not to match.
pub proof fn lemma_first_named_skip(slots: Seq<DirModel>, name: Seq<u8>, i: int, bound: int)
    requires
        0 <= i <= bound,
        forall|k: int| 0 <= k < i ==> (#[trigger] slots[k]).name != name,
    ensures
        first_named(slots, name, 0, bound) == first_named(slots, name, i, bound),
    decreases i,
{
    if i > 0 {
        lemma_first_named_skip(slots, name, i - 1, bound);
    }
}

/// A found parent index lies in the scanned range.
pub proof fn lemma_first_named_range(slots: Seq<DirModel>, name: Seq<u8>, i: int, bound: int)
    ensures
        first_named(slots, name, i, bound) matches Some(p) ==> i <= p < bound,
    decreases bound - i,
{
    if i < bound && slots[i].name != name {
        lemma_first_named_range(slots, name, i + 1, bound);
    }
}

/// The child scan skips entries known not to match.
pub proof fn lemma_first_child_skip(t: TableModel, d: DirModel, name: Seq<u8>, j: int)
    requires
        0 <= j <= d.child_count,
        forall|k: int| 0 <= k < j ==> !(0 <= #[trigger] d.child_indexes[k] < MAX_DIRS
            && t.slots[d.child_indexes[k]].name == name),
    ensures
        first_child_named(t, d, name, 0) == first_child_named(t, d, name, j),
    decreases j,
{
    if j > 0 {
        lemma_first_child_skip(t, d, name, j - 1);
    }
}

/// When the child scan fails, no occupied entry from `j` on matches.
pub proof fn lemma_first_child_zero(t: TableModel, d: DirModel, name: Seq<u8>, j: int, pos: int)
    requires
        table_wf(t),
        0 <= pos < MAX_DIRS,
        d == t.slots[pos],
        0 <= j,
        first_child_named(t, d, name, j) == 0,
    ensures
        forall|k: int| j <= k < d.child_count ==> t.slots[#[trigger] d.child_indexes[k]].name != name,
    decreases d.child_count - j,
{
    if j < d.child_count {
        assert(dir_wf(t.slots[pos], pos, t.next_dir));
        assert(pos < d.child_indexes[j] < t.next_dir);
        lemma_first_child_zero(t, d, name, j + 1, pos);
    }
}

/// A found child index lies strictly between its parent's index and
/// the allocation cursor, and in particular is never zero.
pub proof fn lemma_first_child_range(t: TableModel, d: DirModel, name: Seq<u8>, j: int, pos: int)
    requires
        table_wf(t),
        0 <= pos < MAX_DIRS,
        d == t.slots[pos],
        0 <= j,
    ensures
        first_child_named(t, d, name, j) == 0
            || pos < first_child_named(t, d, name, j) < t.next_dir,
    decreases d.child_count - j,
{
    if j < d.child_count {
        assert(dir_wf(t.slots[pos], pos, t.next_dir));
        assert(pos < d.child_indexes[j] < t.next_dir);
        lemma_first_child_range(t, d, name, j + 1, pos);
    }
}

/// The result of the lookup is a valid slot index, and when it is not
/// zero it lies below the allocation cursor.
pub proof fn lemma_find_child_range(t: TableModel, parent_name: Seq<u8>, child_name: Seq<u8>)
    requires
        table_wf(t),
    ensures
        0 <= spec_find_child(t, parent_name, child_name) < MAX_DIRS,
        spec_find_child(t, parent_name, child_name) != 0
            ==> spec_find_child(t, parent_name, child_name) < t.next_dir,
{
    lemma_first_named_range(t.slots, parent_name, 0, t.next_dir - 1);
    match first_named(t.slots, parent_name, 0, t.next_dir - 1) {
        Some(p) => {
            lemma_first_child_range(t, t.slots[p], child_name, 0, p);
        },
        None => {},
    }
}

/// The search for a child's position skips entries known to differ.
pub proof fn lemma_child_pos_skip(children: Seq<int>, count: int, id: int, j: int)
    requires
        0 <= j <= count,
        forall|k: int| 0 <= k < j ==> #[trigger] children[k] != id,
    ensures
        child_pos(children, count, id, 0) == child_pos(children, count, id, j),
    decreases j,
{
    if j > 0 {
        lemma_child_pos_skip(children, count, id, j - 1);
    }
}

/// Scanning for a token's end skips bytes known not to be spaces.
pub proof fn lemma_token_end_skip(buf: Seq<u8>, from: int, i: int, len: int)
    requires
        from <= i <= len,
        forall|k: int| from <= k < i ==> #[trigger] buf[k] != SPACE,
    ensures
        token_end(buf, from, len) == token_end(buf, i, len),
    decreases i - from,
{
    if i > from {
        lemma_token_end_skip(buf, from + 1, i, len);
    }
}

/// A token's end never lies before its start, nor past the line.
pub proof fn lemma_token_end_bounds(buf: Seq<u8>, from: int, len: int)
    ensures
        token_end(buf, from, len) >= from,
        from <= len ==> token_end(buf, from, len) <= len,
    decreases len - from,
{
    if from < len && buf[from] != SPACE {
        lemma_token_end_bounds(buf, from + 1, len);
    }
}

/// A position after a run of non-spaces that sits on a space, or at
/// the line's end, is exactly the token's end.
pub proof fn lemma_token_end_at(buf: Seq<u8>, from: int, i: int, len: int)
    requires
        from <= i <= len,
        forall|k: int| from <= k < i ==> #[trigger] buf[k] != SPACE,
        i == len || buf[i] == SPACE,
    ensures
        token_end(buf, from, len) == i,
{
    lemma_token_end_skip(buf, from, i, len);
}

} // verus!
