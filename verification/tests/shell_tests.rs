use dir_shell::model::ShellError;
use dir_shell::shell::{compare_array, compare_strings, parse_input, write_array, Shell};

/// A name or command padded with spaces to the fixed ten-byte width.
fn tok(s: &str) -> Vec<u8> {
    let mut v: Vec<u8> = s.as_bytes().to_vec();
    assert!(v.len() <= 10);
    while v.len() < 10 {
        v.push(b' ');
    }
    v
}

/// An eighty-byte line buffer holding `s` followed by zeros.
fn line_buf(s: &str) -> Vec<u8> {
    let mut v: Vec<u8> = s.as_bytes().to_vec();
    assert!(v.len() <= 80);
    while v.len() < 80 {
        v.push(0);
    }
    v
}

/// Feeds a whole line, newline included, key by key; returns the
/// concatenated screen text and whether any key asked for a wipe.
fn feed(sh: &mut Shell, line: &str) -> (Vec<u8>, bool) {
    let mut text: Vec<u8> = Vec::new();
    let mut cleared = false;
    for &b in line.as_bytes() {
        let out = sh.on_key_pressed(b);
        cleared = cleared || out.clear_screen;
        text.extend(out.text);
    }
    (text, cleared)
}

#[test]
fn new_shell_starts_at_root() {
    let sh = Shell::new();
    assert_eq!(sh.current_dir, 0);
    assert_eq!(sh.dirs.next_dir, 1);
    assert_eq!(sh.dirs.dirs[0].name, tok("root"));
    assert_eq!(sh.dirs.dirs[0].parent_index, 0);
    assert_eq!(sh.current_dir_command(), b"/root      ".to_vec());
}

#[test]
fn create_then_find_returns_child() {
    let mut sh = Shell::new();
    let (res, _) = sh.make_dir_command(&tok("a"));
    assert_eq!(res, Ok(1));
    assert_eq!(sh.find_childer_dir(&tok("root"), &tok("a")), 1);
}

#[test]
fn make_dir_twice_reports_collision() {
    let mut sh = Shell::new();
    let (res, _) = sh.make_dir_command(&tok("x"));
    assert_eq!(res, Ok(1));
    let next_before = sh.dirs.next_dir;
    let count_before = sh.dirs.dirs[0].child_count;
    let (res2, msg) = sh.make_dir_command(&tok("x"));
    assert_eq!(res2, Err(ShellError::NameCollision));
    assert_eq!(msg, b"[error] Such dir is already exists!".to_vec());
    assert_eq!(sh.dirs.next_dir, next_before);
    assert_eq!(sh.dirs.dirs[0].child_count, count_before);
}

#[test]
fn change_dir_dot_at_root_fails() {
    let mut sh = Shell::new();
    let (res, msg) = sh.change_dir_command(&tok("."));
    assert_eq!(res, Err(ShellError::AlreadyAtRoot));
    assert_eq!(msg, b"[error] You are already in the root directory".to_vec());
    assert_eq!(sh.current_dir, 0);
}

#[test]
fn make_enter_leave_returns_to_root() {
    let mut sh = Shell::new();
    assert_eq!(sh.make_dir_command(&tok("a")).0, Ok(1));
    assert_eq!(sh.change_dir_command(&tok("a")).0, Ok(1));
    assert_eq!(sh.current_dir, 1);
    assert_eq!(sh.change_dir_command(&tok(".")).0, Ok(0));
    assert_eq!(sh.current_dir, 0);
    assert_eq!(sh.current_dir_command(), b"/root      ".to_vec());
}

#[test]
fn remove_dir_detaches_and_orphans_children() {
    let mut sh = Shell::new();
    assert_eq!(sh.make_dir_command(&tok("a")).0, Ok(1));
    assert_eq!(sh.change_dir_command(&tok("a")).0, Ok(1));
    assert_eq!(sh.make_dir_command(&tok("b")).0, Ok(2));
    assert_eq!(sh.change_dir_command(&tok(".")).0, Ok(0));
    let next_before = sh.dirs.next_dir;
    let (res, _) = sh.remove_dir_command(&tok("a"));
    assert_eq!(res, Ok(1));
    // detached from the parent and cleared
    assert_eq!(sh.dirs.dirs[0].child_count, 0);
    assert_eq!(sh.dirs.dirs[1].name, tok(""));
    assert_eq!(sh.dirs.dirs[1].child_count, 0);
    // the orphan keeps its slot, but traversal no longer reaches it
    assert_eq!(sh.dirs.dirs[2].name, tok("b"));
    assert_eq!(sh.dirs.next_dir, next_before);
    assert_eq!(sh.dir_tree_command(), b"/root      \n".to_vec());
}

#[test]
fn remove_middle_child_shifts_list() {
    let mut sh = Shell::new();
    assert_eq!(sh.make_dir_command(&tok("a")).0, Ok(1));
    assert_eq!(sh.make_dir_command(&tok("b")).0, Ok(2));
    assert_eq!(sh.make_dir_command(&tok("c")).0, Ok(3));
    assert_eq!(sh.remove_dir_command(&tok("b")).0, Ok(2));
    assert_eq!(sh.dirs.dirs[0].child_count, 2);
    assert_eq!(sh.dirs.dirs[0].child_indexes[0], 1);
    assert_eq!(sh.dirs.dirs[0].child_indexes[1], 3);
    assert_eq!(sh.dirs.dirs[0].child_indexes[2], 0);
}

#[test]
fn dir_tree_indents_each_level() {
    let mut sh = Shell::new();
    assert_eq!(sh.make_dir_command(&tok("a")).0, Ok(1));
    assert_eq!(sh.change_dir_command(&tok("a")).0, Ok(1));
    assert_eq!(sh.make_dir_command(&tok("b")).0, Ok(2));
    assert_eq!(
        sh.dir_tree_command(),
        b"/a         \n    /b         \n".to_vec()
    );
}

#[test]
fn dir_tree_from_root_shows_whole_tree() {
    let mut sh = Shell::new();
    assert_eq!(sh.make_dir_command(&tok("a")).0, Ok(1));
    assert_eq!(sh.change_dir_command(&tok("a")).0, Ok(1));
    assert_eq!(sh.make_dir_command(&tok("b")).0, Ok(2));
    assert_eq!(sh.change_dir_command(&tok(".")).0, Ok(0));
    assert_eq!(
        sh.dir_tree_command(),
        b"/root      \n    /a         \n        /b         \n".to_vec()
    );
}

#[test]
fn table_capacity_is_one_hundred_slots() {
    let mut sh = Shell::new();
    for i in 0..99usize {
        let name = tok(&format!("d{}", i));
        let (res, _) = sh.make_dir_command(&name);
        assert_eq!(res, Ok(i + 1));
        assert_eq!(sh.change_dir_command(&name).0, Ok(i + 1));
    }
    assert_eq!(sh.dirs.next_dir, 100);
    let cur_before = sh.current_dir;
    let (res, msg) = sh.make_dir_command(&tok("over"));
    assert_eq!(res, Err(ShellError::CapacityExceeded));
    assert_eq!(msg, b"[error] No space for a new directory".to_vec());
    assert_eq!(sh.dirs.next_dir, 100);
    assert_eq!(sh.current_dir, cur_before);
}

#[test]
fn child_list_capacity_is_ten() {
    let mut sh = Shell::new();
    for i in 0..10usize {
        assert_eq!(sh.make_dir_command(&tok(&format!("c{}", i))).0, Ok(i + 1));
    }
    let (res, _) = sh.make_dir_command(&tok("c10"));
    assert_eq!(res, Err(ShellError::CapacityExceeded));
    assert_eq!(sh.dirs.dirs[0].child_count, 10);
}

#[test]
fn ten_byte_command_still_dispatches() {
    let mut sh = Shell::new();
    let (text, _) = feed(&mut sh, "abcdefghij\n");
    let expected = b"abcdefghij\n[error] Command 'abcdefghij' is not supported.\n".to_vec();
    assert_eq!(text, expected);
}

#[test]
fn eleven_byte_command_drops_the_line() {
    let mut sh = Shell::new();
    let (text, cleared) = feed(&mut sh, "abcdefghijk\n");
    // the keys echo, the newline answers alone: no report of any kind
    assert_eq!(text, b"abcdefghijk\n".to_vec());
    assert!(!cleared);
    assert_eq!(sh.dirs.next_dir, 1);
    assert_eq!(sh.buf_len, 0);
}

#[test]
fn parse_input_splits_command_and_argument() {
    let r = parse_input(&line_buf("make_dir a"), 10);
    assert_eq!(r, Ok((tok("make_dir"), tok("a"))));
}

#[test]
fn parse_input_ignores_a_third_token() {
    let r = parse_input(&line_buf("a b c"), 5);
    assert_eq!(r, Ok((tok("a"), tok("b"))));
}

#[test]
fn parse_input_without_argument_gives_blank() {
    let r = parse_input(&line_buf("dir_tree"), 8);
    assert_eq!(r, Ok((tok("dir_tree"), tok(""))));
}

#[test]
fn parse_input_rejects_wide_command() {
    let r = parse_input(&line_buf("abcdefghijk"), 11);
    assert_eq!(r, Err(ShellError::CommandTooLong));
}

#[test]
fn parse_input_rejects_wide_argument() {
    let r = parse_input(&line_buf("cd abcdefghijk"), 14);
    assert_eq!(r, Err(ShellError::ArgumentTooLong));
}

#[test]
fn compare_array_is_byte_equality() {
    assert!(compare_array(&tok("abc"), &tok("abc")));
    assert!(!compare_array(&tok("abc"), &tok("abd")));
    assert!(!compare_array(&tok("abc"), &tok("ab")));
}

#[test]
fn compare_strings_pads_the_word() {
    let word: Vec<u8> = b"clear".to_vec();
    assert!(compare_strings(&word, &tok("clear")));
    assert!(!compare_strings(&word, &tok("clears")));
}

#[test]
fn write_array_appends_all_bytes() {
    let mut out: Vec<u8> = b"/".to_vec();
    write_array(&tok("a"), &mut out);
    assert_eq!(out, b"/a         ".to_vec());
}

#[test]
fn unsupported_command_is_reported() {
    let mut sh = Shell::new();
    let (out, err) = sh.execute_command(&tok("nope"), &tok(""));
    assert_eq!(err, Some(ShellError::UnsupportedCommand));
    assert_eq!(out.text, b"\n[error] Command 'nope' is not supported.".to_vec());
    assert!(!out.clear_screen);
}

#[test]
fn clear_command_wipes_the_screen() {
    let mut sh = Shell::new();
    let (text, cleared) = feed(&mut sh, "clear\n");
    assert!(cleared);
    assert_eq!(text, b"clear\n".to_vec());
}

#[test]
fn make_dir_reports_success_line() {
    let mut sh = Shell::new();
    let (text, _) = feed(&mut sh, "make_dir a\n");
    assert_eq!(
        text,
        b"make_dir a\n[ok] The folder a         is created\n".to_vec()
    );
}

#[test]
fn make_dir_without_name_is_missing() {
    let mut sh = Shell::new();
    let (text, _) = feed(&mut sh, "make_dir\n");
    assert_eq!(text, b"make_dir\n[error] The folder name is missing\n".to_vec());
    assert_eq!(sh.dirs.next_dir, 1);
}

#[test]
fn change_dir_to_unknown_child_fails() {
    let mut sh = Shell::new();
    let (res, msg) = sh.change_dir_command(&tok("ghost"));
    assert_eq!(res, Err(ShellError::NotFound));
    assert_eq!(msg, b"[error] No such children directory!".to_vec());
    assert_eq!(sh.current_dir, 0);
}

#[test]
fn remove_dir_reports_with_leading_break() {
    let mut sh = Shell::new();
    assert_eq!(sh.make_dir_command(&tok("a")).0, Ok(1));
    let (text, _) = feed(&mut sh, "remove_dir a\n");
    assert_eq!(
        text,
        b"remove_dir a\n\n[ok] Directory a         was removed\n".to_vec()
    );
}

#[test]
fn remove_dir_unknown_child_fails() {
    let mut sh = Shell::new();
    let (res, msg) = sh.remove_dir_command(&tok("ghost"));
    assert_eq!(res, Err(ShellError::NotFound));
    assert_eq!(msg, b"\n[error] No such children directory!".to_vec());
}

#[test]
fn cur_dir_line_through_the_interpreter() {
    let mut sh = Shell::new();
    let (text, _) = feed(&mut sh, "cur_dir\n");
    assert_eq!(text, b"cur_dir\n/root      \n".to_vec());
}

#[test]
fn full_buffer_discards_further_keys() {
    let mut sh = Shell::new();
    for _ in 0..80 {
        let out = sh.on_key_pressed(b'a');
        assert_eq!(out.text, b"a".to_vec());
    }
    assert_eq!(sh.buf_len, 80);
    let out = sh.on_key_pressed(b'a');
    assert!(out.text.is_empty());
    assert_eq!(sh.buf_len, 80);
    // the gathered line has an eighty-byte command token: dropped
    let out = sh.on_key_pressed(b'\n');
    assert_eq!(out.text, b"\n".to_vec());
    assert_eq!(sh.buf_len, 0);
    assert_eq!(sh.dirs.next_dir, 1);
}

#[test]
fn blank_line_echoes_only_the_break() {
    let mut sh = Shell::new();
    let (text, cleared) = feed(&mut sh, "\n");
    assert_eq!(text, b"\n".to_vec());
    assert!(!cleared);
}

#[test]
fn dot_prefixed_name_acts_as_parent() {
    let mut sh = Shell::new();
    assert_eq!(sh.make_dir_command(&tok("a")).0, Ok(1));
    assert_eq!(sh.change_dir_command(&tok("a")).0, Ok(1));
    // the interpreter only inspects the first byte of the argument
    assert_eq!(sh.change_dir_command(&tok(".config")).0, Ok(0));
    assert_eq!(sh.current_dir, 0);
}

#[test]
fn shadowed_parent_name_defeats_collision_check() {
    // Lookups scan for the parent by name and take the first match,
    // so a directory that shares its name with an earlier one can be
    // scanned in its place: the duplicate-sibling check then misses.
    let mut sh = Shell::new();
    assert_eq!(sh.make_dir_command(&tok("p")).0, Ok(1));
    assert_eq!(sh.change_dir_command(&tok("p")).0, Ok(1));
    assert_eq!(sh.make_dir_command(&tok("q")).0, Ok(2));
    assert_eq!(sh.change_dir_command(&tok("q")).0, Ok(2));
    // a second directory named `p`, under `q`
    assert_eq!(sh.make_dir_command(&tok("p")).0, Ok(3));
    assert_eq!(sh.change_dir_command(&tok("p")).0, Ok(3));
    assert_eq!(sh.make_dir_command(&tok("x")).0, Ok(4));
    // the check scans the first directory named `p`, which has no
    // child `x`, so a twin sibling appears
    assert_eq!(sh.make_dir_command(&tok("x")).0, Ok(5));
    assert_eq!(sh.dirs.dirs[3].child_count, 2);
    assert_eq!(sh.dirs.dirs[4].name, tok("x"));
    assert_eq!(sh.dirs.dirs[5].name, tok("x"));
}

#[test]
fn children_of_lists_occupied_entries_in_order() {
    let mut sh = Shell::new();
    assert_eq!(sh.make_dir_command(&tok("a")).0, Ok(1));
    assert_eq!(sh.make_dir_command(&tok("b")).0, Ok(2));
    assert_eq!(sh.children_of(0), vec![1, 2]);
    assert_eq!(sh.children_of(1), Vec::<usize>::new());
}
